//! Update-channel selection and release-version comparison.
//!
//! The network fetch of the release list lives outside the library;
//! deciding what a fetched version means relative to the running one is
//! plain logic and is verified here.

use vstd::prelude::*;

use crate::text;

verus! {

/// The channel through which updates are looked for.
#[derive(Debug, PartialEq, Eq, Copy, Clone, Structural)]
pub enum UpdateChannel {
    Stable,
    Beta,
}

/// The possible answers of an update check.
#[derive(Debug, PartialEq, Eq)]
pub enum APIResponse {
    NewBetaUpdate(Vec<u8>),
    NewStableUpdate(Vec<u8>),
    NewUpdateHotfix(Vec<u8>),
    NoUpdate,
    UnknownVersion,
}

/// The currently selected update channel.
pub fn update_channel() -> (c: UpdateChannel)
    ensures
        c == UpdateChannel::Stable,
{
    UpdateChannel::Stable
}

/// A version triple: major, minor, patch.
#[derive(Debug, PartialEq, Eq, Copy, Clone, Structural)]
pub struct Version {
    pub major: u64,
    pub minor: u64,
    pub patch: u64,
}

/// The number a version component's text stands for; unparsable or
/// missing components count as zero.
pub open spec fn spec_component_val(s: Seq<u8>) -> int {
    match text::spec_parse_u64_val(s) {
        Some(v) => v,
        None => 0,
    }
}

/// Splits a version string on dots; the first three components form the
/// triple, each unparsable component counting as zero.
pub open spec fn spec_parse_version(s: Seq<u8>) -> (int, int, int) {
    let parts = spec_dot_parts(s);
    (
        if parts.len() > 0 {
            spec_component_val(parts[0])
        } else {
            0
        },
        if parts.len() > 1 {
            spec_component_val(parts[1])
        } else {
            0
        },
        if parts.len() > 2 {
            spec_component_val(parts[2])
        } else {
            0
        },
    )
}

/// The dot-separated components of a version string.
pub open spec fn spec_dot_parts(s: Seq<u8>) -> Seq<Seq<u8>>
    decreases s.len(),
{
    if s.len() == 0 {
        seq![Seq::<u8>::empty()]
    } else if s[0] == 46 {
        seq![Seq::<u8>::empty()] + spec_dot_parts(s.skip(1))
    } else {
        let rest = spec_dot_parts(s.skip(1));
        seq![seq![s[0]] + rest[0]] + rest.skip(1)
    }
}

proof fn lemma_dot_parts_nonempty(s: Seq<u8>)
    ensures
        spec_dot_parts(s).len() >= 1,
    decreases s.len(),
{
    if s.len() > 0 {
        lemma_dot_parts_nonempty(s.skip(1));
    }
}

/// Parses a version string into its triple.
pub fn parse_version(s: &Vec<u8>) -> (r: Version)
    ensures
        (r.major as int, r.minor as int, r.patch as int) == spec_parse_version(s@),
        r.major <= u64::MAX && r.minor <= u64::MAX && r.patch <= u64::MAX,
{
    let n = s.len();
    let mut parts: Vec<Vec<u8>> = Vec::new();
    let mut cur: Vec<u8> = Vec::new();
    let ghost sv = s@;
    let ghost mut done: Seq<Seq<u8>> = Seq::empty();
    let mut i: usize = 0;
    proof {
        assert(sv.skip(0) =~= sv);
        lemma_dot_parts_nonempty(sv);
        let p = spec_dot_parts(sv);
        assert(Seq::<u8>::empty() + p[0] =~= p[0]);
        assert(done + (seq![Seq::<u8>::empty() + p[0]] + p.skip(1)) =~= p);
    }
    while i < n
        invariant
            n == s@.len(),
            sv == s@,
            i <= n,
            spec_dot_parts(sv.skip(i as int)).len() >= 1,
            spec_dot_parts(sv) == done + (seq![cur@ + spec_dot_parts(sv.skip(i as int))[0]]
                + spec_dot_parts(sv.skip(i as int)).skip(1)),
            parts.deep_view() == done,
        decreases n - i,
    {
        let ghost p = spec_dot_parts(sv.skip(i as int));
        proof {
            crate::text::lemma_spec_find_props(sv, seq![46u8], 0);
            assert(sv.skip(i as int)[0] == sv[i as int]);
            assert(sv.skip(i as int).skip(1) =~= sv.skip(i + 1));
            lemma_dot_parts_nonempty(sv.skip(i + 1));
        }
        let b = s[i];
        if b == 46 {
            let ghost cur0 = cur@;
            let ghost parts0 = parts.deep_view();
            parts.push(cur);
            cur = Vec::new();
            proof {
                let p1 = spec_dot_parts(sv.skip(i + 1));
                assert(p == seq![Seq::<u8>::empty()] + p1);
                assert(p[0] =~= Seq::<u8>::empty());
                assert(p.skip(1) =~= p1);
                assert(cur0 + p[0] =~= cur0);
                done = done.push(cur0);
                assert(Seq::<u8>::empty() + p1[0] =~= p1[0]);
                assert(spec_dot_parts(sv) =~~= done + (seq![cur@ + p1[0]] + p1.skip(1)));
                assert(parts.deep_view() =~~= parts0.push(cur0));
            }
        } else {
            let ghost cur0 = cur@;
            cur.push(b);
            proof {
                let p1 = spec_dot_parts(sv.skip(i + 1));
                assert(p == seq![seq![sv[i as int]] + p1[0]] + p1.skip(1));
                assert(p[0] == seq![sv[i as int]] + p1[0]);
                assert(p.skip(1) =~= p1.skip(1));
                assert(cur@ + p1[0] =~= cur0 + p[0]);
                assert(spec_dot_parts(sv) =~~= done + (seq![cur@ + p1[0]] + p1.skip(1)));
            }
        }
        i += 1;
    }
    let ghost final_parts = spec_dot_parts(sv);
    parts.push(cur);
    proof {
        let p = spec_dot_parts(sv.skip(n as int));
        assert(sv.skip(n as int) =~= Seq::<u8>::empty());
        assert(p =~= seq![Seq::<u8>::empty()]);
        assert(cur@ + p[0] =~= cur@);
        assert(p.skip(1) =~= Seq::<Seq<u8>>::empty());
        assert(final_parts =~~= done.push(cur@));
        assert(parts.deep_view() =~~= final_parts);
    }
    let major = component_val(&parts, 0);
    let minor = component_val(&parts, 1);
    let patch = component_val(&parts, 2);
    Version { major, minor, patch }
}

fn component_val(parts: &Vec<Vec<u8>>, i: usize) -> (r: u64)
    ensures
        r as int == (if i < parts.deep_view().len() {
            spec_component_val(parts.deep_view()[i as int])
        } else {
            0
        }),
{
    if i < parts.len() {
        proof {
            assert(parts@[i as int].deep_view() =~= parts@[i as int]@);
        }
        match text::parse_u64(&parts[i]) {
            Some(v) => v,
            None => 0,
        }
    } else {
        0
    }
}

/// Whether a release belongs to the channel: the stable channel skips
/// releases whose patch number marks a beta build.
pub open spec fn spec_release_matches_channel(patch: int, channel: UpdateChannel) -> bool {
    match channel {
        UpdateChannel::Stable => patch < 99,
        UpdateChannel::Beta => true,
    }
}

pub fn release_matches_channel(patch: u64, channel: UpdateChannel) -> (r: bool)
    ensures
        r == spec_release_matches_channel(patch as int, channel),
{
    match channel {
        UpdateChannel::Stable => patch < 99,
        UpdateChannel::Beta => true,
    }
}

/// The first release of the list that the channel accepts.
pub fn select_release(releases: &Vec<Version>, channel: UpdateChannel) -> (r: Option<Version>)
    ensures
        match r {
            Some(v) => exists|i: int|
                0 <= i < releases@.len() && releases@[i] == v && spec_release_matches_channel(
                    v.patch as int,
                    channel,
                ) && forall|j: int|
                    0 <= j < i ==> !spec_release_matches_channel(
                        (#[trigger] releases@[j]).patch as int,
                        channel,
                    ),
            None => forall|j: int|
                0 <= j < releases@.len() ==> !spec_release_matches_channel(
                    (#[trigger] releases@[j]).patch as int,
                    channel,
                ),
        },
{
    let n = releases.len();
    let mut i: usize = 0;
    while i < n
        invariant
            n == releases@.len(),
            i <= n,
            forall|j: int|
                0 <= j < i ==> !spec_release_matches_channel(
                    (#[trigger] releases@[j]).patch as int,
                    channel,
                ),
        decreases n - i,
    {
        let v = releases[i];
        if release_matches_channel(v.patch, channel) {
            return Some(v);
        }
        i += 1;
    }
    None
}

/// The answer an update check gives for a current and a latest released
/// version: a newer major or minor number is a full update, a newer
/// patch number alone is a hotfix, an all-zero triple on either side
/// means the version could not be read, and a current beta build going
/// back to stable always takes the latest stable release.
pub open spec fn spec_check_update(
    current: (int, int, int),
    last: (int, int, int),
    channel: UpdateChannel,
) -> UpdateDecision {
    if channel == UpdateChannel::Stable && current.2 >= 99 {
        UpdateDecision::Stable
    } else if (last.0 == 0 && last.1 == 0 && last.2 == 0) || (current.0 == 0 && current.1 == 0
        && current.2 == 0) {
        UpdateDecision::Unknown
    } else if last == current {
        UpdateDecision::Current
    } else if last.0 < current.0 {
        UpdateDecision::Current
    } else if last.0 > current.0 {
        if channel == UpdateChannel::Stable {
            UpdateDecision::Stable
        } else {
            UpdateDecision::Beta
        }
    } else if last.1 < current.1 {
        UpdateDecision::Current
    } else if last.1 > current.1 {
        if channel == UpdateChannel::Stable {
            UpdateDecision::Stable
        } else {
            UpdateDecision::Beta
        }
    } else if last.2 < current.2 {
        UpdateDecision::Current
    } else {
        if channel == UpdateChannel::Stable {
            UpdateDecision::Hotfix
        } else {
            UpdateDecision::Beta
        }
    }
}

/// The shape of an update decision, before the version text is attached.
#[derive(Debug, PartialEq, Eq, Copy, Clone, Structural)]
pub enum UpdateDecision {
    Stable,
    Beta,
    Hotfix,
    Current,
    Unknown,
}

/// The rendered form of a version triple: `v<major>.<minor>.<patch>`.
pub open spec fn spec_version_text(v: (int, int, int)) -> Seq<u8> {
    seq![118u8] + text::spec_u64_dec(v.0 as nat) + seq![46u8] + text::spec_u64_dec(v.1 as nat)
        + seq![46u8] + text::spec_u64_dec(v.2 as nat)
}

pub fn version_text(v: Version) -> (r: Vec<u8>)
    ensures
        r@ == spec_version_text((v.major as int, v.minor as int, v.patch as int)),
{
    let mut r: Vec<u8> = Vec::new();
    r.push(118);
    let a = text::u64_to_dec(v.major);
    text::push_all(&mut r, &a);
    r.push(46);
    let b = text::u64_to_dec(v.minor);
    text::push_all(&mut r, &b);
    r.push(46);
    let c = text::u64_to_dec(v.patch);
    text::push_all(&mut r, &c);
    proof {
        assert(r@ =~= spec_version_text((v.major as int, v.minor as int, v.patch as int)));
    }
    r
}

/// Decides what an update check answers, given the running version and
/// the latest release of the channel.
pub fn check_update(current: Version, last: Version, channel: UpdateChannel) -> (r: APIResponse)
    ensures
        ({
            let d = spec_check_update(
                (current.major as int, current.minor as int, current.patch as int),
                (last.major as int, last.minor as int, last.patch as int),
                channel,
            );
            let vt = spec_version_text((last.major as int, last.minor as int, last.patch as int));
            match d {
                UpdateDecision::Stable => r matches APIResponse::NewStableUpdate(t) && t@ == vt,
                UpdateDecision::Beta => r matches APIResponse::NewBetaUpdate(t) && t@ == vt,
                UpdateDecision::Hotfix => r matches APIResponse::NewUpdateHotfix(t) && t@ == vt,
                UpdateDecision::Current => r is NoUpdate,
                UpdateDecision::Unknown => r is UnknownVersion,
            }
        }),
{
    let is_stable = match channel {
        UpdateChannel::Stable => true,
        UpdateChannel::Beta => false,
    };
    if is_stable && current.patch >= 99 {
        return APIResponse::NewStableUpdate(version_text(last));
    }
    if (last.major == 0 && last.minor == 0 && last.patch == 0) || (current.major == 0
        && current.minor == 0 && current.patch == 0) {
        return APIResponse::UnknownVersion;
    }
    if last.major == current.major && last.minor == current.minor && last.patch == current.patch {
        return APIResponse::NoUpdate;
    }
    if last.major < current.major {
        return APIResponse::NoUpdate;
    }
    if last.major > current.major {
        if is_stable {
            return APIResponse::NewStableUpdate(version_text(last));
        } else {
            return APIResponse::NewBetaUpdate(version_text(last));
        }
    }
    if last.minor < current.minor {
        return APIResponse::NoUpdate;
    }
    if last.minor > current.minor {
        if is_stable {
            return APIResponse::NewStableUpdate(version_text(last));
        } else {
            return APIResponse::NewBetaUpdate(version_text(last));
        }
    }
    if last.patch < current.patch {
        return APIResponse::NoUpdate;
    }
    if is_stable {
        APIResponse::NewUpdateHotfix(version_text(last))
    } else {
        APIResponse::NewBetaUpdate(version_text(last))
    }
}

} // verus!
