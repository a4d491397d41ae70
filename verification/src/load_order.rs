//! The path/priority resolver.
//!
//! A plain-text load-order file declares working directories and mod
//! names; every other line is ignored.  Each mod name resolves against
//! the first declared working directory that holds the file (declaration
//! order, data directory last).  After explicit resolution, archives
//! that self-identify as movie archives are appended: those auto-load in
//! the target engine without explicit declaration.  The output is an
//! ordered list of absolute archive paths, lowest to highest priority,
//! with the implicit data directory always first.

use vstd::prelude::*;

use crate::text;

verus! {

use vstd::string::StringSliceAdditionalSpecFns;

pub open spec fn spec_wd_prefix() -> Seq<u8> {
    "add_working_directory \"".spec_bytes()
}

pub open spec fn spec_mod_prefix() -> Seq<u8> {
    "mod \"".spec_bytes()
}

/// One recognized line of the load-order file.
pub enum DeclV {
    WorkingDir(Seq<u8>),
    ModName(Seq<u8>),
}

/// A line, trimmed and with one trailing statement terminator removed.
pub open spec fn spec_line_core(line: Seq<u8>) -> Seq<u8> {
    let t = text::spec_trim(line);
    if t.len() > 0 && t[t.len() - 1] == 59 {
        t.drop_last()
    } else {
        t
    }
}

/// What a line declares, if anything: the two recognized forms carry a
/// quoted payload; every other line is ignored.
pub open spec fn spec_parse_line(line: Seq<u8>) -> Option<DeclV> {
    let c = spec_line_core(line);
    if text::spec_starts_with(c, spec_wd_prefix()) && c.len() > spec_wd_prefix().len() && c[c.len()
        - 1] == 34 {
        Some(
            DeclV::WorkingDir(
                text::spec_trim(c.subrange(spec_wd_prefix().len() as int, c.len() - 1)),
            ),
        )
    } else if text::spec_starts_with(c, spec_mod_prefix()) && c.len() > spec_mod_prefix().len()
        && c[c.len() - 1] == 34 {
        Some(
            DeclV::ModName(
                text::spec_trim(c.subrange(spec_mod_prefix().len() as int, c.len() - 1)),
            ),
        )
    } else {
        None
    }
}

/// The declared working directories of the whole text, in order.
pub open spec fn spec_working_dirs(lines: Seq<Seq<u8>>) -> Seq<Seq<u8>>
    decreases lines.len(),
{
    if lines.len() == 0 {
        Seq::empty()
    } else {
        spec_working_dirs(lines.drop_last()) + (match spec_parse_line(lines.last()) {
            Some(DeclV::WorkingDir(d)) => seq![d],
            _ => Seq::empty(),
        })
    }
}

/// The declared mod names of the whole text, in order.
pub open spec fn spec_mod_names(lines: Seq<Seq<u8>>) -> Seq<Seq<u8>>
    decreases lines.len(),
{
    if lines.len() == 0 {
        Seq::empty()
    } else {
        spec_mod_names(lines.drop_last()) + (match spec_parse_line(lines.last()) {
            Some(DeclV::ModName(m)) => seq![m],
            _ => Seq::empty(),
        })
    }
}

fn parse_line(line: &Vec<u8>) -> (r: Option<(bool, Vec<u8>)>)
    ensures
        match r {
            Some(d) => (match spec_parse_line(line@) {
                Some(DeclV::WorkingDir(p)) => d.0 && d.1@ == p,
                Some(DeclV::ModName(m)) => !d.0 && d.1@ == m,
                None => false,
            }),
            None => spec_parse_line(line@) is None,
        },
{
    let t = text::trim(line);
    let tn = t.len();
    let core = if tn > 0 && t[tn - 1] == 59 {
        let c = text::subvec(&t, 0, tn - 1);
        proof {
            assert(c@ =~= text::spec_trim(line@).drop_last());
        }
        c
    } else {
        t
    };
    proof {
        assert(core@ == spec_line_core(line@));
    }
    let wd_prefix = text::bytes_of("add_working_directory \"");
    let mod_prefix = text::bytes_of("mod \"");
    let cn = core.len();
    if text::starts_with(&core, &wd_prefix) && cn > wd_prefix.len() && core[cn - 1] == 34 {
        let payload = text::subvec(&core, wd_prefix.len(), cn - 1);
        proof {
            assert(payload@ =~= spec_line_core(line@).subrange(
                spec_wd_prefix().len() as int,
                spec_line_core(line@).len() - 1,
            ));
        }
        Some((true, text::trim(&payload)))
    } else if text::starts_with(&core, &mod_prefix) && cn > mod_prefix.len() && core[cn - 1]
        == 34 {
        let payload = text::subvec(&core, mod_prefix.len(), cn - 1);
        proof {
            assert(payload@ =~= spec_line_core(line@).subrange(
                spec_mod_prefix().len() as int,
                spec_line_core(line@).len() - 1,
            ));
        }
        Some((false, text::trim(&payload)))
    } else {
        None
    }
}

/// Parses the load-order text into its declared working directories and
/// mod names, each in declaration order.
pub fn parse_load_order(content: &Vec<u8>) -> (r: (Vec<Vec<u8>>, Vec<Vec<u8>>))
    ensures
        r.0.deep_view() =~~= spec_working_dirs(text::spec_split_lines(content@)),
        r.1.deep_view() =~~= spec_mod_names(text::spec_split_lines(content@)),
{
    let lines = text::split_lines(content);
    let ghost lv = text::spec_split_lines(content@);
    let n = lines.len();
    let mut dirs: Vec<Vec<u8>> = Vec::new();
    let mut mods: Vec<Vec<u8>> = Vec::new();
    let mut i: usize = 0;
    proof {
        assert(lv.take(0) =~= Seq::<Seq<u8>>::empty());
        assert(dirs.deep_view() =~~= spec_working_dirs(lv.take(0)));
        assert(mods.deep_view() =~~= spec_mod_names(lv.take(0)));
    }
    while i < n
        invariant
            n == lines@.len(),
            lv == lines.deep_view(),
            lv.len() == n,
            i <= n,
            dirs.deep_view() == spec_working_dirs(lv.take(i as int)),
            mods.deep_view() == spec_mod_names(lv.take(i as int)),
        decreases n - i,
    {
        let ghost d0 = dirs.deep_view();
        let ghost m0 = mods.deep_view();
        proof {
            assert(lv.take(i + 1).drop_last() =~= lv.take(i as int));
            assert(lv.take(i + 1).last() == lv[i as int]);
            assert(lines@[i as int].deep_view() =~= lv[i as int]);
        }
        let line = &lines[i];
        proof {
            assert(line@ =~= lv[i as int]);
        }
        match parse_line(line) {
            Some((is_dir, payload)) => {
                if is_dir {
                    dirs.push(payload);
                    proof {
                        assert(dirs.deep_view() =~~= spec_working_dirs(lv.take(i + 1)));
                        assert(mods.deep_view() =~~= spec_mod_names(lv.take(i + 1)));
                    }
                } else {
                    mods.push(payload);
                    proof {
                        assert(dirs.deep_view() =~~= spec_working_dirs(lv.take(i + 1)));
                        assert(mods.deep_view() =~~= spec_mod_names(lv.take(i + 1)));
                    }
                }
            },
            None => {
                proof {
                    assert(dirs.deep_view() =~~= spec_working_dirs(lv.take(i + 1)));
                    assert(mods.deep_view() =~~= spec_mod_names(lv.take(i + 1)));
                }
            },
        }
        i += 1;
    }
    proof {
        assert(lv.take(n as int) =~= lv);
    }
    (dirs, mods)
}

/// A working directory with the archive file names it holds; the caller
/// supplies one listing per resolution candidate, in resolution order
/// (declared directories first, the data directory last).
#[derive(Debug)]
pub struct DirListing {
    pub dir: Vec<u8>,
    pub files: Vec<Vec<u8>>,
}

pub struct DirListingV {
    pub dir: Seq<u8>,
    pub files: Seq<Seq<u8>>,
}

impl DeepView for DirListing {
    type V = DirListingV;

    open spec fn deep_view(&self) -> DirListingV {
        DirListingV { dir: self.dir@, files: self.files.deep_view() }
    }
}

pub open spec fn spec_listing_has(l: DirListingV, name: Seq<u8>) -> bool {
    exists|i: int| 0 <= i < l.files.len() && #[trigger] l.files[i] == name
}

fn listing_has(l: &DirListing, name: &Vec<u8>) -> (r: bool)
    ensures
        r == spec_listing_has(l.deep_view(), name@),
{
    let n = l.files.len();
    let mut i: usize = 0;
    while i < n
        invariant
            n == l.files@.len(),
            i <= n,
            forall|j: int| 0 <= j < i ==> (#[trigger] l.files@[j])@ != name@,
        decreases n - i,
    {
        if text::bytes_eq(&l.files[i], name) {
            proof {
                assert(l.deep_view().files[i as int] =~= name@);
            }
            return true;
        }
        i += 1;
    }
    proof {
        if spec_listing_has(l.deep_view(), name@) {
            let j = choose|j: int|
                0 <= j < l.deep_view().files.len() && #[trigger] l.deep_view().files[j] == name@;
            assert(l.files@[j]@ =~= l.deep_view().files[j]);
        }
    }
    false
}

/// The full path of a file inside a directory.
pub open spec fn spec_join_path(dir: Seq<u8>, name: Seq<u8>) -> Seq<u8> {
    dir + seq![47u8] + name
}

pub fn join_path(dir: &Vec<u8>, name: &Vec<u8>) -> (r: Vec<u8>)
    ensures
        r@ == spec_join_path(dir@, name@),
{
    let mut r = dir.clone();
    r.push(47);
    text::push_all(&mut r, name);
    proof {
        assert(r@ =~= spec_join_path(dir@, name@));
    }
    r
}

/// Where one mod name resolves to: inside the first listed directory
/// that holds the file, if any.
pub open spec fn spec_resolve_one(name: Seq<u8>, listings: Seq<DirListingV>) -> Option<Seq<u8>>
    decreases listings.len(),
{
    if listings.len() == 0 {
        None
    } else if spec_listing_has(listings[0], name) {
        Some(spec_join_path(listings[0].dir, name))
    } else {
        spec_resolve_one(name, listings.skip(1))
    }
}

/// The resolved paths of the declared mods, in declaration order; a name
/// found in no directory is dropped.
pub open spec fn spec_resolve_mods(names: Seq<Seq<u8>>, listings: Seq<DirListingV>) -> Seq<Seq<u8>>
    decreases names.len(),
{
    if names.len() == 0 {
        Seq::empty()
    } else {
        spec_resolve_mods(names.drop_last(), listings) + (match spec_resolve_one(
            names.last(),
            listings,
        ) {
            Some(p) => seq![p],
            None => Seq::empty(),
        })
    }
}

fn resolve_one(name: &Vec<u8>, listings: &Vec<DirListing>) -> (r: Option<Vec<u8>>)
    ensures
        match r {
            Some(p) => spec_resolve_one(name@, listings.deep_view()) == Some(p@),
            None => spec_resolve_one(name@, listings.deep_view()) is None,
        },
{
    let ghost sv = listings.deep_view();
    let n = listings.len();
    let mut i: usize = 0;
    proof {
        assert(sv.skip(0) =~= sv);
    }
    while i < n
        invariant
            n == listings@.len(),
            sv == listings.deep_view(),
            sv.len() == n,
            i <= n,
            spec_resolve_one(name@, sv) == spec_resolve_one(name@, sv.skip(i as int)),
        decreases n - i,
    {
        proof {
            assert(sv.skip(i as int)[0] == sv[i as int]);
            assert(sv.skip(i as int).skip(1) =~= sv.skip(i + 1));
            assert(listings@[i as int].deep_view() == sv[i as int]);
        }
        if listing_has(&listings[i], name) {
            let p = join_path(&listings[i].dir, name);
            return Some(p);
        }
        i += 1;
    }
    proof {
        assert(sv.skip(n as int) =~= Seq::<DirListingV>::empty());
    }
    None
}

/// Resolves every declared mod name against the listed directories.
pub fn resolve_mods(names: &Vec<Vec<u8>>, listings: &Vec<DirListing>) -> (r: Vec<Vec<u8>>)
    ensures
        r.deep_view() =~~= spec_resolve_mods(names.deep_view(), listings.deep_view()),
{
    let ghost nv = names.deep_view();
    let n = names.len();
    let mut out: Vec<Vec<u8>> = Vec::new();
    let mut i: usize = 0;
    proof {
        assert(nv.take(0) =~= Seq::<Seq<u8>>::empty());
        assert(out.deep_view() =~~= spec_resolve_mods(nv.take(0), listings.deep_view()));
    }
    while i < n
        invariant
            n == names@.len(),
            nv == names.deep_view(),
            nv.len() == n,
            i <= n,
            out.deep_view() == spec_resolve_mods(nv.take(i as int), listings.deep_view()),
        decreases n - i,
    {
        proof {
            assert(nv.take(i + 1).drop_last() =~= nv.take(i as int));
            assert(nv.take(i + 1).last() == nv[i as int]);
            assert(names@[i as int].deep_view() =~= nv[i as int]);
            assert(names@[i as int]@ =~= nv[i as int]);
        }
        let ghost out0 = out.deep_view();
        match resolve_one(&names[i], listings) {
            Some(p) => {
                out.push(p);
                proof {
                    assert(out.deep_view() =~~= spec_resolve_mods(
                        nv.take(i + 1),
                        listings.deep_view(),
                    ));
                }
            },
            None => {
                proof {
                    assert(out.deep_view() =~~= spec_resolve_mods(
                        nv.take(i + 1),
                        listings.deep_view(),
                    ));
                }
            },
        }
        i += 1;
    }
    proof {
        assert(nv.take(n as int) =~= nv);
    }
    out
}

/// One probed archive file found under a working directory: its absolute
/// path and whether it self-identified as a movie archive (a failed
/// probe counts as not a movie; probing is best effort).
#[derive(Debug)]
pub struct MovieCandidate {
    pub path: Vec<u8>,
    pub is_movie: bool,
}

pub struct MovieCandidateV {
    pub path: Seq<u8>,
    pub is_movie: bool,
}

impl DeepView for MovieCandidate {
    type V = MovieCandidateV;

    open spec fn deep_view(&self) -> MovieCandidateV {
        MovieCandidateV { path: self.path@, is_movie: self.is_movie }
    }
}

pub open spec fn spec_paths_contain(paths: Seq<Seq<u8>>, p: Seq<u8>) -> bool {
    exists|i: int| 0 <= i < paths.len() && #[trigger] paths[i] == p
}

fn paths_contain(paths: &Vec<Vec<u8>>, p: &Vec<u8>) -> (r: bool)
    ensures
        r == spec_paths_contain(paths.deep_view(), p@),
{
    let n = paths.len();
    let mut i: usize = 0;
    while i < n
        invariant
            n == paths@.len(),
            i <= n,
            forall|j: int| 0 <= j < i ==> (#[trigger] paths@[j])@ != p@,
        decreases n - i,
    {
        if text::bytes_eq(&paths[i], p) {
            proof {
                assert(paths.deep_view()[i as int] =~= p@);
            }
            return true;
        }
        i += 1;
    }
    proof {
        if spec_paths_contain(paths.deep_view(), p@) {
            let j = choose|j: int|
                0 <= j < paths.deep_view().len() && #[trigger] paths.deep_view()[j] == p@;
            assert(paths@[j]@ =~= paths.deep_view()[j]);
        }
    }
    false
}

/// The auto-appended movie archives: candidates that self-identified as
/// movie archives and are neither explicitly resolved nor known
/// base-game archives, in candidate order.
pub open spec fn spec_movie_extras(
    candidates: Seq<MovieCandidateV>,
    resolved: Seq<Seq<u8>>,
    vanilla: Seq<Seq<u8>>,
) -> Seq<Seq<u8>>
    decreases candidates.len(),
{
    if candidates.len() == 0 {
        Seq::empty()
    } else {
        let c = candidates.last();
        spec_movie_extras(candidates.drop_last(), resolved, vanilla) + (if c.is_movie
            && !spec_paths_contain(resolved, c.path) && !spec_paths_contain(vanilla, c.path) {
            seq![c.path]
        } else {
            Seq::empty()
        })
    }
}

/// The final load order: the implicit data directory first, the resolved
/// mods in declaration order, then the auto-detected movie archives.
pub fn assemble_load_order(
    data_path: &Vec<u8>,
    resolved: &Vec<Vec<u8>>,
    candidates: &Vec<MovieCandidate>,
    vanilla: &Vec<Vec<u8>>,
) -> (r: Vec<Vec<u8>>)
    ensures
        r.deep_view() =~~= seq![data_path@] + resolved.deep_view() + spec_movie_extras(
            candidates.deep_view(),
            resolved.deep_view(),
            vanilla.deep_view(),
        ),
{
    let ghost cv = candidates.deep_view();
    let mut out: Vec<Vec<u8>> = Vec::new();
    out.push(data_path.clone());
    proof {
        assert(out.deep_view()[0] =~= data_path@);
    }
    let rn = resolved.len();
    let mut i: usize = 0;
    while i < rn
        invariant
            rn == resolved@.len(),
            i <= rn,
            out@.len() == 1 + i,
            out.deep_view()[0] == data_path@,
            forall|j: int| 0 <= j < i ==> out.deep_view()[j + 1] == resolved.deep_view()[j],
        decreases rn - i,
    {
        let ghost prev = out@;
        out.push(resolved[i].clone());
        proof {
            assert(forall|j: int| 0 <= j < prev.len() ==> out@[j] == prev[j]);
            assert(out.deep_view()[1 + i as int] =~= resolved.deep_view()[i as int]);
        }
        i += 1;
    }
    let ghost head = out.deep_view();
    proof {
        assert(head =~~= seq![data_path@] + resolved.deep_view());
    }
    let cn = candidates.len();
    let mut k: usize = 0;
    proof {
        assert(cv.take(0) =~= Seq::<MovieCandidateV>::empty());
        assert(out.deep_view() =~~= head + spec_movie_extras(
            cv.take(0),
            resolved.deep_view(),
            vanilla.deep_view(),
        ));
    }
    while k < cn
        invariant
            cn == candidates@.len(),
            cv == candidates.deep_view(),
            cv.len() == cn,
            k <= cn,
            out.deep_view() == head + spec_movie_extras(
                cv.take(k as int),
                resolved.deep_view(),
                vanilla.deep_view(),
            ),
        decreases cn - k,
    {
        let ghost done = out.deep_view();
        proof {
            assert(cv.take(k + 1).drop_last() =~= cv.take(k as int));
            assert(cv.take(k + 1).last() == cv[k as int]);
            assert(candidates@[k as int].deep_view() == cv[k as int]);
        }
        let c = &candidates[k];
        if c.is_movie && !paths_contain(resolved, &c.path) && !paths_contain(vanilla, &c.path) {
            let ghost prev = out@;
            out.push(c.path.clone());
            proof {
                assert(forall|j: int| 0 <= j < prev.len() ==> out@[j] == prev[j]);
                assert(out.deep_view()[prev.len() as int] =~= cv[k as int].path);
                assert(out.deep_view() =~~= done.push(cv[k as int].path));
                assert(out.deep_view() =~~= head + spec_movie_extras(
                    cv.take(k + 1),
                    resolved.deep_view(),
                    vanilla.deep_view(),
                ));
            }
        } else {
            proof {
                assert(out.deep_view() =~~= head + spec_movie_extras(
                    cv.take(k + 1),
                    resolved.deep_view(),
                    vanilla.deep_view(),
                ));
            }
        }
        k += 1;
    }
    proof {
        assert(cv.take(cn as int) =~= cv);
    }
    out
}


/// The first load-order path whose file ends with the given name: how a
/// base mod named on the command line is found among the resolved paths.
pub fn find_mod_by_name(paths: &Vec<Vec<u8>>, name: &Vec<u8>) -> (r: Option<Vec<u8>>)
    ensures
        match r {
            Some(p) => exists|i: int|
                0 <= i < paths@.len() && (#[trigger] paths@[i])@ == p@ && text::spec_ends_with(
                    p@,
                    name@,
                ) && forall|j: int|
                    0 <= j < i ==> !text::spec_ends_with((#[trigger] paths@[j])@, name@),
            None => forall|j: int|
                0 <= j < paths@.len() ==> !text::spec_ends_with((#[trigger] paths@[j])@, name@),
        },
{
    let n = paths.len();
    let mut i: usize = 0;
    while i < n
        invariant
            n == paths@.len(),
            i <= n,
            forall|j: int| 0 <= j < i ==> !text::spec_ends_with((#[trigger] paths@[j])@, name@),
        decreases n - i,
    {
        if text::ends_with(&paths[i], name) {
            return Some(paths[i].clone());
        }
        i += 1;
    }
    None
}

} // verus!