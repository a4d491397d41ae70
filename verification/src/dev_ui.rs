//! The developer-UI pass: rewrites UI layout text so that parts
//! restricted to developer builds become visible.
//!
//! In every UI text file that marks something developer-only, the marker
//! is flipped off, the developer command hook is renamed, and after each
//! marker occurrence the next hidden-visibility flag is turned on once.

use vstd::prelude::*;

use crate::archive::Archive;
use crate::archive::Record;
use crate::archive::RecordData;
use crate::text;

verus! {

use crate::archive::ArchiveV;
use crate::archive::RecordV;
use crate::archive::RecordDataV;
use crate::archive::spec_insert_all;

/// `is_dev_only` as bytes.
pub open spec fn spec_dev_only_marker() -> Seq<u8> {
    seq![105u8, 115u8, 95u8, 100u8, 101u8, 118u8, 95u8, 111u8, 110u8, 108u8, 121u8]
}

/// `is_dev_only="true"` as bytes.
pub open spec fn spec_dev_true() -> Seq<u8> {
    spec_dev_only_marker() + seq![61u8, 34u8, 116u8, 114u8, 117u8, 101u8, 34u8]
}

/// `is_dev_only="false"` as bytes.
pub open spec fn spec_dev_false() -> Seq<u8> {
    spec_dev_only_marker() + seq![61u8, 34u8, 102u8, 97u8, 108u8, 115u8, 101u8, 34u8]
}

/// `visible="false"` as bytes.
pub open spec fn spec_visible_false() -> Seq<u8> {
    seq![
        118u8, 105u8, 115u8, 105u8, 98u8, 108u8, 101u8, 61u8, 34u8, 102u8, 97u8, 108u8, 115u8,
        101u8, 34u8,
    ]
}

/// `visible="true"` as bytes.
pub open spec fn spec_visible_true() -> Seq<u8> {
    seq![
        118u8, 105u8, 115u8, 105u8, 98u8, 108u8, 101u8, 61u8, 34u8, 116u8, 114u8, 117u8, 101u8,
        34u8,
    ]
}

/// `RunCLI` as bytes.
pub open spec fn spec_run_cli() -> Seq<u8> {
    seq![82u8, 117u8, 110u8, 67u8, 76u8, 73u8]
}

/// `CliExecute` as bytes.
pub open spec fn spec_cli_execute() -> Seq<u8> {
    seq![67u8, 108u8, 105u8, 69u8, 120u8, 101u8, 99u8, 117u8, 116u8, 101u8]
}

fn dev_true_bytes() -> (r: Vec<u8>)
    ensures
        r@ == spec_dev_true(),
{
    let mut v: Vec<u8> = Vec::new();
    v.push(105);
    v.push(115);
    v.push(95);
    v.push(100);
    v.push(101);
    v.push(118);
    v.push(95);
    v.push(111);
    v.push(110);
    v.push(108);
    v.push(121);
    v.push(61);
    v.push(34);
    v.push(116);
    v.push(114);
    v.push(117);
    v.push(101);
    v.push(34);
    proof {
        assert(v@ =~= spec_dev_true());
    }
    v
}

fn dev_false_bytes() -> (r: Vec<u8>)
    ensures
        r@ == spec_dev_false(),
{
    let mut v: Vec<u8> = Vec::new();
    v.push(105);
    v.push(115);
    v.push(95);
    v.push(100);
    v.push(101);
    v.push(118);
    v.push(95);
    v.push(111);
    v.push(110);
    v.push(108);
    v.push(121);
    v.push(61);
    v.push(34);
    v.push(102);
    v.push(97);
    v.push(108);
    v.push(115);
    v.push(101);
    v.push(34);
    proof {
        assert(v@ =~= spec_dev_false());
    }
    v
}

fn dev_marker_bytes() -> (r: Vec<u8>)
    ensures
        r@ == spec_dev_only_marker(),
{
    let mut v: Vec<u8> = Vec::new();
    v.push(105);
    v.push(115);
    v.push(95);
    v.push(100);
    v.push(101);
    v.push(118);
    v.push(95);
    v.push(111);
    v.push(110);
    v.push(108);
    v.push(121);
    proof {
        assert(v@ =~= spec_dev_only_marker());
    }
    v
}

fn visible_false_bytes() -> (r: Vec<u8>)
    ensures
        r@ == spec_visible_false(),
{
    let mut v: Vec<u8> = Vec::new();
    v.push(118);
    v.push(105);
    v.push(115);
    v.push(105);
    v.push(98);
    v.push(108);
    v.push(101);
    v.push(61);
    v.push(34);
    v.push(102);
    v.push(97);
    v.push(108);
    v.push(115);
    v.push(101);
    v.push(34);
    proof {
        assert(v@ =~= spec_visible_false());
    }
    v
}

fn visible_true_bytes() -> (r: Vec<u8>)
    ensures
        r@ == spec_visible_true(),
{
    let mut v: Vec<u8> = Vec::new();
    v.push(118);
    v.push(105);
    v.push(115);
    v.push(105);
    v.push(98);
    v.push(108);
    v.push(101);
    v.push(61);
    v.push(34);
    v.push(116);
    v.push(114);
    v.push(117);
    v.push(101);
    v.push(34);
    proof {
        assert(v@ =~= spec_visible_true());
    }
    v
}

fn run_cli_bytes() -> (r: Vec<u8>)
    ensures
        r@ == spec_run_cli(),
{
    let mut v: Vec<u8> = Vec::new();
    v.push(82);
    v.push(117);
    v.push(110);
    v.push(67);
    v.push(76);
    v.push(73);
    proof {
        assert(v@ =~= spec_run_cli());
    }
    v
}

fn cli_execute_bytes() -> (r: Vec<u8>)
    ensures
        r@ == spec_cli_execute(),
{
    let mut v: Vec<u8> = Vec::new();
    v.push(67);
    v.push(108);
    v.push(105);
    v.push(69);
    v.push(120);
    v.push(101);
    v.push(99);
    v.push(117);
    v.push(116);
    v.push(101);
    proof {
        assert(v@ =~= spec_cli_execute());
    }
    v
}

/// One replacement of the first occurrence of `pat` at or after `pos`.
pub open spec fn spec_replace_first_val(
    h: Seq<u8>,
    pos: nat,
    pat: Seq<u8>,
    to: Seq<u8>,
) -> Seq<u8> {
    match text::spec_find(h, pat, pos) {
        Some(j) => h.subrange(0, j as int) + to + h.skip(j + pat.len() as int),
        None => h,
    }
}

/// After each developer-only marker, the next hidden-visibility flag is
/// turned on once; the scan resumes just past the marker.
pub open spec fn spec_visible_fix(s: Seq<u8>, pos: nat) -> Seq<u8>
    decreases s.len() - pos,
{
    match text::spec_find(s, spec_dev_only_marker(), pos) {
        None => s,
        Some(i) => {
            let s2 = spec_replace_first_val(s, i, spec_visible_false(), spec_visible_true());
            if s2.len() <= s.len() && i >= pos && i + 1 <= s2.len() {
                spec_visible_fix(s2, (i + 1) as nat)
            } else {
                s
            }
        },
    }
}

fn visible_fix(s: Vec<u8>) -> (r: Vec<u8>)
    ensures
        r@ == spec_visible_fix(s@, 0),
{
    let marker = dev_marker_bytes();
    let vfalse = visible_false_bytes();
    let vtrue = visible_true_bytes();
    let ghost s0 = s@;
    let mut cur = s;
    let mut pos: usize = 0;
    loop
        invariant
            marker@.len() == 11,
            marker@ == spec_dev_only_marker(),
            vfalse@ == spec_visible_false(),
            vtrue@ == spec_visible_true(),
            spec_visible_fix(s0, 0) == spec_visible_fix(cur@, pos as nat),
            pos <= cur@.len() + 1,
        ensures
            cur@ == spec_visible_fix(s0, 0),
        decreases cur@.len() + 1 - pos,
    {
        proof {
            text::lemma_spec_find_props(cur@, spec_dev_only_marker(), pos as nat);
        }
        match text::find_from(&cur, &marker, pos) {
            None => {
                proof {
                    match text::spec_find(cur@, spec_dev_only_marker(), pos as nat) {
                        Some(k) => {
                            assert(text::occurs_at(cur@, spec_dev_only_marker(), k as int));
                        },
                        None => {},
                    }
                }
                break ;
            },
            Some(i) => {
                let cl = cur.len();
                proof {
                    assert(i + marker@.len() <= cl);
                    match text::spec_find(cur@, spec_dev_only_marker(), pos as nat) {
                        Some(k) => {
                            if k < i {
                                assert(text::occurs_at(cur@, spec_dev_only_marker(), k as int));
                            } else if i < k {
                                assert(!text::occurs_at(cur@, spec_dev_only_marker(), i as int));
                            }
                        },
                        None => {
                            assert(!text::occurs_at(cur@, spec_dev_only_marker(), i as int));
                        },
                    }
                }
                let next = text::replace_first_from(&cur, i, &vfalse, &vtrue);
                proof {
                    assert(next@ == spec_replace_first_val(
                        cur@,
                        i as nat,
                        spec_visible_false(),
                        spec_visible_true(),
                    ));
                    text::lemma_spec_find_props(cur@, spec_visible_false(), i as nat);
                    match text::spec_find(cur@, spec_visible_false(), i as nat) {
                        Some(j) => {
                            assert(next@.len() == cur@.len() - 1);
                        },
                        None => {
                            assert(next@.len() == cur@.len());
                        },
                    }
                    assert(i + spec_dev_only_marker().len() <= cur@.len());
                    assert(i + 1 <= next@.len());
                    assert(spec_visible_fix(cur@, pos as nat) == spec_visible_fix(
                        next@,
                        (i + 1) as nat,
                    ));
                }
                cur = next;
                pos = i + 1;
            },
        }
    }
    cur
}

/// The whole developer-UI rewrite of one text file: files without the
/// developer-only marker are left alone; in the rest the marker is
/// flipped, the command hook renamed, and the hidden-visibility flags
/// after each marker turned on.
pub open spec fn spec_patch_ui_text(b: Seq<u8>) -> Option<Seq<u8>> {
    if text::spec_find(b, spec_dev_true(), 0) is Some {
        Some(
            spec_visible_fix(
                text::spec_replace_all(
                    text::spec_replace_all(b, spec_dev_true(), spec_dev_false()),
                    spec_run_cli(),
                    spec_cli_execute(),
                ),
                0,
            ),
        )
    } else {
        None
    }
}

pub fn patch_ui_text(b: &Vec<u8>) -> (r: Option<Vec<u8>>)
    ensures
        match r {
            Some(out) => spec_patch_ui_text(b@) == Some(out@),
            None => spec_patch_ui_text(b@) is None,
        },
{
    let dev_true = dev_true_bytes();
    let dev_false = dev_false_bytes();
    let run_cli = run_cli_bytes();
    let cli_execute = cli_execute_bytes();
    proof {
        text::lemma_spec_find_props(b@, spec_dev_true(), 0);
    }
    match text::find_from(b, &dev_true, 0) {
        None => {
            proof {
                match text::spec_find(b@, spec_dev_true(), 0) {
                    Some(k) => {
                        assert(text::occurs_at(b@, spec_dev_true(), k as int));
                    },
                    None => {},
                }
            }
            None
        },
        Some(_) => {
            proof {
                match text::spec_find(b@, spec_dev_true(), 0) {
                    Some(_) => {},
                    None => {},
                }
            }
            let step1 = text::replace_all(b, &dev_true, &dev_false);
            let step2 = text::replace_all(&step1, &run_cli, &cli_execute);
            let fixed = visible_fix(step2);
            Some(fixed)
        },
    }
}

/// The records the developer-UI pass writes: every text record under the
/// UI prefix that carries the marker, rewritten, in collected order.
pub open spec fn spec_dev_ui_records(records: Seq<RecordV>) -> Seq<RecordV>
    decreases records.len(),
{
    if records.len() == 0 {
        Seq::empty()
    } else {
        let rest = spec_dev_ui_records(records.drop_last());
        let r0 = records.last();
        if r0.data matches RecordDataV::Opaque(b) && text::spec_starts_with(
            r0.path,
            spec_ui_prefix(),
        ) && spec_patch_ui_text(r0.data->Opaque_0) is Some {
            rest.push(
                RecordV {
                    path: r0.path,
                    data: RecordDataV::Opaque(spec_patch_ui_text(r0.data->Opaque_0)->Some_0),
                },
            )
        } else {
            rest
        }
    }
}

/// `ui/` as bytes.
pub open spec fn spec_ui_prefix() -> Seq<u8> {
    seq![117u8, 105u8, 47u8]
}

/// Rewrites every marked UI text record of one source archive into the
/// override archive.
pub fn patch_ui_records(reserved_pack: &mut Archive, source: &Archive)
    requires
        old(reserved_pack).wf(),
    ensures
        final(reserved_pack).wf(),
        final(reserved_pack).deep_view() == spec_insert_all(
            old(reserved_pack).deep_view(),
            spec_dev_ui_records(source.deep_view().records),
        ),
{
    let mut prefix: Vec<u8> = Vec::new();
    prefix.push(117);
    prefix.push(105);
    prefix.push(47);
    proof {
        assert(prefix@ =~= spec_ui_prefix());
    }
    let ghost rv = source.deep_view().records;
    let n = source.records.len();
    let mut i: usize = 0;
    let ghost mut written: Seq<RecordV> = Seq::empty();
    proof {
        assert(rv.take(0) =~= Seq::<RecordV>::empty());
        assert(spec_dev_ui_records(rv.take(0)) =~= Seq::<RecordV>::empty());
        assert(crate::archive::spec_insert_all(
            old(reserved_pack).deep_view(),
            Seq::<RecordV>::empty(),
        ) == old(reserved_pack).deep_view());
    }
    while i < n
        invariant
            n == source.records@.len(),
            rv == source.deep_view().records,
            rv.len() == n,
            i <= n,
            prefix@ == spec_ui_prefix(),
            reserved_pack.wf(),
            written == spec_dev_ui_records(rv.take(i as int)),
            reserved_pack.deep_view() == spec_insert_all(old(reserved_pack).deep_view(), written),
        decreases n - i,
    {
        proof {
            assert(rv.take(i + 1).drop_last() =~= rv.take(i as int));
            assert(rv.take(i + 1).last() == rv[i as int]);
            assert(source.records@[i as int].deep_view() == rv[i as int]);
        }
        let rec = &source.records[i];
        let eligible = match &rec.data {
            RecordData::Opaque(_) => text::starts_with(&rec.path, &prefix),
            _ => false,
        };
        if eligible {
            match &rec.data {
                RecordData::Opaque(b) => {
                    match patch_ui_text(b) {
                        Some(patched) => {
                            let new_rec = Record {
                                path: rec.path.clone(),
                                data: RecordData::Opaque(patched),
                            };
                            proof {
                                assert(new_rec.deep_view() == RecordV {
                                    path: rv[i as int].path,
                                    data: RecordDataV::Opaque(
                                        spec_patch_ui_text(
                                            rv[i as int].data->Opaque_0,
                                        )->Some_0,
                                    ),
                                });
                            }
                            let ghost w0 = written;
                            reserved_pack.insert(new_rec);
                            proof {
                                written = w0.push(
                                    RecordV {
                                        path: rv[i as int].path,
                                        data: RecordDataV::Opaque(
                                            spec_patch_ui_text(
                                                rv[i as int].data->Opaque_0,
                                            )->Some_0,
                                        ),
                                    },
                                );
                                crate::archive::lemma_insert_all_snoc(
                                    old(reserved_pack).deep_view(),
                                    w0,
                                    written.last(),
                                );
                                assert(written =~= spec_dev_ui_records(rv.take(i + 1)));
                            }
                        },
                        None => {
                            proof {
                                assert(written =~= spec_dev_ui_records(rv.take(i + 1)));
                            }
                        },
                    }
                },
                _ => {
                    proof {
                        assert(false);
                    }
                },
            }
        } else {
            proof {
                assert(written =~= spec_dev_ui_records(rv.take(i + 1)));
            }
        }
        i += 1;
    }
    proof {
        assert(rv.take(n as int) =~= rv);
    }
}

/// The override archive after the developer-UI pass: the three layers'
/// rewritten UI files written in priority order (base, mods, override),
/// later layers overriding earlier rewrites at the same path.
pub open spec fn spec_dev_ui_effect(
    enable: bool,
    vanilla: ArchiveV,
    modded: ArchiveV,
    a: ArchiveV,
) -> ArchiveV {
    if !enable {
        a
    } else {
        spec_insert_all(
            spec_insert_all(
                spec_insert_all(a, spec_dev_ui_records(vanilla.records)),
                spec_dev_ui_records(modded.records),
            ),
            spec_dev_ui_records(a.records),
        )
    }
}

/// The developer-UI pass: the three layers' UI text files are rewritten
/// in priority order (base, mods, override), later layers overriding
/// earlier rewrites at the same path.
pub fn prepare_dev_ui(
    enable: bool,
    reserved_pack: &mut Archive,
    vanilla_pack: &Archive,
    modded_pack: &Archive,
)
    requires
        old(reserved_pack).wf(),
    ensures
        final(reserved_pack).wf(),
        final(reserved_pack).deep_view() == spec_dev_ui_effect(
            enable,
            vanilla_pack.deep_view(),
            modded_pack.deep_view(),
            old(reserved_pack).deep_view(),
        ),
{
    if enable {
        // The override archive's own UI records are rewritten from a
        // snapshot taken before this pass writes into it.
        let ghost before = reserved_pack.deep_view();
        let snapshot = snapshot_records(reserved_pack);
        patch_ui_records(reserved_pack, vanilla_pack);
        patch_ui_records(reserved_pack, modded_pack);
        patch_ui_records(reserved_pack, &snapshot);
        proof {
            assert(snapshot.deep_view().records == before.records);
        }
    }
}

/// A copy of an archive, taken so a pass can read the override archive
/// while writing into it.
fn snapshot_records(a: &Archive) -> (r: Archive)
    ensures
        r.deep_view() == a.deep_view(),
        a.wf() ==> r.wf(),
{
    let n = a.records.len();
    let mut records: Vec<Record> = Vec::new();
    let mut i: usize = 0;
    while i < n
        invariant
            n == a.records@.len(),
            i <= n,
            records@.len() == i,
            forall|j: int|
                0 <= j < i ==> (#[trigger] records@[j]).deep_view() == a.records@[j].deep_view(),
        decreases n - i,
    {
        records.push(crate::archive::clone_record(&a.records[i]));
        i += 1;
    }
    let r = Archive { name: a.name.clone(), kind: a.kind, records };
    proof {
        assert(r.deep_view().records =~~= a.deep_view().records);
        assert(r.deep_view().name == a.deep_view().name);
        assert(r.deep_view().kind == a.deep_view().kind);
        assert(r.deep_view() == a.deep_view());
        if a.wf() {
            assert forall|x: int, y: int|
                0 <= x < y < r.records@.len() implies (#[trigger] r.records@[x]).path@ != (
            #[trigger] r.records@[y]).path@ by {
                assert(r.records@[x].deep_view() == a.records@[x].deep_view());
                assert(r.records@[y].deep_view() == a.records@[y].deep_view());
            }
        }
    }
    r
}

} // verus!
