//! The translation merge engine.
//!
//! One invocation per selected language reconciles per-string overrides
//! across the priority-ordered archive stack and a community translation
//! corpus, optimizes away rows redundant with the vanilla reference, and
//! backfills the keys the optimization lost.
//!
//! Every row list is eventually flattened first-occurrence-wins, so each
//! step places higher-priority rows earlier in the assembled list.

use vstd::prelude::*;

use crate::archive::Archive;
use crate::archive::Record;
use crate::archive::RecordData;
use crate::loc::LocEntry;
use crate::loc::LocTable;
use crate::loc::append_entries;
use crate::loc::clone_entry;
use crate::text;

verus! {

use crate::archive::ArchiveV;
use crate::archive::RecordV;
use crate::archive::RecordDataV;
use crate::loc::LocEntryV;
use crate::loc::spec_lookup;
use vstd::string::StringSliceAdditionalSpecFns;

/// One corpus row: a key with its source text and its translation.
#[derive(Debug)]
pub struct TranslationUnit {
    pub key: Vec<u8>,
    pub value_original: Vec<u8>,
    pub value_translated: Vec<u8>,
    pub needs_retranslation: bool,
}

/// Ghost value of a translation unit.
pub struct TranslationUnitV {
    pub key: Seq<u8>,
    pub value_original: Seq<u8>,
    pub value_translated: Seq<u8>,
    pub needs_retranslation: bool,
}

impl DeepView for TranslationUnit {
    type V = TranslationUnitV;

    open spec fn deep_view(&self) -> TranslationUnitV {
        TranslationUnitV {
            key: self.key@,
            value_original: self.value_original@,
            value_translated: self.value_translated@,
            needs_retranslation: self.needs_retranslation,
        }
    }
}

/// What the engine has for one archive of the stack: a prebuilt corpus
/// translation, or the archive itself, whose own localization tables are
/// then merged directly.
#[derive(Debug)]
pub enum PackTranslationInput {
    Units(Vec<TranslationUnit>),
    Pack(Archive),
}

/// Ghost value of a per-archive input.
pub enum PackTranslationInputV {
    Units(Seq<TranslationUnitV>),
    Pack(ArchiveV),
}

impl DeepView for PackTranslationInput {
    type V = PackTranslationInputV;

    open spec fn deep_view(&self) -> PackTranslationInputV {
        match self {
            PackTranslationInput::Units(us) => PackTranslationInputV::Units(us.deep_view()),
            PackTranslationInput::Pack(a) => PackTranslationInputV::Pack(a.deep_view()),
        }
    }
}

/// Rows emitted for one corpus translation: the translated value when it
/// is present and current; for legacy-format titles also the original
/// value when no usable translation exists.
pub open spec fn spec_rows_from_units(us: Seq<TranslationUnitV>, legacy: bool) -> Seq<LocEntryV>
    decreases us.len(),
{
    if us.len() == 0 {
        Seq::empty()
    } else {
        let u = us[0];
        let rest = spec_rows_from_units(us.skip(1), legacy);
        if u.value_translated.len() > 0 && !u.needs_retranslation {
            seq![LocEntryV { key: u.key, value: u.value_translated, flag: false }] + rest
        } else if legacy && u.value_original.len() > 0 {
            seq![LocEntryV { key: u.key, value: u.value_original, flag: false }] + rest
        } else {
            rest
        }
    }
}

pub fn rows_from_units(us: &Vec<TranslationUnit>, legacy: bool) -> (r: Vec<LocEntry>)
    ensures
        r.deep_view() == spec_rows_from_units(us.deep_view(), legacy),
{
    let ghost uv = us.deep_view();
    let n = us.len();
    let mut out: Vec<LocEntry> = Vec::new();
    let mut i: usize = 0;
    proof {
        assert(uv.skip(0) =~= uv);
        assert(Seq::<LocEntryV>::empty() + spec_rows_from_units(uv, legacy)
            =~= spec_rows_from_units(uv, legacy));
    }
    while i < n
        invariant
            n == us@.len(),
            uv == us.deep_view(),
            uv.len() == n,
            i <= n,
            spec_rows_from_units(uv, legacy) == out.deep_view() + spec_rows_from_units(
                uv.skip(i as int),
                legacy,
            ),
        decreases n - i,
    {
        let ghost s = uv.skip(i as int);
        proof {
            assert(s[0] == uv[i as int]);
            assert(s.skip(1) =~= uv.skip(i + 1));
        }
        let u = &us[i];
        proof {
            assert(u.deep_view() == uv[i as int]);
        }
        let ghost out0 = out.deep_view();
        if u.value_translated.len() > 0 && !u.needs_retranslation {
            out.push(
                LocEntry { key: u.key.clone(), value: u.value_translated.clone(), flag: false },
            );
            proof {
                let e = LocEntryV { key: s[0].key, value: s[0].value_translated, flag: false };
                assert(out.deep_view() =~= out0.push(e));
                assert(out0 + (seq![e] + spec_rows_from_units(s.skip(1), legacy)) =~= out0.push(e)
                    + spec_rows_from_units(uv.skip(i + 1), legacy));
            }
        } else if legacy && u.value_original.len() > 0 {
            out.push(LocEntry { key: u.key.clone(), value: u.value_original.clone(), flag: false });
            proof {
                let e = LocEntryV { key: s[0].key, value: s[0].value_original, flag: false };
                assert(out.deep_view() =~= out0.push(e));
                assert(out0 + (seq![e] + spec_rows_from_units(s.skip(1), legacy)) =~= out0.push(e)
                    + spec_rows_from_units(uv.skip(i + 1), legacy));
            }
        }
        i += 1;
    }
    proof {
        assert(uv.skip(n as int) =~= Seq::<TranslationUnitV>::empty());
        assert(out.deep_view() + Seq::<LocEntryV>::empty() =~= out.deep_view());
    }
    out
}

/// The first row with the key, cloned.
pub fn lookup_first(rows: &Vec<LocEntry>, key: &Vec<u8>) -> (r: Option<LocEntry>)
    ensures
        match r {
            Some(e) => spec_lookup(rows.deep_view(), key@) == Some(e.deep_view()),
            None => spec_lookup(rows.deep_view(), key@) is None,
        },
{
    let ghost rv = rows.deep_view();
    let n = rows.len();
    let mut i: usize = 0;
    proof {
        assert(rv.skip(0) =~= rv);
    }
    while i < n
        invariant
            n == rows@.len(),
            rv == rows.deep_view(),
            rv.len() == n,
            i <= n,
            spec_lookup(rv, key@) == spec_lookup(rv.skip(i as int), key@),
        decreases n - i,
    {
        proof {
            assert(rv.skip(i as int)[0] == rv[i as int]);
            assert(rv.skip(i as int).skip(1) =~= rv.skip(i + 1));
        }
        if text::bytes_eq(&rows[i].key, key) {
            proof {
                assert(rows@[i as int].deep_view() == rv[i as int]);
            }
            return Some(clone_entry(&rows[i]));
        }
        i += 1;
    }
    proof {
        assert(rv.skip(n as int) =~= Seq::<LocEntryV>::empty());
    }
    None
}

/// The last row with the key, cloned: the last-observed value wins.
pub open spec fn spec_lookup_last(rows: Seq<LocEntryV>, key: Seq<u8>) -> Option<LocEntryV>
    decreases rows.len(),
{
    if rows.len() == 0 {
        None
    } else if rows[rows.len() - 1].key == key {
        Some(rows[rows.len() - 1])
    } else {
        spec_lookup_last(rows.drop_last(), key)
    }
}

pub fn lookup_last(rows: &Vec<LocEntry>, key: &Vec<u8>) -> (r: Option<LocEntry>)
    ensures
        match r {
            Some(e) => spec_lookup_last(rows.deep_view(), key@) == Some(e.deep_view()),
            None => spec_lookup_last(rows.deep_view(), key@) is None,
        },
{
    let ghost rv = rows.deep_view();
    let n = rows.len();
    let mut i: usize = n;
    proof {
        assert(rv.take(n as int) =~= rv);
    }
    while i > 0
        invariant
            n == rows@.len(),
            rv == rows.deep_view(),
            rv.len() == n,
            i <= n,
            spec_lookup_last(rv, key@) == spec_lookup_last(rv.take(i as int), key@),
        decreases i,
    {
        i -= 1;
        proof {
            assert(rv.take(i + 1)[i as int] == rv[i as int]);
            assert(rv.take(i + 1).drop_last() =~= rv.take(i as int));
        }
        if text::bytes_eq(&rows[i].key, key) {
            proof {
                assert(rows@[i as int].deep_view() == rv[i as int]);
            }
            return Some(clone_entry(&rows[i]));
        }
    }
    proof {
        assert(rv.take(0) =~= Seq::<LocEntryV>::empty());
    }
    None
}

/// A row is redundant when the reference table holds the same value for
/// its key.
pub open spec fn spec_redundant(e: LocEntryV, vanilla: Seq<LocEntryV>) -> bool {
    match spec_lookup(vanilla, e.key) {
        Some(v) => v.value == e.value,
        None => false,
    }
}

/// The optimize pass: drops accumulated rows whose value is redundant
/// with the vanilla reference table, keeping order.
pub open spec fn spec_optimize(rows: Seq<LocEntryV>, vanilla: Seq<LocEntryV>) -> Seq<LocEntryV>
    decreases rows.len(),
{
    if rows.len() == 0 {
        Seq::empty()
    } else if spec_redundant(rows[0], vanilla) {
        spec_optimize(rows.skip(1), vanilla)
    } else {
        seq![rows[0]] + spec_optimize(rows.skip(1), vanilla)
    }
}

pub fn optimize(rows: &Vec<LocEntry>, vanilla: &Vec<LocEntry>) -> (r: Vec<LocEntry>)
    ensures
        r.deep_view() == spec_optimize(rows.deep_view(), vanilla.deep_view()),
{
    let ghost rv = rows.deep_view();
    let ghost vv = vanilla.deep_view();
    let n = rows.len();
    let mut out: Vec<LocEntry> = Vec::new();
    let mut i: usize = 0;
    proof {
        assert(rv.skip(0) =~= rv);
        assert(Seq::<LocEntryV>::empty() + spec_optimize(rv, vv) =~= spec_optimize(rv, vv));
    }
    while i < n
        invariant
            n == rows@.len(),
            rv == rows.deep_view(),
            vv == vanilla.deep_view(),
            rv.len() == n,
            i <= n,
            spec_optimize(rv, vv) == out.deep_view() + spec_optimize(rv.skip(i as int), vv),
        decreases n - i,
    {
        let ghost s = rv.skip(i as int);
        proof {
            assert(s[0] == rv[i as int]);
            assert(s.skip(1) =~= rv.skip(i + 1));
        }
        let e = &rows[i];
        proof {
            assert(e.deep_view() == rv[i as int]);
        }
        let redundant = match lookup_first(vanilla, &e.key) {
            Some(v) => text::bytes_eq(&v.value, &e.value),
            None => false,
        };
        proof {
            assert(redundant == spec_redundant(rv[i as int], vv));
        }
        if !redundant {
            let ghost out0 = out.deep_view();
            out.push(clone_entry(e));
            proof {
                assert(out.deep_view() =~= out0.push(rv[i as int]));
                assert(out0 + (seq![s[0]] + spec_optimize(s.skip(1), vv)) =~= out0.push(
                    rv[i as int],
                ) + spec_optimize(rv.skip(i + 1), vv));
            }
        }
        i += 1;
    }
    proof {
        assert(rv.skip(n as int) =~= Seq::<LocEntryV>::empty());
        assert(out.deep_view() + Seq::<LocEntryV>::empty() =~= out.deep_view());
    }
    out
}

/// The fixed text-resource path prefix under which an archive's own
/// localization tables live.
pub open spec fn spec_text_prefix() -> Seq<u8> {
    "text/".spec_bytes()
}

pub fn text_prefix() -> (r: Vec<u8>)
    ensures
        r@ == spec_text_prefix(),
{
    text::bytes_of("text/")
}

/// Whether a record is a localization table under the text prefix.
pub open spec fn is_loc_under_text(r: RecordV) -> bool {
    r.data is Loc && text::spec_starts_with(r.path, spec_text_prefix())
}

/// The localization records under the text prefix, in archive order.
pub open spec fn spec_locs_under_text(records: Seq<RecordV>) -> Seq<RecordV>
    decreases records.len(),
{
    if records.len() == 0 {
        Seq::empty()
    } else if is_loc_under_text(records[0]) {
        seq![records[0]] + spec_locs_under_text(records.skip(1))
    } else {
        spec_locs_under_text(records.skip(1))
    }
}

/// The rows of a localization record; empty for any other record.
pub open spec fn loc_entries_of(r: RecordV) -> Seq<LocEntryV> {
    match r.data {
        RecordDataV::Loc(es) => es,
        _ => Seq::empty(),
    }
}

/// The paths of a record list.
pub open spec fn paths_of(records: Seq<RecordV>) -> Seq<Seq<u8>> {
    records.map_values(|r: RecordV| r.path)
}

/// Concatenation of the rows of the records selected by a position list.
pub open spec fn spec_concat_by_perm(locs: Seq<RecordV>, perm: Seq<usize>) -> Seq<LocEntryV>
    decreases perm.len(),
{
    if perm.len() == 0 {
        Seq::empty()
    } else {
        loc_entries_of(locs[perm[0] as int]) + spec_concat_by_perm(locs, perm.skip(1))
    }
}

proof fn lemma_concat_by_perm_snoc(locs: Seq<RecordV>, perm: Seq<usize>, x: usize)
    ensures
        spec_concat_by_perm(locs, perm.push(x)) == spec_concat_by_perm(locs, perm)
            + loc_entries_of(locs[x as int]),
    decreases perm.len(),
{
    if perm.len() == 0 {
        assert(perm.push(x).skip(1) =~= Seq::<usize>::empty());
        assert(perm.push(x)[0] == x);
        assert(spec_concat_by_perm(locs, Seq::<usize>::empty()) == Seq::<LocEntryV>::empty());
        assert(spec_concat_by_perm(locs, perm.push(x)) == loc_entries_of(locs[x as int])
            + Seq::<LocEntryV>::empty());
        assert(loc_entries_of(locs[x as int]) + Seq::<LocEntryV>::empty() =~= loc_entries_of(
            locs[x as int],
        ));
        assert(Seq::<LocEntryV>::empty() + loc_entries_of(locs[x as int]) =~= loc_entries_of(
            locs[x as int],
        ));
    } else {
        assert(perm.push(x).skip(1) =~= perm.skip(1).push(x));
        lemma_concat_by_perm_snoc(locs, perm.skip(1), x);
        assert(perm.push(x)[0] == perm[0]);
        assert(loc_entries_of(locs[perm[0] as int]) + (spec_concat_by_perm(locs, perm.skip(1))
            + loc_entries_of(locs[x as int])) =~= (loc_entries_of(locs[perm[0] as int])
            + spec_concat_by_perm(locs, perm.skip(1))) + loc_entries_of(locs[x as int]));
    }
}

/// An archive's own localization rows: its localization tables under the
/// text prefix, in a stable ascending sort by path, rows concatenated.
pub open spec fn spec_pack_loc_rows(records: Seq<RecordV>) -> Seq<LocEntryV> {
    let locs = spec_locs_under_text(records);
    spec_concat_by_perm(locs, text::spec_sort_idx(paths_of(locs), locs.len() as int))
}

/// Collects an archive's own localization rows.
pub fn collect_pack_loc_rows(archive: &Archive) -> (r: Vec<LocEntry>)
    ensures
        r.deep_view() == spec_pack_loc_rows(archive.deep_view().records),
{
    let ghost rv = archive.deep_view().records;
    let prefix = text_prefix();
    // Select the localization records under the text prefix.
    let n = archive.records.len();
    let mut locs: Vec<Record> = Vec::new();
    let mut i: usize = 0;
    proof {
        assert(rv.skip(0) =~= rv);
        assert(Seq::<RecordV>::empty() + spec_locs_under_text(rv) =~= spec_locs_under_text(rv));
    }
    while i < n
        invariant
            n == archive.records@.len(),
            rv == archive.deep_view().records,
            rv.len() == n,
            i <= n,
            prefix@ == spec_text_prefix(),
            spec_locs_under_text(rv) == locs.deep_view() + spec_locs_under_text(rv.skip(i as int)),
        decreases n - i,
    {
        let ghost s = rv.skip(i as int);
        proof {
            assert(s[0] == rv[i as int]);
            assert(s.skip(1) =~= rv.skip(i + 1));
        }
        let rec = &archive.records[i];
        let keep = match &rec.data {
            RecordData::Loc(_) => text::starts_with(&rec.path, &prefix),
            _ => false,
        };
        proof {
            assert(rec.deep_view() == rv[i as int]);
            assert(keep == is_loc_under_text(rv[i as int]));
        }
        if keep {
            let ghost locs0 = locs.deep_view();
            locs.push(crate::archive::clone_record(rec));
            proof {
                assert(locs.deep_view() =~= locs0.push(rv[i as int]));
                assert(locs0 + (seq![s[0]] + spec_locs_under_text(s.skip(1))) =~= locs0.push(
                    rv[i as int],
                ) + spec_locs_under_text(rv.skip(i + 1)));
            }
        }
        i += 1;
    }
    proof {
        assert(rv.skip(n as int) =~= Seq::<RecordV>::empty());
        assert(locs.deep_view() + Seq::<RecordV>::empty() =~= locs.deep_view());
    }
    let ghost lv = locs.deep_view();
    // Sort by path.
    let m = locs.len();
    let mut paths: Vec<Vec<u8>> = Vec::new();
    let mut k: usize = 0;
    while k < m
        invariant
            m == locs@.len(),
            lv == locs.deep_view(),
            lv.len() == m,
            k <= m,
            paths@.len() == k,
            forall|j: int| 0 <= j < k ==> (#[trigger] paths@[j])@ == lv[j].path,
        decreases m - k,
    {
        paths.push(locs[k].path.clone());
        k += 1;
    }
    proof {
        assert(paths.deep_view() =~~= paths_of(lv));
        assert(paths@.len() == lv.len());
    }
    let perm = text::sort_indices(&paths);
    let ghost pv = perm@;
    // Concatenate rows in sorted order.
    let mut out: Vec<LocEntry> = Vec::new();
    let pn = perm.len();
    let mut t: usize = 0;
    proof {
        assert(pv.take(0) =~= Seq::<usize>::empty());
    }
    while t < pn
        invariant
            pn == perm@.len(),
            pv == perm@,
            lv == locs.deep_view(),
            lv.len() == locs@.len(),
            forall|j: int| 0 <= j < pv.len() ==> (#[trigger] pv[j]) < locs@.len(),
            t <= pn,
            out.deep_view() == spec_concat_by_perm(lv, pv.take(t as int)),
        decreases pn - t,
    {
        let idx = perm[t];
        let rec = &locs[idx];
        proof {
            assert(rec.deep_view() == lv[idx as int]);
        }
        match &rec.data {
            RecordData::Loc(l) => {
                append_entries(&mut out, &l.entries);
                proof {
                    assert(l.entries.deep_view() == loc_entries_of(lv[idx as int]));
                }
            },
            _ => {
                proof {
                    assert(loc_entries_of(lv[idx as int]) =~= Seq::<LocEntryV>::empty());
                    assert(out.deep_view() + Seq::<LocEntryV>::empty() =~= out.deep_view());
                }
            },
        }
        proof {
            assert(pv.take(t + 1) =~= pv.take(t as int).push(pv[t as int]));
            lemma_concat_by_perm_snoc(lv, pv.take(t as int), pv[t as int]);
        }
        t += 1;
    }
    proof {
        assert(pv.take(pn as int) =~= pv);
        assert(paths.deep_view() =~~= paths_of(lv));
        assert(pv == text::spec_sort_idx(paths_of(lv), lv.len() as int));
    }
    out
}


/// The restoration row for one lost key: the installed game's own,
/// last-observed value when it has one, else the pristine reference value.
pub open spec fn spec_restore_row(
    k: Seq<u8>,
    installed: Seq<LocEntryV>,
    vanilla: Seq<LocEntryV>,
) -> Option<LocEntryV> {
    match spec_lookup_last(installed, k) {
        Some(e) => Some(LocEntryV { key: k, value: e.value, flag: false }),
        None => match spec_lookup(vanilla, k) {
            Some(v) => Some(LocEntryV { key: k, value: v.value, flag: false }),
            None => None,
        },
    }
}

/// The vanilla backfill for modern titles: for each key of `pre` (first
/// occurrences, in order) that the optimize pass lost, one restoration
/// row.
pub open spec fn spec_restore(
    pre: Seq<LocEntryV>,
    post: Seq<LocEntryV>,
    installed: Seq<LocEntryV>,
    vanilla: Seq<LocEntryV>,
    seen: Set<Seq<u8>>,
) -> Seq<LocEntryV>
    decreases pre.len(),
{
    if pre.len() == 0 {
        Seq::empty()
    } else {
        let k = pre[0].key;
        let rest = spec_restore(pre.skip(1), post, installed, vanilla, seen.insert(k));
        if !seen.contains(k) && spec_lookup(post, k) is None {
            match spec_restore_row(k, installed, vanilla) {
                Some(row) => seq![row] + rest,
                None => rest,
            }
        } else {
            rest
        }
    }
}

pub fn restore(
    pre: &Vec<LocEntry>,
    post: &Vec<LocEntry>,
    installed: &Vec<LocEntry>,
    vanilla: &Vec<LocEntry>,
) -> (r: Vec<LocEntry>)
    ensures
        r.deep_view() == spec_restore(
            pre.deep_view(),
            post.deep_view(),
            installed.deep_view(),
            vanilla.deep_view(),
            Set::empty(),
        ),
{
    let ghost pv = pre.deep_view();
    let ghost postv = post.deep_view();
    let ghost iv = installed.deep_view();
    let ghost vv = vanilla.deep_view();
    let n = pre.len();
    let mut out: Vec<LocEntry> = Vec::new();
    let mut seen: Vec<Vec<u8>> = Vec::new();
    let mut i: usize = 0;
    proof {
        assert(pv.skip(0) =~= pv);
        assert(crate::loc::seen_set(seen@) =~= Set::<Seq<u8>>::empty());
        assert(Seq::<LocEntryV>::empty() + spec_restore(pv, postv, iv, vv, Set::empty())
            =~= spec_restore(pv, postv, iv, vv, Set::empty()));
    }
    while i < n
        invariant
            n == pre@.len(),
            pv == pre.deep_view(),
            postv == post.deep_view(),
            iv == installed.deep_view(),
            vv == vanilla.deep_view(),
            pv.len() == n,
            i <= n,
            spec_restore(pv, postv, iv, vv, Set::empty()) == out.deep_view() + spec_restore(
                pv.skip(i as int),
                postv,
                iv,
                vv,
                crate::loc::seen_set(seen@),
            ),
        decreases n - i,
    {
        let ghost seen0 = crate::loc::seen_set(seen@);
        let ghost s = pv.skip(i as int);
        proof {
            assert(s[0] == pv[i as int]);
            assert(s.skip(1) =~= pv.skip(i + 1));
        }
        let e = &pre[i];
        proof {
            assert(e.deep_view() == pv[i as int]);
        }
        let ghost k = pv[i as int].key;
        let already = crate::loc::contains_key(&seen, &e.key);
        let lost = if already {
            false
        } else {
            match lookup_first(post, &e.key) {
                Some(_) => false,
                None => true,
            }
        };
        if lost {
            let row = match lookup_last(installed, &e.key) {
                Some(g) => Some(LocEntry { key: e.key.clone(), value: g.value, flag: false }),
                None => match lookup_first(vanilla, &e.key) {
                    Some(v) => Some(LocEntry { key: e.key.clone(), value: v.value, flag: false }),
                    None => None,
                },
            };
            let ghost out0 = out.deep_view();
            match row {
                Some(row) => {
                    proof {
                        assert(row.deep_view() == spec_restore_row(k, iv, vv)->Some_0);
                    }
                    out.push(row);
                    proof {
                        assert(out.deep_view() =~= out0.push(spec_restore_row(k, iv, vv)->Some_0));
                        assert(out0 + (seq![spec_restore_row(k, iv, vv)->Some_0] + spec_restore(
                            s.skip(1),
                            postv,
                            iv,
                            vv,
                            seen0.insert(k),
                        )) =~= out0.push(spec_restore_row(k, iv, vv)->Some_0) + spec_restore(
                            pv.skip(i + 1),
                            postv,
                            iv,
                            vv,
                            seen0.insert(k),
                        ));
                    }
                },
                None => {},
            }
        }
        let ghost seen_keys0 = seen@;
        let ck = e.key.clone();
        let ghost ckg = ck;
        seen.push(ck);
        proof {
            crate::loc::lemma_seen_push(seen_keys0, ckg);
            assert(crate::loc::seen_set(seen@) == seen0.insert(k));
        }
        i += 1;
    }
    proof {
        assert(pv.skip(n as int) =~= Seq::<LocEntryV>::empty());
        assert(out.deep_view() + Seq::<LocEntryV>::empty() =~= out.deep_view());
    }
    out
}


proof fn lemma_optimize_lookup_sub(pre: Seq<LocEntryV>, vanilla: Seq<LocEntryV>, k: Seq<u8>)
    requires
        spec_lookup(spec_optimize(pre, vanilla), k) is Some,
    ensures
        spec_lookup(pre, k) is Some,
    decreases pre.len(),
{
    if pre.len() > 0 {
        let post = spec_optimize(pre, vanilla);
        let rest = spec_optimize(pre.skip(1), vanilla);
        if spec_redundant(pre[0], vanilla) {
            if pre[0].key != k {
                lemma_optimize_lookup_sub(pre.skip(1), vanilla, k);
            }
        } else {
            assert(post == seq![pre[0]] + rest);
            assert(post[0] == pre[0]);
            assert(post.skip(1) =~= rest);
            if pre[0].key != k {
                lemma_optimize_lookup_sub(pre.skip(1), vanilla, k);
            }
        }
    }
}

proof fn lemma_optimize_dropped_in_vanilla(pre: Seq<LocEntryV>, vanilla: Seq<LocEntryV>, k: Seq<u8>)
    requires
        spec_lookup(pre, k) is Some,
        spec_lookup(spec_optimize(pre, vanilla), k) is None,
    ensures
        spec_lookup(vanilla, k) is Some,
    decreases pre.len(),
{
    if pre.len() > 0 {
        let post = spec_optimize(pre, vanilla);
        let rest = spec_optimize(pre.skip(1), vanilla);
        if spec_redundant(pre[0], vanilla) {
            if pre[0].key == k {
            } else {
                lemma_optimize_dropped_in_vanilla(pre.skip(1), vanilla, k);
            }
        } else {
            assert(post == seq![pre[0]] + rest);
            assert(post[0] == pre[0]);
            assert(post.skip(1) =~= rest);
            if pre[0].key == k {
                assert(spec_lookup(post, k) is Some);
            } else {
                lemma_optimize_dropped_in_vanilla(pre.skip(1), vanilla, k);
            }
        }
    }
}

proof fn lemma_restore_lookup_sub(
    pre: Seq<LocEntryV>,
    post: Seq<LocEntryV>,
    installed: Seq<LocEntryV>,
    vanilla: Seq<LocEntryV>,
    seen: Set<Seq<u8>>,
    k: Seq<u8>,
)
    requires
        spec_lookup(spec_restore(pre, post, installed, vanilla, seen), k) is Some,
    ensures
        spec_lookup(pre, k) is Some,
    decreases pre.len(),
{
    if pre.len() > 0 {
        let k0 = pre[0].key;
        let rest = spec_restore(pre.skip(1), post, installed, vanilla, seen.insert(k0));
        if !seen.contains(k0) && spec_lookup(post, k0) is None && spec_restore_row(
            k0,
            installed,
            vanilla,
        ) is Some {
            let row = spec_restore_row(k0, installed, vanilla)->Some_0;
            let whole = seq![row] + rest;
            assert(whole[0] == row);
            assert(whole.skip(1) =~= rest);
            assert(row.key == k0);
            if k != k0 {
                lemma_restore_lookup_sub(pre.skip(1), post, installed, vanilla, seen.insert(k0), k);
            }
        } else {
            if k != k0 {
                lemma_restore_lookup_sub(pre.skip(1), post, installed, vanilla, seen.insert(k0), k);
            } else {
                lemma_restore_lookup_sub(pre.skip(1), post, installed, vanilla, seen.insert(k0), k);
                assert(spec_lookup(pre, k) is Some);
            }
        }
    }
}

proof fn lemma_restore_lookup_some(
    pre: Seq<LocEntryV>,
    post: Seq<LocEntryV>,
    installed: Seq<LocEntryV>,
    vanilla: Seq<LocEntryV>,
    seen: Set<Seq<u8>>,
    k: Seq<u8>,
)
    requires
        !seen.contains(k),
        spec_lookup(pre, k) is Some,
        spec_lookup(post, k) is None,
        spec_lookup(vanilla, k) is Some,
    ensures
        spec_lookup(spec_restore(pre, post, installed, vanilla, seen), k) is Some,
    decreases pre.len(),
{
    if pre.len() > 0 {
        let k0 = pre[0].key;
        let rest = spec_restore(pre.skip(1), post, installed, vanilla, seen.insert(k0));
        if k0 == k {
            assert(spec_restore_row(k, installed, vanilla) is Some);
            let row = spec_restore_row(k, installed, vanilla)->Some_0;
            let whole = seq![row] + rest;
            assert(whole[0] == row && row.key == k);
        } else {
            lemma_restore_lookup_some(
                pre.skip(1),
                post,
                installed,
                vanilla,
                seen.insert(k0),
                k,
            );
            if !seen.contains(k0) && spec_lookup(post, k0) is None && spec_restore_row(
                k0,
                installed,
                vanilla,
            ) is Some {
                let row = spec_restore_row(k0, installed, vanilla)->Some_0;
                let whole = seq![row] + rest;
                assert(whole[0] == row);
                assert(whole.skip(1) =~= rest);
                assert(row.key == k0);
            }
        }
    }
}

/// The key set recorded before the optimize pass equals the key set after
/// the vanilla backfill: every key the optimization lost is restored,
/// from the installed game's tables or from the reference table.
pub proof fn lemma_optimize_backfill_preserves_keys(
    pre: Seq<LocEntryV>,
    installed: Seq<LocEntryV>,
    vanilla: Seq<LocEntryV>,
)
    ensures
        crate::loc::keys_of(
            spec_optimize(pre, vanilla) + spec_restore(
                pre,
                spec_optimize(pre, vanilla),
                installed,
                vanilla,
                Set::empty(),
            ),
        ) == crate::loc::keys_of(pre),
{
    let post = spec_optimize(pre, vanilla);
    let res = spec_restore(pre, post, installed, vanilla, Set::empty());
    assert forall|k: Seq<u8>| #[trigger] crate::loc::keys_of(post + res).contains(
        k,
    ) implies crate::loc::keys_of(pre).contains(k) by {
        crate::loc::lemma_lookup_some_iff(post + res, k);
        crate::loc::lemma_lookup_append(post, res, k);
        if spec_lookup(post, k) is Some {
            lemma_optimize_lookup_sub(pre, vanilla, k);
        } else {
            lemma_restore_lookup_sub(pre, post, installed, vanilla, Set::empty(), k);
        }
        crate::loc::lemma_lookup_some_iff(pre, k);
    }
    assert forall|k: Seq<u8>| #[trigger] crate::loc::keys_of(pre).contains(
        k,
    ) implies crate::loc::keys_of(post + res).contains(k) by {
        crate::loc::lemma_lookup_some_iff(pre, k);
        crate::loc::lemma_lookup_append(post, res, k);
        if spec_lookup(post, k) is None {
            lemma_optimize_dropped_in_vanilla(pre, vanilla, k);
            lemma_restore_lookup_some(pre, post, installed, vanilla, Set::empty(), k);
        }
        crate::loc::lemma_lookup_some_iff(post + res, k);
    }
    assert(crate::loc::keys_of(post + res) =~= crate::loc::keys_of(pre));
}

/// The flattened final table still carries exactly the keys recorded
/// before the optimize pass.
pub proof fn lemma_modern_final_table_keys(
    pre: Seq<LocEntryV>,
    installed: Seq<LocEntryV>,
    vanilla: Seq<LocEntryV>,
)
    ensures
        crate::loc::keys_of(
            crate::loc::spec_first_wins(
                spec_optimize(pre, vanilla) + spec_restore(
                    pre,
                    spec_optimize(pre, vanilla),
                    installed,
                    vanilla,
                    Set::empty(),
                ),
            ),
        ) == crate::loc::keys_of(pre),
{
    let combined = spec_optimize(pre, vanilla) + spec_restore(
        pre,
        spec_optimize(pre, vanilla),
        installed,
        vanilla,
        Set::empty(),
    );
    crate::loc::lemma_first_wins_keys(combined);
    lemma_optimize_backfill_preserves_keys(pre, installed, vanilla);
}

/// The legacy backfill appends the installed monolithic table after the
/// assembled rows, so no key present before it is lost.
pub proof fn lemma_legacy_backfill_keeps_keys(rows: Seq<LocEntryV>, installed: Seq<LocEntryV>)
    ensures
        crate::loc::keys_of(rows).subset_of(
            crate::loc::keys_of(crate::loc::spec_first_wins(rows + installed)),
        ),
{
    crate::loc::lemma_first_wins_keys(rows + installed);
    assert forall|k: Seq<u8>| #[trigger] crate::loc::keys_of(rows).contains(
        k,
    ) implies crate::loc::keys_of(rows + installed).contains(k) by {
        crate::loc::lemma_lookup_some_iff(rows, k);
        crate::loc::lemma_lookup_append(rows, installed, k);
        crate::loc::lemma_lookup_some_iff(rows + installed, k);
    }
}


/// The rows one archive of the stack contributes.
pub open spec fn spec_pack_rows(p: PackTranslationInputV, legacy: bool) -> Seq<LocEntryV> {
    match p {
        PackTranslationInputV::Units(us) => spec_rows_from_units(us, legacy),
        PackTranslationInputV::Pack(a) => spec_pack_loc_rows(a.records),
    }
}

/// The rows of the whole stack, in input order (highest priority first).
pub open spec fn spec_all_pack_rows(packs: Seq<PackTranslationInputV>, legacy: bool) -> Seq<
    LocEntryV,
>
    decreases packs.len(),
{
    if packs.len() == 0 {
        Seq::empty()
    } else {
        spec_pack_rows(packs[0], legacy) + spec_all_pack_rows(packs.skip(1), legacy)
    }
}

proof fn lemma_all_pack_rows_snoc(packs: Seq<PackTranslationInputV>, x: PackTranslationInputV, legacy: bool)
    ensures
        spec_all_pack_rows(packs.push(x), legacy) == spec_all_pack_rows(packs, legacy)
            + spec_pack_rows(x, legacy),
    decreases packs.len(),
{
    if packs.len() == 0 {
        assert(packs.push(x).skip(1) =~= Seq::<PackTranslationInputV>::empty());
        assert(packs.push(x)[0] == x);
        assert(spec_all_pack_rows(Seq::<PackTranslationInputV>::empty(), legacy)
            == Seq::<LocEntryV>::empty());
        assert(spec_pack_rows(x, legacy) + Seq::<LocEntryV>::empty() =~= spec_pack_rows(x, legacy));
        assert(Seq::<LocEntryV>::empty() + spec_pack_rows(x, legacy) =~= spec_pack_rows(x, legacy));
    } else {
        assert(packs.push(x).skip(1) =~= packs.skip(1).push(x));
        lemma_all_pack_rows_snoc(packs.skip(1), x, legacy);
        assert(packs.push(x)[0] == packs[0]);
        assert(spec_pack_rows(packs[0], legacy) + (spec_all_pack_rows(packs.skip(1), legacy)
            + spec_pack_rows(x, legacy)) =~= (spec_pack_rows(packs[0], legacy)
            + spec_all_pack_rows(packs.skip(1), legacy)) + spec_pack_rows(x, legacy));
    }
}

/// The rows of an optional table; none means no rows.
pub open spec fn view_opt_table(o: Option<LocTable>) -> Option<Seq<LocEntryV>> {
    match o {
        Some(t) => Some(t.deep_view()),
        None => None,
    }
}

pub open spec fn spec_opt_rows(o: Option<Seq<LocEntryV>>) -> Seq<LocEntryV> {
    match o {
        Some(r) => r,
        None => Seq::empty(),
    }
}

/// The assembled row list before the optimize pass: the corpus fixes
/// table in the highest-priority slot, then each archive's rows, highest
/// priority first.
pub open spec fn spec_assembled(
    packs: Seq<PackTranslationInputV>,
    legacy: bool,
    fixes: Option<Seq<LocEntryV>>,
) -> Seq<LocEntryV> {
    spec_opt_rows(fixes) + spec_all_pack_rows(packs, legacy)
}

/// The final row list handed to the flatten: legacy titles append the
/// installed monolithic table; modern titles optimize against the
/// reference and backfill the lost keys.
pub open spec fn spec_final_rows(
    legacy: bool,
    packs: Seq<PackTranslationInputV>,
    fixes: Option<Seq<LocEntryV>>,
    vanilla: Option<Seq<LocEntryV>>,
    installed: Seq<LocEntryV>,
) -> Seq<LocEntryV> {
    let pre = spec_assembled(packs, legacy, fixes);
    if legacy {
        pre + installed
    } else {
        match vanilla {
            Some(v) => spec_optimize(pre, v) + spec_restore(
                pre,
                spec_optimize(pre, v),
                installed,
                v,
                Set::empty(),
            ),
            None => pre,
        }
    }
}

/// The fixed path the assembled table is written to.
pub open spec fn spec_translated_path(legacy: bool) -> Seq<u8> {
    if legacy {
        "text/localisation.loc".spec_bytes()
    } else {
        "text/db/translated_texts.loc".spec_bytes()
    }
}

pub fn translated_path(legacy: bool) -> (r: Vec<u8>)
    ensures
        r@ == spec_translated_path(legacy),
{
    if legacy {
        text::bytes_of("text/localisation.loc")
    } else {
        text::bytes_of("text/db/translated_texts.loc")
    }
}

/// The override archive after one translation run: with no rows at all
/// it is untouched; otherwise the flattened final table stands at the
/// format-dependent fixed path, replacing any prior record there.
pub open spec fn spec_translations_effect(
    legacy: bool,
    packs: Seq<PackTranslationInputV>,
    fixes: Option<Seq<LocEntryV>>,
    vanilla: Option<Seq<LocEntryV>>,
    installed: Seq<LocEntryV>,
    a: crate::archive::ArchiveV,
) -> crate::archive::ArchiveV {
    let rows = spec_final_rows(legacy, packs, fixes, vanilla, installed);
    if rows.len() == 0 {
        a
    } else {
        crate::archive::spec_insert(
            a,
            RecordV {
                path: spec_translated_path(legacy),
                data: RecordDataV::Loc(crate::loc::spec_first_wins(rows)),
            },
        )
    }
}

/// The translation merge engine: assembles the final localization table
/// for one language and writes it into the override archive at the
/// format-dependent fixed path, replacing any prior record there.  With
/// no rows at all, the archive is left untouched.
pub fn prepare_translations(
    reserved_pack: &mut Archive,
    legacy: bool,
    packs: &Vec<PackTranslationInput>,
    fixes: &Option<LocTable>,
    vanilla_english: &Option<LocTable>,
    installed: &Vec<LocEntry>,
)
    requires
        old(reserved_pack).wf(),
    ensures
        final(reserved_pack).wf(),
        final(reserved_pack).deep_view() == spec_translations_effect(
            legacy,
            packs.deep_view(),
            view_opt_table(*fixes),
            view_opt_table(*vanilla_english),
            installed.deep_view(),
            old(reserved_pack).deep_view(),
        ),
{
    let ghost packs_v = packs.deep_view();
    let ghost fixes_v = view_opt_table(*fixes);
    let ghost vanilla_v = view_opt_table(*vanilla_english);
    let ghost installed_v = installed.deep_view();
    let mut pre: Vec<LocEntry> = Vec::new();
    match fixes {
        Some(f) => {
            append_entries(&mut pre, &f.entries);
        },
        None => {},
    }
    proof {
        assert(pre.deep_view() =~= spec_opt_rows(fixes_v));
    }
    let np = packs.len();
    let mut i: usize = 0;
    proof {
        assert(packs_v.take(0) =~= Seq::<PackTranslationInputV>::empty());
        assert(pre.deep_view() + Seq::<LocEntryV>::empty() =~= pre.deep_view());
    }
    while i < np
        invariant
            np == packs@.len(),
            packs_v == packs.deep_view(),
            packs_v.len() == np,
            i <= np,
            pre.deep_view() == spec_opt_rows(fixes_v) + spec_all_pack_rows(
                packs_v.take(i as int),
                legacy,
            ),
        decreases np - i,
    {
        let rows = match &packs[i] {
            PackTranslationInput::Units(us) => rows_from_units(us, legacy),
            PackTranslationInput::Pack(a) => collect_pack_loc_rows(a),
        };
        proof {
            assert(packs@[i as int].deep_view() == packs_v[i as int]);
            assert(rows.deep_view() == spec_pack_rows(packs_v[i as int], legacy));
        }
        append_entries(&mut pre, &rows);
        proof {
            assert(packs_v.take(i + 1) =~= packs_v.take(i as int).push(packs_v[i as int]));
            lemma_all_pack_rows_snoc(packs_v.take(i as int), packs_v[i as int], legacy);
            assert((spec_opt_rows(fixes_v) + spec_all_pack_rows(packs_v.take(i as int), legacy))
                + spec_pack_rows(packs_v[i as int], legacy) =~= spec_opt_rows(fixes_v)
                + spec_all_pack_rows(packs_v.take(i + 1), legacy));
        }
        i += 1;
    }
    proof {
        assert(packs_v.take(np as int) =~= packs_v);
    }
    let rows: Vec<LocEntry> = if legacy {
        let mut r = pre;
        append_entries(&mut r, installed);
        r
    } else {
        match vanilla_english {
            Some(v) => {
                let post = optimize(&pre, &v.entries);
                let res = restore(&pre, &post, installed, &v.entries);
                let mut r = post;
                append_entries(&mut r, &res);
                r
            },
            None => pre,
        }
    };
    proof {
        assert(rows.deep_view() == spec_final_rows(
            legacy,
            packs_v,
            fixes_v,
            vanilla_v,
            installed_v,
        ));
    }
    if rows.len() > 0 {
        let flat = crate::loc::first_wins(&rows);
        let rec = Record {
            path: translated_path(legacy),
            data: RecordData::Loc(LocTable { entries: flat }),
        };
        proof {
            assert(rec.deep_view() == RecordV {
                path: spec_translated_path(legacy),
                data: RecordDataV::Loc(
                    crate::loc::spec_first_wins(
                        spec_final_rows(legacy, packs_v, fixes_v, vanilla_v, installed_v),
                    ),
                ),
            });
        }
        reserved_pack.insert(rec);
    }
}


/// The exact key set of the legacy backfill: the assembled rows' keys
/// together with the installed monolithic table's keys.  The recorded
/// key set is preserved exactly whenever the monolithic table brings no
/// key of its own.
pub proof fn lemma_legacy_backfill_keys_exact(rows: Seq<LocEntryV>, installed: Seq<LocEntryV>)
    ensures
        crate::loc::keys_of(crate::loc::spec_first_wins(rows + installed)) == crate::loc::keys_of(
            rows,
        ).union(crate::loc::keys_of(installed)),
{
    crate::loc::lemma_first_wins_keys(rows + installed);
    assert forall|k: Seq<u8>| #[trigger] crate::loc::keys_of(rows + installed).contains(
        k,
    ) implies crate::loc::keys_of(rows).union(crate::loc::keys_of(installed)).contains(k) by {
        crate::loc::lemma_lookup_some_iff(rows + installed, k);
        crate::loc::lemma_lookup_append(rows, installed, k);
        crate::loc::lemma_lookup_some_iff(rows, k);
        crate::loc::lemma_lookup_some_iff(installed, k);
    }
    assert forall|k: Seq<u8>| crate::loc::keys_of(rows).union(crate::loc::keys_of(installed)).contains(
        k,
    ) implies #[trigger] crate::loc::keys_of(rows + installed).contains(k) by {
        crate::loc::lemma_lookup_some_iff(rows + installed, k);
        crate::loc::lemma_lookup_append(rows, installed, k);
        crate::loc::lemma_lookup_some_iff(rows, k);
        crate::loc::lemma_lookup_some_iff(installed, k);
    }
    assert(crate::loc::keys_of(crate::loc::spec_first_wins(rows + installed))
        =~= crate::loc::keys_of(rows).union(crate::loc::keys_of(installed)));
}

} // verus!