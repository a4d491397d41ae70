//! Archives of path-addressed records, and the priority-ordered stack.
//!
//! Source archives are read-only; all mutation happens on copies inserted
//! into a new override archive.

use vstd::prelude::*;

use crate::loc::LocTable;
use crate::table::RelationalTable;
use crate::table::clone_table;
use crate::text;

verus! {

use crate::loc::LocEntryV;
use crate::table::TableV;

/// What one record holds.
#[derive(Debug, PartialEq, Eq)]
pub enum RecordData {
    Opaque(Vec<u8>),
    Table(RelationalTable),
    Loc(LocTable),
}

/// Ghost value of a record's contents.
pub enum RecordDataV {
    Opaque(Seq<u8>),
    Table(TableV),
    Loc(Seq<LocEntryV>),
}

impl DeepView for RecordData {
    type V = RecordDataV;

    open spec fn deep_view(&self) -> RecordDataV {
        match self {
            RecordData::Opaque(b) => RecordDataV::Opaque(b@),
            RecordData::Table(t) => RecordDataV::Table(t.deep_view()),
            RecordData::Loc(l) => RecordDataV::Loc(l.deep_view()),
        }
    }
}

/// One addressable content unit inside an archive.
#[derive(Debug, PartialEq, Eq)]
pub struct Record {
    pub path: Vec<u8>,
    pub data: RecordData,
}

/// Ghost value of a record.
pub struct RecordV {
    pub path: Seq<u8>,
    pub data: RecordDataV,
}

impl DeepView for Record {
    type V = RecordV;

    open spec fn deep_view(&self) -> RecordV {
        RecordV { path: self.path@, data: self.data.deep_view() }
    }
}

/// The container category of an archive.
#[derive(Debug, Clone, Copy, PartialEq, Eq, Structural)]
pub enum ArchiveKind {
    Release,
    Mod,
    Movie,
}

/// A container of path-addressable records.
#[derive(Debug, PartialEq, Eq)]
pub struct Archive {
    pub name: Vec<u8>,
    pub kind: ArchiveKind,
    pub records: Vec<Record>,
}

/// Ghost value of an archive.
pub struct ArchiveV {
    pub name: Seq<u8>,
    pub kind: ArchiveKind,
    pub records: Seq<RecordV>,
}

impl DeepView for Archive {
    type V = ArchiveV;

    open spec fn deep_view(&self) -> ArchiveV {
        ArchiveV { name: self.name@, kind: self.kind, records: self.records.deep_view() }
    }
}

/// Index of the first record with the given path.
pub open spec fn spec_index_of(records: Seq<RecordV>, path: Seq<u8>) -> Option<int>
    decreases records.len(),
{
    if records.len() == 0 {
        None
    } else if records[0].path == path {
        Some(0)
    } else {
        match spec_index_of(records.skip(1), path) {
            Some(i) => Some(i + 1),
            None => None,
        }
    }
}

/// An archive value after inserting a record: a prior record at the
/// same path is replaced in place, a new path is appended.
pub open spec fn spec_insert(a: ArchiveV, rec: RecordV) -> ArchiveV {
    match spec_index_of(a.records, rec.path) {
        Some(i) => ArchiveV { records: a.records.update(i, rec), ..a },
        None => ArchiveV { records: a.records.push(rec), ..a },
    }
}

/// An archive value after inserting several records in order.
pub open spec fn spec_insert_all(a: ArchiveV, recs: Seq<RecordV>) -> ArchiveV
    decreases recs.len(),
{
    if recs.len() == 0 {
        a
    } else {
        spec_insert_all(spec_insert(a, recs[0]), recs.skip(1))
    }
}

/// The record an archive holds at a path, if any.
pub open spec fn record_at(a: ArchiveV, path: Seq<u8>) -> Option<RecordV> {
    match spec_index_of(a.records, path) {
        Some(i) => Some(a.records[i]),
        None => None,
    }
}

/// An index that carries the path, with none before it, is the one the
/// search finds.
pub proof fn lemma_index_of_witness(records: Seq<RecordV>, path: Seq<u8>, i: int)
    requires
        0 <= i < records.len(),
        records[i].path == path,
        forall|j: int| 0 <= j < i ==> (#[trigger] records[j]).path != path,
    ensures
        spec_index_of(records, path) == Some(i),
{
    lemma_index_of_props(records, path);
    match spec_index_of(records, path) {
        Some(k) => {
            if k < i {
                assert(records[k].path == path);
            } else if k > i {
                assert(records[i].path != path);
            }
        },
        None => {
            assert(spec_has_path(records, path));
        },
    }
}

/// What an insert leaves at each path: the inserted record at its own
/// path, everything else untouched.
pub proof fn lemma_insert_record_at(a: ArchiveV, rec: RecordV, path: Seq<u8>)
    ensures
        path == rec.path ==> record_at(spec_insert(a, rec), path) == Some(rec),
        path != rec.path ==> record_at(spec_insert(a, rec), path) == record_at(a, path),
{
    lemma_index_of_props(a.records, rec.path);
    let b = spec_insert(a, rec);
    match spec_index_of(a.records, rec.path) {
        Some(i) => {
            assert(b.records =~= a.records.update(i, rec));
            if path == rec.path {
                assert forall|j: int| 0 <= j < i implies (#[trigger] b.records[j]).path
                    != path by {
                    assert(b.records[j] == a.records[j]);
                }
                lemma_index_of_witness(b.records, path, i);
            } else {
                lemma_index_of_props(a.records, path);
                lemma_index_of_props(b.records, path);
                match spec_index_of(a.records, path) {
                    Some(k) => {
                        assert(a.records[k].path == path);
                        assert(k != i);
                        assert(b.records[k] == a.records[k]);
                        assert forall|j: int| 0 <= j < k implies (#[trigger] b.records[j]).path
                            != path by {
                            if j == i {
                                assert(b.records[j].path == rec.path);
                            } else {
                                assert(b.records[j] == a.records[j]);
                            }
                        }
                        lemma_index_of_witness(b.records, path, k);
                    },
                    None => {
                        match spec_index_of(b.records, path) {
                            Some(k) => {
                                assert(b.records[k].path == path);
                                if k == i {
                                    assert(b.records[k].path == rec.path);
                                } else {
                                    assert(b.records[k] == a.records[k]);
                                    assert(spec_has_path(a.records, path));
                                }
                            },
                            None => {},
                        }
                    },
                }
            }
        },
        None => {
            assert(b.records =~= a.records.push(rec));
            let n = a.records.len() as int;
            if path == rec.path {
                assert(b.records[n] == rec);
                assert forall|j: int| 0 <= j < n implies (#[trigger] b.records[j]).path
                    != path by {
                    assert(b.records[j] == a.records[j]);
                    assert(!spec_has_path(a.records, path));
                }
                lemma_index_of_witness(b.records, path, n);
            } else {
                lemma_index_of_props(a.records, path);
                lemma_index_of_props(b.records, path);
                match spec_index_of(a.records, path) {
                    Some(k) => {
                        assert(a.records[k].path == path);
                        assert(b.records[k] == a.records[k]);
                        assert forall|j: int| 0 <= j < k implies (#[trigger] b.records[j]).path
                            != path by {
                            assert(b.records[j] == a.records[j]);
                        }
                        lemma_index_of_witness(b.records, path, k);
                    },
                    None => {
                        match spec_index_of(b.records, path) {
                            Some(k) => {
                                assert(b.records[k].path == path);
                                if k == n {
                                    assert(b.records[k].path == rec.path);
                                } else {
                                    assert(b.records[k] == a.records[k]);
                                    assert(spec_has_path(a.records, path));
                                }
                            },
                            None => {},
                        }
                    },
                }
            }
        },
    }
}

/// Inserting a list of records factors through its last element.
pub proof fn lemma_insert_all_snoc(a: ArchiveV, recs: Seq<RecordV>, x: RecordV)
    ensures
        spec_insert_all(a, recs.push(x)) == spec_insert(spec_insert_all(a, recs), x),
    decreases recs.len(),
{
    if recs.len() == 0 {
        assert(recs.push(x).skip(1) =~= Seq::<RecordV>::empty());
        assert(recs.push(x)[0] == x);
        assert(spec_insert_all(spec_insert(a, x), Seq::<RecordV>::empty()) == spec_insert(a, x));
        assert(spec_insert_all(a, Seq::<RecordV>::empty()) == a);
    } else {
        assert(recs.push(x).skip(1) =~= recs.skip(1).push(x));
        assert(recs.push(x)[0] == recs[0]);
        lemma_insert_all_snoc(spec_insert(a, recs[0]), recs.skip(1), x);
    }
}

/// Inserting records never changes an archive's name or kind.
pub proof fn lemma_insert_all_preserves_meta(a: ArchiveV, recs: Seq<RecordV>)
    ensures
        spec_insert_all(a, recs).name == a.name,
        spec_insert_all(a, recs).kind == a.kind,
    decreases recs.len(),
{
    if recs.len() > 0 {
        lemma_insert_all_preserves_meta(spec_insert(a, recs[0]), recs.skip(1));
    }
}

/// Whether some record of the list carries the path.
pub open spec fn spec_has_path(records: Seq<RecordV>, path: Seq<u8>) -> bool {
    exists|i: int| 0 <= i < records.len() && (#[trigger] records[i]).path == path
}

pub proof fn lemma_index_of_props(records: Seq<RecordV>, path: Seq<u8>)
    ensures
        match spec_index_of(records, path) {
            Some(i) => 0 <= i < records.len() && records[i].path == path && forall|j: int|
                0 <= j < i ==> (#[trigger] records[j]).path != path,
            None => !spec_has_path(records, path),
        },
    decreases records.len(),
{
    if records.len() > 0 {
        lemma_index_of_props(records.skip(1), path);
        if records[0].path != path {
            match spec_index_of(records.skip(1), path) {
                Some(i) => {
                    assert(records[i + 1] == records.skip(1)[i]);
                    assert forall|j: int| 0 <= j < i + 1 implies (#[trigger] records[j]).path
                        != path by {
                        if j > 0 {
                            assert(records[j] == records.skip(1)[j - 1]);
                        }
                    }
                },
                None => {
                    if spec_has_path(records, path) {
                        let i = choose|i: int|
                            0 <= i < records.len() && (#[trigger] records[i]).path == path;
                        assert(records.skip(1)[i - 1].path == path);
                    }
                },
            }
        }
    }
}

impl Archive {
    /// Paths are unique within an archive.
    pub open spec fn wf(&self) -> bool {
        forall|i: int, j: int|
            0 <= i < j < self.records@.len() ==> (#[trigger] self.records@[i]).path@
                != (#[trigger] self.records@[j]).path@
    }

    /// A fresh, empty archive.
    pub fn new(name: Vec<u8>, kind: ArchiveKind) -> (r: Archive)
        ensures
            r.wf(),
            r.deep_view().name == name@,
            r.deep_view().kind == kind,
            r.deep_view().records.len() == 0,
    {
        Archive { name, kind, records: Vec::new() }
    }

    /// Index of the first record at the path, if any.
    pub fn index_of(&self, path: &Vec<u8>) -> (r: Option<usize>)
        ensures
            match r {
                Some(i) => spec_index_of(self.deep_view().records, path@) == Some(i as int),
                None => spec_index_of(self.deep_view().records, path@) is None,
            },
    {
        let n = self.records.len();
        let mut i: usize = 0;
        while i < n
            invariant
                n == self.records@.len(),
                i <= n,
                forall|j: int| 0 <= j < i ==> (#[trigger] self.records@[j]).path@ != path@,
            decreases n - i,
        {
            if text::bytes_eq(&self.records[i].path, path) {
                proof {
                    let rv = self.deep_view().records;
                    lemma_index_of_props(rv, path@);
                    assert(rv[i as int].path == path@);
                    match spec_index_of(rv, path@) {
                        Some(k) => {
                            if k < i {
                                assert(rv[k].path == path@);
                            } else if k > i {
                                assert(rv[i as int].path != path@);
                            }
                        },
                        None => {
                            assert(spec_has_path(rv, path@));
                        },
                    }
                }
                return Some(i);
            }
            i += 1;
        }
        proof {
            let rv = self.deep_view().records;
            lemma_index_of_props(rv, path@);
            match spec_index_of(rv, path@) {
                Some(k) => {
                    assert(rv[k].path == path@);
                    assert(rv[k].path != path@);
                },
                None => {},
            }
        }
        None
    }

    /// Inserts a record, replacing any prior record at the same path.
    pub fn insert(&mut self, rec: Record)
        requires
            old(self).wf(),
        ensures
            final(self).wf(),
            final(self).deep_view().name == old(self).deep_view().name,
            final(self).deep_view().kind == old(self).deep_view().kind,
            final(self).deep_view() == spec_insert(old(self).deep_view(), rec.deep_view()),
            match spec_index_of(old(self).deep_view().records, rec.path@) {
                Some(i) => final(self).deep_view().records == old(
                    self,
                ).deep_view().records.update(i, rec.deep_view()),
                None => final(self).deep_view().records == old(self).deep_view().records.push(
                    rec.deep_view(),
                ),
            },
    {
        let ghost rec_v = rec.deep_view();
        let ghost rv0 = self.deep_view().records;
        proof {
            lemma_index_of_props(rv0, rec.path@);
        }
        let pos = self.index_of(&rec.path);
        match pos {
            Some(i) => {
                self.records.set(i, rec);
                proof {
                    assert(self.deep_view().records =~= rv0.update(i as int, rec_v));
                    assert(rv0[i as int].path == rec_v.path);
                    assert forall|a: int, b: int|
                        0 <= a < b < self.records@.len() implies (
                    #[trigger] self.records@[a]).path@ != (#[trigger] self.records@[b]).path@ by {
                        assert(self.records@[a].path@ == rv0[a].path
                            && self.records@[b].path@ == rv0[b].path);
                        assert(rv0[a].path == old(self).records@[a].path@);
                        assert(rv0[b].path == old(self).records@[b].path@);
                    }
                }
            },
            None => {
                self.records.push(rec);
                proof {
                    assert(self.deep_view().records =~= rv0.push(rec_v));
                    assert forall|a: int, b: int|
                        0 <= a < b < self.records@.len() implies (
                    #[trigger] self.records@[a]).path@ != (#[trigger] self.records@[b]).path@ by {
                        if b < self.records@.len() - 1 {
                            assert(self.records@[a] == old(self).records@[a]);
                            assert(self.records@[b] == old(self).records@[b]);
                        } else {
                            assert(self.records@[a] == old(self).records@[a]);
                            assert(!spec_has_path(rv0, rec_v.path));
                            assert(rv0[a].path != rec_v.path);
                            assert(rv0[a].path == old(self).records@[a].path@);
                        }
                    }
                }
            },
        }
    }
}

pub fn clone_data(d: &RecordData) -> (r: RecordData)
    ensures
        r.deep_view() == d.deep_view(),
{
    match d {
        RecordData::Opaque(b) => RecordData::Opaque(b.clone()),
        RecordData::Table(t) => RecordData::Table(clone_table(t)),
        RecordData::Loc(l) => RecordData::Loc(
            LocTable { entries: crate::loc::clone_entries(&l.entries) },
        ),
    }
}

pub fn clone_record(rec: &Record) -> (r: Record)
    ensures
        r.deep_view() == rec.deep_view(),
{
    Record { path: rec.path.clone(), data: clone_data(&rec.data) }
}

/// An ordered list of archives; priority is position, later wins.
#[derive(Debug)]
pub struct ArchiveStack {
    pub archives: Vec<Archive>,
}

impl DeepView for ArchiveStack {
    type V = Seq<ArchiveV>;

    open spec fn deep_view(&self) -> Seq<ArchiveV> {
        self.archives.deep_view()
    }
}

/// The record that a path resolves to: the one of the highest-priority
/// archive that holds the path.
pub open spec fn spec_resolve(archives: Seq<ArchiveV>, path: Seq<u8>) -> Option<RecordV>
    decreases archives.len(),
{
    if archives.len() == 0 {
        None
    } else {
        let last = archives[archives.len() - 1];
        match spec_index_of(last.records, path) {
            Some(i) => Some(last.records[i]),
            None => spec_resolve(archives.drop_last(), path),
        }
    }
}

/// A record path present in several archives resolves to the
/// highest-priority archive's record; a path present nowhere resolves to
/// nothing.
pub proof fn lemma_resolve_highest(archives: Seq<ArchiveV>, path: Seq<u8>)
    ensures
        match spec_resolve(archives, path) {
            Some(rec) => exists|a: int|
                0 <= a < archives.len() && spec_has_path(#[trigger] archives[a].records, path)
                    && (spec_index_of(archives[a].records, path) matches Some(i) && rec
                    == archives[a].records[i]) && (forall|b: int|
                    a < b < archives.len() ==> !spec_has_path(
                        #[trigger] archives[b].records,
                        path,
                    )),
            None => forall|a: int|
                0 <= a < archives.len() ==> !spec_has_path(#[trigger] archives[a].records, path),
        },
    decreases archives.len(),
{
    if archives.len() > 0 {
        let n = archives.len() as int;
        let last = archives[n - 1];
        lemma_index_of_props(last.records, path);
        match spec_index_of(last.records, path) {
            Some(i) => {
                assert(spec_has_path(last.records, path));
            },
            None => {
                lemma_resolve_highest(archives.drop_last(), path);
                assert(forall|a: int|
                    0 <= a < n - 1 ==> archives.drop_last()[a] == #[trigger] archives[a]);
                match spec_resolve(archives.drop_last(), path) {
                    Some(rec) => {
                        let a = choose|a: int|
                            0 <= a < archives.drop_last().len() && spec_has_path(
                                #[trigger] archives.drop_last()[a].records,
                                path,
                            ) && (spec_index_of(archives.drop_last()[a].records, path) matches Some(
                                i,
                            ) && rec == archives.drop_last()[a].records[i]) && (forall|b: int|
                                a < b < archives.drop_last().len() ==> !spec_has_path(
                                    #[trigger] archives.drop_last()[b].records,
                                    path,
                                ));
                        assert(spec_has_path(archives[a].records, path));
                        assert forall|b: int| a < b < n implies !spec_has_path(
                            #[trigger] archives[b].records,
                            path,
                        ) by {
                            if b < n - 1 {
                                assert(archives.drop_last()[b] == archives[b]);
                            }
                        }
                    },
                    None => {},
                }
            },
        }
    }
}

impl ArchiveStack {
    /// Resolves a path through the stack: the highest-priority archive
    /// holding the path wins.
    pub fn resolve(&self, path: &Vec<u8>) -> (r: Option<Record>)
        ensures
            match r {
                Some(rec) => spec_resolve(self.deep_view(), path@) == Some(rec.deep_view()),
                None => spec_resolve(self.deep_view(), path@) is None,
            },
    {
        let n = self.archives.len();
        let mut i: usize = n;
        proof {
            assert(self.deep_view().take(n as int) =~= self.deep_view());
        }
        while i > 0
            invariant
                n == self.archives@.len(),
                i <= n,
                spec_resolve(self.deep_view(), path@) == spec_resolve(
                    self.deep_view().take(i as int),
                    path@,
                ),
            decreases i,
        {
            i -= 1;
            let pos = self.archives[i].index_of(path);
            let ghost sv = self.deep_view();
            proof {
                assert(sv.take(i + 1).drop_last() =~= sv.take(i as int));
                assert(sv.take(i + 1)[i as int] == sv[i as int]);
            }
            match pos {
                Some(p) => {
                    proof {
                        assert(sv[i as int] == self.archives@[i as int].deep_view());
                        lemma_index_of_props(sv[i as int].records, path@);
                        assert(sv[i as int].records.len()
                            == self.archives@[i as int].records@.len());
                    }
                    let rec = clone_record(&self.archives[i].records[p]);
                    proof {
                        assert(sv[i as int].records[p as int] == self.archives@[i as int].records@[
                        p as int].deep_view());
                    }
                    return Some(rec);
                },
                None => {},
            }
        }
        proof {
            assert(self.deep_view().take(0) =~= Seq::<ArchiveV>::empty());
        }
        None
    }
}

/// Whether a record is a relational table under the path prefix.
pub open spec fn is_table_under(r: RecordV, prefix: Seq<u8>) -> bool {
    r.data is Table && crate::text::spec_starts_with(r.path, prefix)
}

/// The relational-table records under a path prefix, in order.
pub open spec fn spec_tables_under(records: Seq<RecordV>, prefix: Seq<u8>) -> Seq<RecordV>
    decreases records.len(),
{
    if records.len() == 0 {
        Seq::empty()
    } else if is_table_under(records[0], prefix) {
        seq![records[0]] + spec_tables_under(records.skip(1), prefix)
    } else {
        spec_tables_under(records.skip(1), prefix)
    }
}

/// Clones, in order, every relational-table record under a path prefix.
pub fn collect_tables_under(archive: &Archive, prefix: &Vec<u8>) -> (r: Vec<Record>)
    ensures
        r.deep_view() == spec_tables_under(archive.deep_view().records, prefix@),
{
    let ghost rv = archive.deep_view().records;
    let n = archive.records.len();
    let mut out: Vec<Record> = Vec::new();
    let mut i: usize = 0;
    proof {
        assert(rv.skip(0) =~= rv);
        assert(Seq::<RecordV>::empty() + spec_tables_under(rv, prefix@) =~= spec_tables_under(
            rv,
            prefix@,
        ));
    }
    while i < n
        invariant
            n == archive.records@.len(),
            rv == archive.deep_view().records,
            rv.len() == n,
            i <= n,
            spec_tables_under(rv, prefix@) == out.deep_view() + spec_tables_under(
                rv.skip(i as int),
                prefix@,
            ),
        decreases n - i,
    {
        let ghost s = rv.skip(i as int);
        proof {
            assert(s[0] == rv[i as int]);
            assert(s.skip(1) =~= rv.skip(i + 1));
        }
        let rec = &archive.records[i];
        let keep = match &rec.data {
            RecordData::Table(_) => text::starts_with(&rec.path, prefix),
            _ => false,
        };
        proof {
            assert(rec.deep_view() == rv[i as int]);
            assert(keep == is_table_under(rv[i as int], prefix@));
        }
        if keep {
            let ghost out0 = out.deep_view();
            out.push(clone_record(rec));
            proof {
                assert(out.deep_view() =~= out0.push(rv[i as int]));
                assert(out0 + (seq![s[0]] + spec_tables_under(s.skip(1), prefix@)) =~= out0.push(
                    rv[i as int],
                ) + spec_tables_under(rv.skip(i + 1), prefix@));
            }
        }
        i += 1;
    }
    proof {
        assert(rv.skip(n as int) =~= Seq::<RecordV>::empty());
        assert(out.deep_view() + Seq::<RecordV>::empty() =~= out.deep_view());
    }
    out
}

/// A record path with its final segment pushed to the lowest sort
/// position by a leading tilde.
pub open spec fn spec_low_priority_path(p: Seq<u8>) -> Seq<u8> {
    match crate::text::spec_find(p, seq![47u8], 0) {
        Some(_) => p.subrange(0, last_slash(p) + 1) + seq![126u8] + p.skip(last_slash(p) + 1),
        None => seq![126u8] + p,
    }
}

/// The final segment of a path: what follows the last separator.
pub open spec fn spec_file_name(p: Seq<u8>) -> Seq<u8> {
    match crate::text::spec_find(p, seq![47u8], 0) {
        Some(_) => p.skip(last_slash(p) + 1),
        None => p,
    }
}

pub fn file_name_of(path: &Vec<u8>) -> (r: Vec<u8>)
    ensures
        r@ == spec_file_name(path@),
{
    match last_slash_exec(path) {
        Some(i) => {
            let n = path.len();
            let r = crate::text::subvec(path, i + 1, n);
            proof {
                assert(r@ =~= path@.skip(last_slash(path@) + 1));
            }
            r
        },
        None => path.clone(),
    }
}

/// Renames a record path so that its final segment sorts first: the base
/// game's tables get extremely low priority, never overriding a mod's.
pub fn rename_file_name_to_low_priority(rec: &mut Record)
    ensures
        final(rec).data.deep_view() == old(rec).data.deep_view(),
        final(rec).path@ == spec_low_priority_path(old(rec).path@),
{
    let slash = last_slash_exec(&rec.path);
    match slash {
        Some(i) => {
            let plen = rec.path.len();
            let mut p = crate::text::subvec(&rec.path, 0, i + 1);
            p.push(126);
            let tail = crate::text::subvec(&rec.path, i + 1, plen);
            crate::text::push_all(&mut p, &tail);
            proof {
                assert(p@ =~= old(rec).path@.subrange(0, last_slash(old(rec).path@) + 1)
                    + seq![126u8] + old(rec).path@.skip(last_slash(old(rec).path@) + 1));
            }
            rec.path = p;
        },
        None => {
            let mut p: Vec<u8> = Vec::new();
            p.push(126);
            crate::text::push_all(&mut p, &rec.path);
            proof {
                assert(p@ =~= seq![126u8] + old(rec).path@);
            }
            rec.path = p;
        },
    }
}

/// Index of the last path separator.
pub open spec fn last_slash(path: Seq<u8>) -> int {
    choose|i: int| 0 <= i < path.len() && path[i] == 47 && forall|j: int|
        i < j < path.len() ==> path[j] != 47
}

fn last_slash_exec(path: &Vec<u8>) -> (r: Option<usize>)
    ensures
        match r {
            Some(i) => i < path@.len() && path@[i as int] == 47 && (forall|j: int|
                i < j < path@.len() ==> path@[j] != 47) && i == last_slash(path@)
                && crate::text::spec_find(path@, seq![47u8], 0) is Some,
            None => crate::text::spec_find(path@, seq![47u8], 0) is None,
        },
{
    let n = path.len();
    let mut i: usize = n;
    while i > 0
        invariant
            n == path@.len(),
            i <= n,
            forall|j: int| i <= j < n ==> path@[j] != 47,
        decreases i,
    {
        i -= 1;
        if path[i] == 47 {
            proof {
                assert(last_slash(path@) == i as int) by {
                    let w = last_slash(path@);
                    assert(0 <= i < path@.len() && path@[i as int] == 47 && forall|j: int|
                        i < j < path@.len() ==> path@[j] != 47);
                    if w != i {
                        assert(path@[w] == 47 ==> !(i < w));
                    }
                }
                crate::text::lemma_spec_find_props(path@, seq![47u8], 0);
                match crate::text::spec_find(path@, seq![47u8], 0) {
                    Some(k) => {},
                    None => {
                        assert(!crate::text::occurs_at(path@, seq![47u8], i as int)) by {}
                        assert(path@.subrange(i as int, i + 1) =~= seq![47u8]);
                    },
                }
            }
            return Some(i);
        }
    }
    proof {
        crate::text::lemma_spec_find_props(path@, seq![47u8], 0);
        match crate::text::spec_find(path@, seq![47u8], 0) {
            Some(k) => {
                assert(crate::text::occurs_at(path@, seq![47u8], k as int));
                assert(path@.subrange(k as int, k as int + 1)[0] == path@[k as int]);
                assert(path@[k as int] == 47);
            },
            None => {},
        }
    }
    None
}

} // verus!
