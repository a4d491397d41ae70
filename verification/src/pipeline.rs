//! The relational patch pipeline.
//!
//! Relational tables are collected from three sources in increasing
//! priority (base archive, mod archives, override archive), projected
//! into the scratch store, patched by user scripts run strictly in
//! caller order, and the affected tables pulled back into the override
//! archive.  Failures of single scripts are accumulated: the pipeline
//! fails at the end, never between two scripts.

use vstd::prelude::*;

use crate::archive::Archive;
use crate::archive::Record;
use crate::archive::RecordData;
use crate::archive::clone_record;
use crate::archive::collect_tables_under;
use crate::archive::file_name_of;
use crate::archive::rename_file_name_to_low_priority;
use crate::error::PatchError;
use crate::script::CreatedTable;
use crate::store::ProjectionStore;
use crate::table::Cell;
use crate::table::ColType;
use crate::table::RelationalTable;
use crate::text;

verus! {

use crate::archive::ArchiveV;
use crate::archive::RecordV;
use crate::archive::RecordDataV;
use crate::archive::spec_file_name;
use crate::archive::spec_low_priority_path;
use crate::archive::spec_tables_under;
use crate::table::CellV;
use crate::table::TableV;
use vstd::string::StringSliceAdditionalSpecFns;

/// One collected table: the record, the archive it came from, and
/// whether it belongs to the base game.
#[derive(Debug)]
pub struct SourcedTable {
    pub rec: Record,
    pub container: Vec<u8>,
    pub is_vanilla: bool,
}

/// Ghost value of a collected table.
pub struct SourcedTableV {
    pub rec: RecordV,
    pub container: Seq<u8>,
    pub is_vanilla: bool,
}

impl DeepView for SourcedTable {
    type V = SourcedTableV;

    open spec fn deep_view(&self) -> SourcedTableV {
        SourcedTableV {
            rec: self.rec.deep_view(),
            container: self.container@,
            is_vanilla: self.is_vanilla,
        }
    }
}

/// One archive's tables as pipeline sources; base tables get their file
/// name pushed to the lowest sort position.
pub open spec fn spec_source_tables(
    records: Seq<RecordV>,
    container: Seq<u8>,
    is_vanilla: bool,
) -> Seq<SourcedTableV>
    decreases records.len(),
{
    if records.len() == 0 {
        Seq::empty()
    } else {
        let r0 = records[0];
        let rec = if is_vanilla {
            RecordV { path: spec_low_priority_path(r0.path), data: r0.data }
        } else {
            r0
        };
        seq![SourcedTableV { rec, container, is_vanilla }] + spec_source_tables(
            records.skip(1),
            container,
            is_vanilla,
        )
    }
}

/// The paths of a sourced-table list.
pub open spec fn spec_sourced_paths(ts: Seq<SourcedTableV>) -> Seq<Seq<u8>> {
    ts.map_values(|t: SourcedTableV| t.rec.path)
}

/// Selection of sourced tables by a position list.
pub open spec fn spec_sourced_by_perm(ts: Seq<SourcedTableV>, perm: Seq<usize>) -> Seq<
    SourcedTableV,
>
    decreases perm.len(),
{
    if perm.len() == 0 {
        Seq::empty()
    } else {
        seq![ts[perm[0] as int]] + spec_sourced_by_perm(ts, perm.skip(1))
    }
}

proof fn lemma_sourced_by_perm_snoc(ts: Seq<SourcedTableV>, perm: Seq<usize>, x: usize)
    ensures
        spec_sourced_by_perm(ts, perm.push(x)) == spec_sourced_by_perm(ts, perm) + seq![
            ts[x as int],
        ],
    decreases perm.len(),
{
    if perm.len() == 0 {
        assert(perm.push(x).skip(1) =~= Seq::<usize>::empty());
        assert(perm.push(x)[0] == x);
        assert(spec_sourced_by_perm(ts, Seq::<usize>::empty()) == Seq::<SourcedTableV>::empty());
        assert(seq![ts[x as int]] + Seq::<SourcedTableV>::empty() =~= seq![ts[x as int]]);
        assert(Seq::<SourcedTableV>::empty() + seq![ts[x as int]] =~= seq![ts[x as int]]);
    } else {
        assert(perm.push(x).skip(1) =~= perm.skip(1).push(x));
        lemma_sourced_by_perm_snoc(ts, perm.skip(1), x);
        assert(perm.push(x)[0] == perm[0]);
        assert(seq![ts[perm[0] as int]] + (spec_sourced_by_perm(ts, perm.skip(1)) + seq![
            ts[x as int],
        ]) =~= (seq![ts[perm[0] as int]] + spec_sourced_by_perm(ts, perm.skip(1))) + seq![
            ts[x as int],
        ]);
    }
}

/// The collected pipeline tables: base tables (renamed low priority),
/// then mod tables, then override tables, in a stable ascending sort by
/// full path.
pub open spec fn spec_collect_tables(
    vanilla: crate::archive::ArchiveV,
    modded: crate::archive::ArchiveV,
    reserved: crate::archive::ArchiveV,
) -> Seq<SourcedTableV> {
    let base = spec_source_tables(
        spec_tables_under(vanilla.records, Seq::empty()),
        vanilla.name,
        true,
    ) + spec_source_tables(
        spec_tables_under(modded.records, Seq::empty()),
        modded.name,
        false,
    ) + spec_source_tables(
        spec_tables_under(reserved.records, Seq::empty()),
        reserved.name,
        false,
    );
    spec_sourced_by_perm(
        base,
        text::spec_sort_idx(spec_sourced_paths(base), base.len() as int),
    )
}

fn source_tables(archive: &Archive, is_vanilla: bool) -> (r: Vec<SourcedTable>)
    ensures
        r.deep_view() == spec_source_tables(
            spec_tables_under(archive.deep_view().records, Seq::empty()),
            archive.deep_view().name,
            is_vanilla,
        ),
{
    let empty_prefix: Vec<u8> = Vec::new();
    proof {
        assert(empty_prefix@ =~= Seq::<u8>::empty());
    }
    let tables = collect_tables_under(archive, &empty_prefix);
    let ghost tv = tables.deep_view();
    let n = tables.len();
    let mut out: Vec<SourcedTable> = Vec::new();
    let mut i: usize = 0;
    proof {
        assert(tv.skip(0) =~= tv);
        assert(Seq::<SourcedTableV>::empty() + spec_source_tables(
            tv,
            archive.deep_view().name,
            is_vanilla,
        ) =~= spec_source_tables(tv, archive.deep_view().name, is_vanilla));
    }
    while i < n
        invariant
            n == tables@.len(),
            tv == tables.deep_view(),
            tv.len() == n,
            i <= n,
            spec_source_tables(tv, archive.deep_view().name, is_vanilla) == out.deep_view()
                + spec_source_tables(tv.skip(i as int), archive.deep_view().name, is_vanilla),
        decreases n - i,
    {
        let ghost s = tv.skip(i as int);
        proof {
            assert(s[0] == tv[i as int]);
            assert(s.skip(1) =~= tv.skip(i + 1));
            assert(tables@[i as int].deep_view() == tv[i as int]);
        }
        let mut rec = clone_record(&tables[i]);
        if is_vanilla {
            rename_file_name_to_low_priority(&mut rec);
        }
        let ghost out0 = out.deep_view();
        out.push(SourcedTable { rec, container: archive.name.clone(), is_vanilla });
        proof {
            let entry = SourcedTableV {
                rec: if is_vanilla {
                    RecordV { path: spec_low_priority_path(s[0].path), data: s[0].data }
                } else {
                    s[0]
                },
                container: archive.deep_view().name,
                is_vanilla,
            };
            assert(out.deep_view() =~= out0.push(entry));
            assert(out0 + (seq![entry] + spec_source_tables(
                s.skip(1),
                archive.deep_view().name,
                is_vanilla,
            )) =~= out0.push(entry) + spec_source_tables(
                tv.skip(i + 1),
                archive.deep_view().name,
                is_vanilla,
            ));
        }
        i += 1;
    }
    proof {
        assert(tv.skip(n as int) =~= Seq::<RecordV>::empty());
        assert(out.deep_view() + Seq::<SourcedTableV>::empty() =~= out.deep_view());
    }
    out
}

/// Collects every relational table of the three layers, base tables
/// renamed to the lowest priority, and sorts the whole list stably by
/// path so later processing is deterministic.
pub fn collect_pipeline_tables(vanilla: &Archive, modded: &Archive, reserved: &Archive) -> (r: Vec<
    SourcedTable,
>)
    ensures
        r.deep_view() == spec_collect_tables(
            vanilla.deep_view(),
            modded.deep_view(),
            reserved.deep_view(),
        ),
{
    let mut base = source_tables(vanilla, true);
    let mut from_mods = source_tables(modded, false);
    let mut from_reserved = source_tables(reserved, false);
    let ghost b1 = base.deep_view();
    let ghost b2 = from_mods.deep_view();
    let ghost b3 = from_reserved.deep_view();
    append_sourced(&mut base, &mut from_mods);
    append_sourced(&mut base, &mut from_reserved);
    proof {
        assert(base.deep_view() =~= (b1 + b2) + b3);
    }
    let ghost bv = base.deep_view();
    // Sort stably by path.
    let m = base.len();
    let mut paths: Vec<Vec<u8>> = Vec::new();
    let mut k: usize = 0;
    while k < m
        invariant
            m == base@.len(),
            bv == base.deep_view(),
            bv.len() == m,
            k <= m,
            paths@.len() == k,
            forall|j: int| 0 <= j < k ==> (#[trigger] paths@[j])@ == bv[j].rec.path,
        decreases m - k,
    {
        paths.push(base[k].rec.path.clone());
        k += 1;
    }
    proof {
        assert(paths.deep_view() =~~= spec_sourced_paths(bv));
    }
    let perm = text::sort_indices(&paths);
    let ghost pv = perm@;
    let mut out: Vec<SourcedTable> = Vec::new();
    let pn = perm.len();
    let mut t: usize = 0;
    proof {
        assert(pv.take(0) =~= Seq::<usize>::empty());
        assert(out.deep_view() =~= spec_sourced_by_perm(bv, pv.take(0)));
    }
    while t < pn
        invariant
            pn == perm@.len(),
            pv == perm@,
            bv == base.deep_view(),
            bv.len() == base@.len(),
            forall|j: int| 0 <= j < pv.len() ==> (#[trigger] pv[j]) < base@.len(),
            t <= pn,
            out.deep_view() == spec_sourced_by_perm(bv, pv.take(t as int)),
        decreases pn - t,
    {
        let idx = perm[t];
        let src = &base[idx];
        proof {
            assert(src.deep_view() == bv[idx as int]);
        }
        let copy = SourcedTable {
            rec: clone_record(&src.rec),
            container: src.container.clone(),
            is_vanilla: src.is_vanilla,
        };
        let ghost out0 = out.deep_view();
        out.push(copy);
        proof {
            assert(out.deep_view() =~= out0.push(bv[idx as int]));
            assert(pv.take(t + 1) =~= pv.take(t as int).push(pv[t as int]));
            lemma_sourced_by_perm_snoc(bv, pv.take(t as int), pv[t as int]);
            assert(out0.push(bv[idx as int]) =~= out0 + seq![bv[idx as int]]);
        }
        t += 1;
    }
    proof {
        assert(pv.take(pn as int) =~= pv);
        assert(paths.deep_view() =~~= spec_sourced_paths(bv));
        assert(pv == text::spec_sort_idx(spec_sourced_paths(bv), bv.len() as int));
    }
    out
}

/// Moves all of `src` to the end of `dst`.
fn append_sourced(dst: &mut Vec<SourcedTable>, src: &mut Vec<SourcedTable>)
    ensures
        final(dst).deep_view() == old(dst).deep_view() + old(src).deep_view(),
{
    let n = src.len();
    let base = dst.len();
    let mut i: usize = 0;
    while i < n
        invariant
            n == old(src)@.len(),
            base == old(dst)@.len(),
            i <= n,
            src@.len() == n,
            forall|j: int| 0 <= j < n ==> src@[j].deep_view() == old(src)@[j].deep_view(),
            dst@.len() == base + i,
            forall|j: int| 0 <= j < base ==> dst@[j].deep_view() == old(dst)@[j].deep_view(),
            forall|j: int| 0 <= j < i ==> dst@[base + j].deep_view() == old(src)@[j].deep_view(),
        decreases n - i,
    {
        let item = &src[i];
        let copy = SourcedTable {
            rec: clone_record(&item.rec),
            container: item.container.clone(),
            is_vanilla: item.is_vanilla,
        };
        dst.push(copy);
        i += 1;
    }
    proof {
        assert(dst.deep_view() =~= old(dst).deep_view() + old(src).deep_view());
    }
}

/// Whether the vanilla snapshot must be rebuilt: it is missing, or the
/// game executable is newer than the snapshot (a coarse freshness check
/// that accepts false negatives).
pub fn needs_rebuild(
    snapshot_exists: bool,
    exe_exists: bool,
    exe_created: u64,
    snapshot_modified: u64,
) -> (r: bool)
    ensures
        r == (!snapshot_exists || (exe_exists && exe_created > snapshot_modified)),
{
    !snapshot_exists || (exe_exists && exe_created > snapshot_modified)
}

/// The projection batch of the tables selected by the flag: one
/// create-clear-insert group per table record, in collected order.
pub open spec fn spec_projection_batch(ts: Seq<SourcedTableV>, vanilla_only: bool) -> Seq<u8>
    decreases ts.len(),
{
    if ts.len() == 0 {
        Seq::empty()
    } else {
        let head = ts[0];
        let rest = spec_projection_batch(ts.skip(1), vanilla_only);
        if head.is_vanilla == vanilla_only && head.rec.data is Table {
            crate::sql::spec_project_table_sql(
                head.rec.data->Table_0,
                head.container,
                spec_file_name(head.rec.path),
            ) + rest
        } else {
            rest
        }
    }
}

/// The whole batch that rebuilds the vanilla snapshot: clear every
/// schema object, then project each base table.
pub open spec fn spec_rebuild_batch(ts: Seq<SourcedTableV>) -> Seq<u8> {
    crate::sql::spec_reset_sql() + spec_projection_batch(ts, true)
}

/// Builds the projection batch for one layer.
pub fn build_projection_batch(ts: &Vec<SourcedTable>, vanilla_only: bool) -> (r: Vec<u8>)
    ensures
        r@ == spec_projection_batch(ts.deep_view(), vanilla_only),
{
    let ghost tv = ts.deep_view();
    let n = ts.len();
    let mut r: Vec<u8> = Vec::new();
    let mut i: usize = 0;
    proof {
        assert(tv.skip(0) =~= tv);
        assert(Seq::<u8>::empty() + spec_projection_batch(tv, vanilla_only)
            =~= spec_projection_batch(tv, vanilla_only));
    }
    while i < n
        invariant
            n == ts@.len(),
            tv == ts.deep_view(),
            tv.len() == n,
            i <= n,
            spec_projection_batch(tv, vanilla_only) == r@ + spec_projection_batch(
                tv.skip(i as int),
                vanilla_only,
            ),
        decreases n - i,
    {
        let ghost s = tv.skip(i as int);
        proof {
            assert(s[0] == tv[i as int]);
            assert(s.skip(1) =~= tv.skip(i + 1));
            assert(ts@[i as int].deep_view() == tv[i as int]);
        }
        let item = &ts[i];
        if item.is_vanilla == vanilla_only {
            match &item.rec.data {
                RecordData::Table(table) => {
                    let fname = file_name_of(&item.rec.path);
                    let part = crate::sql::project_table_sql(table, &item.container, &fname);
                    let ghost r0 = r@;
                    text::push_all(&mut r, &part);
                    proof {
                        assert(table.deep_view() == tv[i as int].rec.data->Table_0);
                        assert(r0 + (crate::sql::spec_project_table_sql(
                            s[0].rec.data->Table_0,
                            s[0].container,
                            spec_file_name(s[0].rec.path),
                        ) + spec_projection_batch(s.skip(1), vanilla_only)) =~= r@
                            + spec_projection_batch(tv.skip(i + 1), vanilla_only));
                    }
                },
                _ => {},
            }
        }
        i += 1;
    }
    proof {
        assert(tv.skip(n as int) =~= Seq::<SourcedTableV>::empty());
        assert(r@ + Seq::<u8>::empty() =~= r@);
    }
    r
}

/// Rebuilds the vanilla snapshot store: clears every schema object, then
/// projects each base-sourced table.  The generated batch is a function
/// of the collected tables alone, so rebuilding twice from unchanged
/// sources issues byte-identical statements.
pub fn rebuild_vanilla_snapshot(store: &ProjectionStore, ts: &Vec<SourcedTable>) -> (r: Result<
    (),
    PatchError,
>)
    ensures
        r matches Err(e) ==> e is ScriptFailure,
{
    let mut batch = crate::sql::reset_sql();
    let proj = build_projection_batch(ts, true);
    text::push_all(&mut batch, &proj);
    proof {
        assert(batch@ =~= spec_rebuild_batch(ts.deep_view()));
    }
    store.execute_batch(&batch)
}

/// The prepared batch of one script invocation, if its metadata parses.
pub open spec fn spec_prepared_batch(s: ScriptSourceV, pack_name: Seq<u8>) -> Option<Seq<u8>> {
    match crate::script::spec_parse_script(s.content) {
        Some(p) => Some(crate::script::spec_prepare(p, s.params, pack_name)),
        None => None,
    }
}

/// The projection batches, the prepared script batches and the declared
/// metadata are all functions of the collected inputs alone: identical
/// inputs yield byte-identical statement sequences, so two runs against
/// identical initial stores behave identically on every affected table.
pub proof fn lemma_pipeline_deterministic(
    a: Seq<SourcedTableV>,
    b: Seq<SourcedTableV>,
    s1: Seq<ScriptSourceV>,
    s2: Seq<ScriptSourceV>,
    pack_name: Seq<u8>,
)
    requires
        a == b,
        s1 == s2,
    ensures
        spec_rebuild_batch(a) == spec_rebuild_batch(b),
        spec_projection_batch(a, false) == spec_projection_batch(b, false),
        spec_all_prefixes(s1) == spec_all_prefixes(s2),
        spec_all_created(s1) == spec_all_created(s2),
        forall|i: int|
            0 <= i < s1.len() ==> spec_prepared_batch(#[trigger] s1[i], pack_name)
                == spec_prepared_batch(s2[i], pack_name),
{
}


/// One script invocation: the script file's text and the supplied
/// positional parameters.
#[derive(Debug)]
pub struct ScriptSource {
    pub content: Vec<u8>,
    pub params: Vec<Vec<u8>>,
}

pub struct ScriptSourceV {
    pub content: Seq<u8>,
    pub params: Seq<Seq<u8>>,
}

impl DeepView for ScriptSource {
    type V = ScriptSourceV;

    open spec fn deep_view(&self) -> ScriptSourceV {
        ScriptSourceV { content: self.content@, params: self.params.deep_view() }
    }
}

/// What happened to one script.
#[derive(Debug, Clone, Copy, PartialEq, Eq, Structural)]
pub enum ScriptOutcome {
    Executed,
    ExecutionFailed,
    FormatFailed,
}

/// One declared created table, resolved to a record path.
#[derive(Debug, PartialEq, Eq)]
pub struct CreatedPath {
    pub path: Vec<u8>,
    pub table_name: Vec<u8>,
}

pub struct CreatedPathV {
    pub path: Seq<u8>,
    pub table_name: Seq<u8>,
}

impl DeepView for CreatedPath {
    type V = CreatedPathV;

    open spec fn deep_view(&self) -> CreatedPathV {
        CreatedPathV { path: self.path@, table_name: self.table_name@ }
    }
}

/// The record-path prefix of an affected table name.
pub open spec fn spec_affected_prefix_of(name: Seq<u8>) -> Seq<u8> {
    "db/".spec_bytes() + name + "_tables/".spec_bytes()
}

fn affected_prefix_of(name: &Vec<u8>) -> (r: Vec<u8>)
    ensures
        r@ == spec_affected_prefix_of(name@),
{
    let mut r = text::bytes_of("db/");
    text::push_all(&mut r, name);
    let suffix = text::bytes_of("_tables/");
    text::push_all(&mut r, &suffix);
    proof {
        assert(r@ =~= spec_affected_prefix_of(name@));
    }
    r
}

/// The record path and relational name of a declared created table.
pub open spec fn spec_created_path_of(c: crate::script::CreatedTableV) -> CreatedPathV {
    CreatedPathV {
        path: "db/".spec_bytes() + c.table_name + "_tables/".spec_bytes() + c.file_name,
        table_name: c.table_name + "_tables".spec_bytes(),
    }
}

fn created_path_of(c: &CreatedTable) -> (r: CreatedPath)
    ensures
        r.deep_view() == spec_created_path_of(c.deep_view()),
{
    let mut path = text::bytes_of("db/");
    text::push_all(&mut path, &c.table_name);
    let mid = text::bytes_of("_tables/");
    text::push_all(&mut path, &mid);
    text::push_all(&mut path, &c.file_name);
    let mut table_name = c.table_name.clone();
    let suffix = text::bytes_of("_tables");
    text::push_all(&mut table_name, &suffix);
    proof {
        assert(path@ =~= spec_created_path_of(c.deep_view()).path);
        assert(table_name@ =~= spec_created_path_of(c.deep_view()).table_name);
    }
    CreatedPath { path, table_name }
}

/// The affected prefixes declared by one script; none for a script whose
/// metadata is malformed.
pub open spec fn spec_script_prefixes(s: ScriptSourceV) -> Seq<Seq<u8>> {
    match crate::script::spec_parse_script(s.content) {
        Some(p) => spec_prefixes_of(p.metadata.tables_affected),
        None => Seq::empty(),
    }
}

pub open spec fn spec_prefixes_of(names: Seq<Seq<u8>>) -> Seq<Seq<u8>>
    decreases names.len(),
{
    if names.len() == 0 {
        Seq::empty()
    } else {
        spec_prefixes_of(names.drop_last()).push(spec_affected_prefix_of(names.last()))
    }
}

/// The created tables declared by one script.
pub open spec fn spec_script_created(s: ScriptSourceV) -> Seq<CreatedPathV> {
    match crate::script::spec_parse_script(s.content) {
        Some(p) => spec_created_of(p.metadata.tables_created),
        None => Seq::empty(),
    }
}

pub open spec fn spec_created_of(cs: Seq<crate::script::CreatedTableV>) -> Seq<CreatedPathV>
    decreases cs.len(),
{
    if cs.len() == 0 {
        Seq::empty()
    } else {
        spec_created_of(cs.drop_last()).push(spec_created_path_of(cs.last()))
    }
}

/// The affected prefixes of a whole script list, in declaration order.
pub open spec fn spec_all_prefixes(scripts: Seq<ScriptSourceV>) -> Seq<Seq<u8>>
    decreases scripts.len(),
{
    if scripts.len() == 0 {
        Seq::empty()
    } else {
        spec_all_prefixes(scripts.drop_last()) + spec_script_prefixes(scripts.last())
    }
}

/// The created tables of a whole script list, in declaration order.
pub open spec fn spec_all_created(scripts: Seq<ScriptSourceV>) -> Seq<CreatedPathV>
    decreases scripts.len(),
{
    if scripts.len() == 0 {
        Seq::empty()
    } else {
        spec_all_created(scripts.drop_last()) + spec_script_created(scripts.last())
    }
}

/// Runs every script, strictly in caller order, against the store: the
/// declared metadata is recorded, parameters are bound (defaults for the
/// unsupplied), the batch is substituted and executed.  A parse or
/// execution failure is recorded and the remaining scripts still run.
pub fn run_scripts(
    store: &ProjectionStore,
    scripts: &Vec<ScriptSource>,
    pack_name: &Vec<u8>,
) -> (r: (Vec<ScriptOutcome>, Vec<Vec<u8>>, Vec<CreatedPath>, Vec<Option<Vec<u8>>>))
    ensures
        r.0@.len() == scripts@.len(),
        forall|i: int|
            0 <= i < scripts@.len() ==> ((#[trigger] r.0@[i]) is FormatFailed
                <==> crate::script::spec_parse_script(scripts.deep_view()[i].content) is None),
        r.1.deep_view() =~~= spec_all_prefixes(scripts.deep_view()),
        r.2.deep_view() =~~= spec_all_created(scripts.deep_view()),
        r.3@.len() == scripts@.len(),
        forall|i: int|
            0 <= i < scripts@.len() ==> #[trigger] r.3.deep_view()[i] == spec_prepared_batch(
                scripts.deep_view()[i],
                pack_name@,
            ),
{
    let ghost sv = scripts.deep_view();
    let n = scripts.len();
    let mut outcomes: Vec<ScriptOutcome> = Vec::new();
    let mut prefixes: Vec<Vec<u8>> = Vec::new();
    let mut created: Vec<CreatedPath> = Vec::new();
    let mut batches: Vec<Option<Vec<u8>>> = Vec::new();
    let mut i: usize = 0;
    proof {
        assert(sv.take(0) =~= Seq::<ScriptSourceV>::empty());
        assert(prefixes.deep_view() =~~= spec_all_prefixes(sv.take(0)));
        assert(created.deep_view() =~~= spec_all_created(sv.take(0)));
    }
    while i < n
        invariant
            n == scripts@.len(),
            sv == scripts.deep_view(),
            sv.len() == n,
            i <= n,
            outcomes@.len() == i,
            batches@.len() == i,
            forall|j: int|
                0 <= j < i ==> ((#[trigger] outcomes@[j]) is FormatFailed
                    <==> crate::script::spec_parse_script(sv[j].content) is None),
            forall|j: int|
                0 <= j < i ==> #[trigger] batches.deep_view()[j] == spec_prepared_batch(
                    sv[j],
                    pack_name@,
                ),
            prefixes.deep_view() == spec_all_prefixes(sv.take(i as int)),
            created.deep_view() == spec_all_created(sv.take(i as int)),
        decreases n - i,
    {
        let ghost pre0 = prefixes.deep_view();
        let ghost cre0 = created.deep_view();
        proof {
            assert(sv.take(i + 1).drop_last() =~= sv.take(i as int));
            assert(sv.take(i + 1).last() == sv[i as int]);
            assert(scripts@[i as int].deep_view() == sv[i as int]);
        }
        let src = &scripts[i];
        match crate::script::parse_script(&src.content) {
            Ok(script) => {
                // Record the declared affected tables.
                let ghost names = script.metadata.tables_affected.deep_view();
                let an = script.metadata.tables_affected.len();
                let mut k: usize = 0;
                proof {
                    assert(names.take(0) =~= Seq::<Seq<u8>>::empty());
                    assert(prefixes.deep_view() =~~= pre0 + spec_prefixes_of(names.take(0)));
                }
                while k < an
                    invariant
                        an == script.metadata.tables_affected@.len(),
                        names == script.metadata.tables_affected.deep_view(),
                        names.len() == an,
                        k <= an,
                        prefixes.deep_view() == pre0 + spec_prefixes_of(names.take(k as int)),
                    decreases an - k,
                {
                    let ghost p0 = prefixes.deep_view();
                    let name = &script.metadata.tables_affected[k];
                    proof {
                        assert(name@ =~= names[k as int]);
                    }
                    prefixes.push(affected_prefix_of(name));
                    proof {
                        assert(names.take(k + 1).drop_last() =~= names.take(k as int));
                        assert(names.take(k + 1).last() == names[k as int]);
                        assert(prefixes.deep_view() =~~= p0.push(
                            spec_affected_prefix_of(names[k as int]),
                        ));
                        assert(p0.push(spec_affected_prefix_of(names[k as int])) =~= pre0
                            + spec_prefixes_of(names.take(k + 1)));
                    }
                    k += 1;
                }
                proof {
                    assert(names.take(an as int) =~= names);
                }
                // Record the declared created tables.
                let ghost cs = script.metadata.tables_created.deep_view();
                let cn = script.metadata.tables_created.len();
                let mut k2: usize = 0;
                proof {
                    assert(cs.take(0) =~= Seq::<crate::script::CreatedTableV>::empty());
                    assert(created.deep_view() =~~= cre0 + spec_created_of(cs.take(0)));
                }
                while k2 < cn
                    invariant
                        cn == script.metadata.tables_created@.len(),
                        cs == script.metadata.tables_created.deep_view(),
                        cs.len() == cn,
                        k2 <= cn,
                        created.deep_view() == cre0 + spec_created_of(cs.take(k2 as int)),
                    decreases cn - k2,
                {
                    let ghost c0 = created.deep_view();
                    let c = &script.metadata.tables_created[k2];
                    proof {
                        assert(c.deep_view() == cs[k2 as int]);
                    }
                    created.push(created_path_of(c));
                    proof {
                        assert(cs.take(k2 + 1).drop_last() =~= cs.take(k2 as int));
                        assert(cs.take(k2 + 1).last() == cs[k2 as int]);
                        assert(created.deep_view() =~~= c0.push(
                            spec_created_path_of(cs[k2 as int]),
                        ));
                        assert(c0.push(spec_created_path_of(cs[k2 as int])) =~= cre0
                            + spec_created_of(cs.take(k2 + 1)));
                    }
                    k2 += 1;
                }
                proof {
                    assert(cs.take(cn as int) =~= cs);
                }
                // Bind, substitute and execute the batch.
                let batch = crate::script::prepare_script(&script, &src.params, pack_name);
                match store.execute_batch(&batch) {
                    Ok(()) => {
                        outcomes.push(ScriptOutcome::Executed);
                    },
                    Err(_) => {
                        outcomes.push(ScriptOutcome::ExecutionFailed);
                    },
                }
                let ghost batches0 = batches.deep_view();
                proof {
                    assert(batch.deep_view() =~= batch@);
                    assert(script.deep_view()
                        == crate::script::spec_parse_script(sv[i as int].content)->Some_0);
                    assert(src.params.deep_view() == sv[i as int].params);
                }
                batches.push(Some(batch));
                proof {
                    assert(batches.deep_view() =~~= batches0.push(
                        spec_prepared_batch(sv[i as int], pack_name@),
                    ));
                }
                proof {
                    assert(spec_script_prefixes(sv[i as int]) == spec_prefixes_of(names));
                    assert(spec_script_created(sv[i as int]) == spec_created_of(cs));
                    assert(prefixes.deep_view() =~~= spec_all_prefixes(sv.take(i + 1)));
                    assert(created.deep_view() =~~= spec_all_created(sv.take(i + 1)));
                }
            },
            Err(_) => {
                outcomes.push(ScriptOutcome::FormatFailed);
                let ghost batches0 = batches.deep_view();
                batches.push(None);
                proof {
                    assert(batches.deep_view() =~~= batches0.push(
                        spec_prepared_batch(sv[i as int], pack_name@),
                    ));
                }
                proof {
                    assert(spec_script_prefixes(sv[i as int]) =~= Seq::<Seq<u8>>::empty());
                    assert(spec_script_created(sv[i as int]) =~= Seq::<CreatedPathV>::empty());
                    assert(prefixes.deep_view() =~~= spec_all_prefixes(sv.take(i + 1)));
                    assert(created.deep_view() =~~= spec_all_created(sv.take(i + 1)));
                }
            },
        }
        i += 1;
    }
    proof {
        assert(sv.take(n as int) =~= sv);
    }
    (outcomes, prefixes, created, batches)
}


/// Whether some collected table already sits at the path.
pub open spec fn spec_sourced_has_path(ts: Seq<SourcedTableV>, path: Seq<u8>) -> bool {
    exists|i: int| 0 <= i < ts.len() && (#[trigger] ts[i]).rec.path == path
}

fn sourced_has_path(ts: &Vec<SourcedTable>, path: &Vec<u8>) -> (r: bool)
    ensures
        r == spec_sourced_has_path(ts.deep_view(), path@),
{
    let ghost tv = ts.deep_view();
    let n = ts.len();
    let mut i: usize = 0;
    while i < n
        invariant
            n == ts@.len(),
            tv == ts.deep_view(),
            tv.len() == n,
            i <= n,
            forall|j: int| 0 <= j < i ==> (#[trigger] tv[j]).rec.path != path@,
        decreases n - i,
    {
        proof {
            assert(ts@[i as int].deep_view() == tv[i as int]);
        }
        if text::bytes_eq(&ts[i].rec.path, path) {
            proof {
                assert(tv[i as int].rec.path == path@);
            }
            return true;
        }
        i += 1;
    }
    proof {
        if spec_sourced_has_path(tv, path@) {
            let j = choose|j: int| 0 <= j < tv.len() && (#[trigger] tv[j]).rec.path == path@;
        }
    }
    false
}

/// The first decoded table carrying the relational name, used as the
/// schema donor for a created table.
pub open spec fn spec_find_table_by_name(ts: Seq<SourcedTableV>, name: Seq<u8>) -> Option<TableV>
    decreases ts.len(),
{
    if ts.len() == 0 {
        None
    } else if ts[0].rec.data is Table && ts[0].rec.data->Table_0.table_name == name {
        Some(ts[0].rec.data->Table_0)
    } else {
        spec_find_table_by_name(ts.skip(1), name)
    }
}

fn find_table_by_name(ts: &Vec<SourcedTable>, name: &Vec<u8>) -> (r: Option<RelationalTable>)
    ensures
        match r {
            Some(t) => spec_find_table_by_name(ts.deep_view(), name@) == Some(t.deep_view()),
            None => spec_find_table_by_name(ts.deep_view(), name@) is None,
        },
{
    let ghost tv = ts.deep_view();
    let n = ts.len();
    let mut i: usize = 0;
    proof {
        assert(tv.skip(0) =~= tv);
    }
    while i < n
        invariant
            n == ts@.len(),
            tv == ts.deep_view(),
            tv.len() == n,
            i <= n,
            spec_find_table_by_name(tv, name@) == spec_find_table_by_name(
                tv.skip(i as int),
                name@,
            ),
        decreases n - i,
    {
        proof {
            assert(tv.skip(i as int)[0] == tv[i as int]);
            assert(tv.skip(i as int).skip(1) =~= tv.skip(i + 1));
            assert(ts@[i as int].deep_view() == tv[i as int]);
        }
        match &ts[i].rec.data {
            RecordData::Table(t) => {
                if text::bytes_eq(&t.table_name, name) {
                    return Some(crate::table::clone_table(t));
                }
            },
            _ => {},
        }
        i += 1;
    }
    proof {
        assert(tv.skip(n as int) =~= Seq::<SourcedTableV>::empty());
    }
    None
}

/// The collected list after registering the declared created tables: for
/// each declared table not already present, the schema of an existing
/// same-named table with zero rows, registered at the declared path so
/// it participates in re-extraction.
pub open spec fn spec_register(
    ts: Seq<SourcedTableV>,
    created: Seq<CreatedPathV>,
    reserved_name: Seq<u8>,
) -> Seq<SourcedTableV>
    decreases created.len(),
{
    if created.len() == 0 {
        ts
    } else {
        let c = created[0];
        if spec_sourced_has_path(ts, c.path) {
            spec_register(ts, created.skip(1), reserved_name)
        } else {
            match spec_find_table_by_name(ts, c.table_name) {
                Some(t) => spec_register(
                    ts.push(
                        SourcedTableV {
                            rec: RecordV {
                                path: c.path,
                                data: RecordDataV::Table(TableV { rows: Seq::empty(), ..t }),
                            },
                            container: reserved_name,
                            is_vanilla: false,
                        },
                    ),
                    created.skip(1),
                    reserved_name,
                ),
                None => spec_register(ts, created.skip(1), reserved_name),
            }
        }
    }
}

pub fn register_created_tables(
    ts: &mut Vec<SourcedTable>,
    created: &Vec<CreatedPath>,
    reserved_name: &Vec<u8>,
)
    ensures
        final(ts).deep_view() == spec_register(
            old(ts).deep_view(),
            created.deep_view(),
            reserved_name@,
        ),
{
    let ghost cv = created.deep_view();
    let n = created.len();
    let mut i: usize = 0;
    proof {
        assert(cv.skip(0) =~= cv);
    }
    while i < n
        invariant
            n == created@.len(),
            cv == created.deep_view(),
            cv.len() == n,
            i <= n,
            spec_register(old(ts).deep_view(), cv, reserved_name@) == spec_register(
                ts.deep_view(),
                cv.skip(i as int),
                reserved_name@,
            ),
        decreases n - i,
    {
        let ghost s = cv.skip(i as int);
        proof {
            assert(s[0] == cv[i as int]);
            assert(s.skip(1) =~= cv.skip(i + 1));
            assert(created@[i as int].deep_view() == cv[i as int]);
        }
        let c = &created[i];
        if !sourced_has_path(ts, &c.path) {
            match find_table_by_name(ts, &c.table_name) {
                Some(t) => {
                    let ghost ts0 = ts.deep_view();
                    let empty_table = RelationalTable {
                        table_name: t.table_name,
                        version: t.version,
                        columns: t.columns,
                        rows: Vec::new(),
                    };
                    let entry = SourcedTable {
                        rec: Record {
                            path: c.path.clone(),
                            data: RecordData::Table(empty_table),
                        },
                        container: reserved_name.clone(),
                        is_vanilla: false,
                    };
                    proof {
                        let tv0 = spec_find_table_by_name(ts0, cv[i as int].table_name)->Some_0;
                        assert(entry.deep_view() == SourcedTableV {
                            rec: RecordV {
                                path: cv[i as int].path,
                                data: RecordDataV::Table(TableV { rows: Seq::empty(), ..tv0 }),
                            },
                            container: reserved_name@,
                            is_vanilla: false,
                        }) by {
                            assert(entry.rec.data.deep_view() == RecordDataV::Table(
                                TableV { rows: Seq::empty(), ..tv0 },
                            )) by {
                                assert(empty_table.rows.deep_view() =~= Seq::<Seq<CellV>>::empty());
                            }
                        }
                    }
                    ts.push(entry);
                    proof {
                        assert(ts.deep_view() =~= ts0.push(entry.deep_view()));
                    }
                },
                None => {},
            }
        }
        i += 1;
    }
    proof {
        assert(cv.skip(n as int) =~= Seq::<CreatedPathV>::empty());
    }
}

/// Whether a path falls under any affected prefix.
pub open spec fn spec_matches_any(path: Seq<u8>, prefixes: Seq<Seq<u8>>) -> bool {
    exists|j: int| 0 <= j < prefixes.len() && text::spec_starts_with(
        path,
        #[trigger] prefixes[j],
    )
}

fn matches_any(path: &Vec<u8>, prefixes: &Vec<Vec<u8>>) -> (r: bool)
    ensures
        r == spec_matches_any(path@, prefixes.deep_view()),
{
    let ghost pv = prefixes.deep_view();
    let n = prefixes.len();
    let mut i: usize = 0;
    while i < n
        invariant
            n == prefixes@.len(),
            pv == prefixes.deep_view(),
            pv.len() == n,
            i <= n,
            forall|j: int| 0 <= j < i ==> !text::spec_starts_with(path@, #[trigger] pv[j]),
        decreases n - i,
    {
        proof {
            assert(prefixes@[i as int]@ =~= pv[i as int]);
        }
        if text::starts_with(path, &prefixes[i]) {
            proof {
                assert(text::spec_starts_with(path@, pv[i as int]));
            }
            return true;
        }
        i += 1;
    }
    proof {
        if spec_matches_any(path@, pv) {
            let j = choose|j: int|
                0 <= j < pv.len() && text::spec_starts_with(path@, #[trigger] pv[j]);
        }
    }
    false
}

/// Which collected tables are pulled back from the store: exactly those
/// whose record is a relational table under some affected prefix, each
/// at most once, in collected (ascending path) order.
pub fn extraction_plan(ts: &Vec<SourcedTable>, prefixes: &Vec<Vec<u8>>) -> (r: Vec<usize>)
    ensures
        forall|k: int|
            0 <= k < r@.len() ==> (#[trigger] r@[k]) < ts@.len() && ts.deep_view()[r@[k] as int].rec.data
                is Table && spec_matches_any(
                ts.deep_view()[r@[k] as int].rec.path,
                prefixes.deep_view(),
            ),
        forall|k1: int, k2: int| 0 <= k1 < k2 < r@.len() ==> r@[k1] < r@[k2],
        forall|idx: int|
            0 <= idx < ts@.len() && (#[trigger] ts.deep_view()[idx]).rec.data is Table
                && spec_matches_any(ts.deep_view()[idx].rec.path, prefixes.deep_view())
                ==> text::seq_contains_val(r@, idx),
{
    let ghost tv = ts.deep_view();
    let ghost pv = prefixes.deep_view();
    let n = ts.len();
    let mut out: Vec<usize> = Vec::new();
    let mut i: usize = 0;
    while i < n
        invariant
            n == ts@.len(),
            tv == ts.deep_view(),
            pv == prefixes.deep_view(),
            tv.len() == n,
            i <= n,
            forall|k: int|
                0 <= k < out@.len() ==> (#[trigger] out@[k]) < i && tv[out@[k] as int].rec.data
                    is Table && spec_matches_any(tv[out@[k] as int].rec.path, pv),
            forall|k1: int, k2: int| 0 <= k1 < k2 < out@.len() ==> out@[k1] < out@[k2],
            forall|idx: int|
                0 <= idx < i && (#[trigger] tv[idx]).rec.data is Table && spec_matches_any(
                    tv[idx].rec.path,
                    pv,
                ) ==> text::seq_contains_val(out@, idx),
        decreases n - i,
    {
        proof {
            assert(ts@[i as int].deep_view() == tv[i as int]);
        }
        let is_table = match &ts[i].rec.data {
            RecordData::Table(_) => true,
            _ => false,
        };
        if is_table && matches_any(&ts[i].rec.path, prefixes) {
            let ghost out0 = out@;
            out.push(i);
            proof {
                assert forall|idx: int|
                    0 <= idx < i + 1 && (#[trigger] tv[idx]).rec.data is Table && spec_matches_any(
                        tv[idx].rec.path,
                        pv,
                    ) implies text::seq_contains_val(out@, idx) by {
                    if idx == i {
                        assert(out@[out0.len() as int] == i);
                    } else {
                        assert(text::seq_contains_val(out0, idx));
                        let k = choose|k: int| 0 <= k < out0.len() && out0[k] == idx;
                        assert(out@[k] == idx);
                    }
                }
            }
        }
        i += 1;
    }
    out
}

/// One text cell parsed back to its typed form.
pub open spec fn spec_parse_cell(t: ColType, v: Option<Seq<u8>>) -> Option<CellV> {
    match v {
        None => Some(CellV::Null),
        Some(b) => match t {
            ColType::Integer => match text::spec_parse_i64(b) {
                Some(x) => Some(CellV::Int(x)),
                None => None,
            },
            ColType::Boolean => if b == seq![48u8] {
                Some(CellV::Bool(false))
            } else if b == seq![49u8] {
                Some(CellV::Bool(true))
            } else {
                None
            },
            ColType::Text => Some(CellV::Text(b)),
        },
    }
}

/// One raw row parsed against the declared columns.
pub open spec fn spec_parse_row(
    cols: Seq<crate::table::ColumnDefV>,
    row: Seq<Option<Seq<u8>>>,
    i: int,
) -> Option<Seq<CellV>>
    decreases cols.len() - i,
{
    if i < 0 || i >= cols.len() {
        Some(Seq::empty())
    } else {
        match spec_parse_cell(cols[i].ctype, row[i]) {
            Some(c) => match spec_parse_row(cols, row, i + 1) {
                Some(rest) => Some(seq![c] + rest),
                None => None,
            },
            None => None,
        }
    }
}

/// All raw rows parsed; any ill-typed cell or ill-sized row fails.
pub open spec fn spec_parse_rows(
    cols: Seq<crate::table::ColumnDefV>,
    rows: Seq<Seq<Option<Seq<u8>>>>,
) -> Option<Seq<Seq<CellV>>>
    decreases rows.len(),
{
    if rows.len() == 0 {
        Some(Seq::empty())
    } else if rows[0].len() != cols.len() {
        None
    } else {
        match spec_parse_row(cols, rows[0], 0) {
            Some(r0) => match spec_parse_rows(cols, rows.skip(1)) {
                Some(rest) => Some(seq![r0] + rest),
                None => None,
            },
            None => None,
        }
    }
}

/// Parses the store's raw rows back into typed cells; the result is a
/// function of the raw rows and the declared columns alone.
pub fn parse_rows(
    cols: &Vec<crate::table::ColumnDef>,
    rows: &Vec<Vec<Option<Vec<u8>>>>,
) -> (r: Result<Vec<Vec<Cell>>, PatchError>)
    ensures
        match r {
            Ok(out) => spec_parse_rows(cols.deep_view(), rows.deep_view()) == Some(
                out.deep_view(),
            ),
            Err(e) => spec_parse_rows(cols.deep_view(), rows.deep_view()) is None && e
                is DecodeFailure,
        },
{
    let ghost cv = cols.deep_view();
    let ghost rv = rows.deep_view();
    let n = rows.len();
    let mut out: Vec<Vec<Cell>> = Vec::new();
    let mut i: usize = 0;
    proof {
        assert(rv.skip(0) =~= rv);
    }
    while i < n
        invariant
            n == rows@.len(),
            cv == cols.deep_view(),
            rv == rows.deep_view(),
            rv.len() == n,
            i <= n,
            spec_parse_rows(cv, rv) matches Some(full) ==> (spec_parse_rows(
                cv,
                rv.skip(i as int),
            ) matches Some(rest) && full == out.deep_view() + rest),
            spec_parse_rows(cv, rv) is None ==> spec_parse_rows(cv, rv.skip(i as int)) is None,
        decreases n - i,
    {
        let ghost s = rv.skip(i as int);
        proof {
            assert(s[0] == rv[i as int]);
            assert(s.skip(1) =~= rv.skip(i + 1));
            assert(rows@[i as int].deep_view() =~~= rv[i as int]);
            assert(rows@[i as int].deep_view() == rv[i as int]);
        }
        let raw = &rows[i];
        if raw.len() != cols.len() {
            proof {
                assert(rv[i as int].len() == raw@.len());
            }
            return Err(PatchError::DecodeFailure(text::bytes_of("row width mismatch")));
        }
        let m = cols.len();
        let mut row: Vec<Cell> = Vec::new();
        let mut k: usize = 0;
        let mut failed = false;
        while k < m && !failed
            invariant
                m == cols@.len(),
                cv == cols.deep_view(),
                cv.len() == m,
                raw@.len() == m,
                rv == rows.deep_view(),
                rv.len() == n,
                i < n,
                raw.deep_view() =~~= rv[i as int],
                k <= m,
                !failed ==> (spec_parse_row(cv, rv[i as int], 0) matches Some(full) ==> (
                spec_parse_row(cv, rv[i as int], k as int) matches Some(rest) && full == row.deep_view()
                    + rest)),
                !failed ==> (spec_parse_row(cv, rv[i as int], 0) is None ==> spec_parse_row(
                    cv,
                    rv[i as int],
                    k as int,
                ) is None),
                failed ==> spec_parse_row(cv, rv[i as int], 0) is None,
            decreases m - k,
        {
            proof {
                assert(cols@[k as int].deep_view() == cv[k as int]);
                assert(raw@[k as int].deep_view() =~~= rv[i as int][k as int]);
            }
            let cell_opt: Option<Cell> = match &raw[k] {
                None => Some(Cell::Null),
                Some(b) => {
                    proof {
                        assert(b.deep_view() =~= b@);
                        assert(rv[i as int][k as int] == Some(b@));
                    }
                    match cols[k].ctype {
                        ColType::Integer => match text::parse_i64(b) {
                            Some(x) => Some(Cell::Int(x)),
                            None => None,
                        },
                        ColType::Boolean => {
                            if b.len() == 1 && b[0] == 48 {
                                proof {
                                    assert(b@ =~= seq![48u8]);
                                }
                                Some(Cell::Bool(false))
                            } else if b.len() == 1 && b[0] == 49 {
                                proof {
                                    assert(b@ =~= seq![49u8]);
                                }
                                Some(Cell::Bool(true))
                            } else {
                                proof {
                                    if b@ == seq![48u8] {
                                        assert(b@.len() == 1 && b@[0] == 48);
                                    }
                                    if b@ == seq![49u8] {
                                        assert(b@.len() == 1 && b@[0] == 49);
                                    }
                                }
                                None
                            }
                        },
                        ColType::Text => Some(Cell::Text(b.clone())),
                    }
                },
            };
            proof {
                match spec_parse_cell(cv[k as int].ctype, rv[i as int][k as int]) {
                    Some(c) => {
                        assert(cell_opt matches Some(ec) && ec.deep_view() == c);
                    },
                    None => {
                        assert(cell_opt is None);
                    },
                }
            }
            match cell_opt {
                Some(c) => {
                    let ghost row0 = row.deep_view();
                    row.push(c);
                    proof {
                        let parsed = spec_parse_cell(cv[k as int].ctype, rv[i as int][k as int])->Some_0;
                        assert(row.deep_view() =~= row0.push(parsed));
                        if spec_parse_row(cv, rv[i as int], k as int) matches Some(rk) {
                            assert(spec_parse_row(cv, rv[i as int], k as int) == match spec_parse_row(
                                cv,
                                rv[i as int],
                                k + 1,
                            ) {
                                Some(rest) => Some(seq![parsed] + rest),
                                None => None,
                            });
                            if spec_parse_row(cv, rv[i as int], k + 1) is Some {
                                let rest = spec_parse_row(cv, rv[i as int], k + 1)->Some_0;
                                assert(row0.push(parsed) + rest =~= row0 + (seq![parsed] + rest));
                            }
                        }
                    }
                },
                None => {
                    failed = true;
                },
            }
            k += 1;
        }
        if failed {
            return Err(PatchError::DecodeFailure(text::bytes_of("cell type mismatch")));
        }
        proof {
            assert(spec_parse_row(cv, rv[i as int], m as int) == Some(Seq::<CellV>::empty()));
            if spec_parse_row(cv, rv[i as int], 0) is Some {
                let full = spec_parse_row(cv, rv[i as int], 0)->Some_0;
                assert(row.deep_view() + Seq::<CellV>::empty() =~= row.deep_view());
                assert(full == row.deep_view());
            }
        }
        let ghost out0 = out.deep_view();
        out.push(row);
        proof {
            if spec_parse_rows(cv, rv) matches Some(fullall) {
                if spec_parse_row(cv, rv[i as int], 0) is None {
                    assert(spec_parse_rows(cv, s) is None);
                }
                assert(spec_parse_row(cv, rv[i as int], 0) matches Some(r0));
                let r0 = spec_parse_row(cv, rv[i as int], 0)->Some_0;
                assert(out.deep_view() =~~= out0.push(r0));
                if spec_parse_rows(cv, rv.skip(i + 1)) is Some {
                    let rest = spec_parse_rows(cv, rv.skip(i + 1))->Some_0;
                    assert(out0.push(r0) + rest =~= out0 + (seq![r0] + rest));
                }
            } else {
                if spec_parse_rows(cv, s) is None {
                    if rv[i as int].len() == cv.len() {
                        if spec_parse_row(cv, rv[i as int], 0) is Some {
                            assert(spec_parse_rows(cv, rv.skip(i + 1)) is None);
                        }
                    }
                }
            }
        }
        i += 1;
    }
    proof {
        assert(rv.skip(n as int) =~= Seq::<Seq<Option<Seq<u8>>>>::empty());
        if spec_parse_rows(cv, rv) matches Some(full) {
            assert(out.deep_view() + Seq::<Seq<CellV>>::empty() =~= out.deep_view());
        } else {
            assert(spec_parse_rows(cv, rv.skip(n as int)) is Some);
        }
    }
    Ok(out)
}


/// Projects every table of one layer into the store, one batch per
/// table; a failing table is tolerated and marked, never fatal.
pub fn project_layer(store: &ProjectionStore, ts: &Vec<SourcedTable>, vanilla_only: bool) -> (r:
    Vec<bool>)
    ensures
        r@.len() == ts@.len(),
{
    let n = ts.len();
    let mut statuses: Vec<bool> = Vec::new();
    let mut i: usize = 0;
    while i < n
        invariant
            n == ts@.len(),
            i <= n,
            statuses@.len() == i,
        decreases n - i,
    {
        let item = &ts[i];
        let ok = if item.is_vanilla == vanilla_only {
            match &item.rec.data {
                RecordData::Table(table) => {
                    let fname = file_name_of(&item.rec.path);
                    let batch = crate::sql::project_table_sql(table, &item.container, &fname);
                    match store.execute_batch(&batch) {
                        Ok(()) => true,
                        Err(_) => false,
                    }
                },
                _ => true,
            }
        } else {
            true
        };
        statuses.push(ok);
        i += 1;
    }
    statuses
}

/// Whether the table at a position is due for re-extraction: a
/// relational record under some declared-affected prefix.
pub open spec fn spec_planned(ts: Seq<SourcedTableV>, prefixes: Seq<Seq<u8>>, idx: int) -> bool {
    0 <= idx < ts.len() && ts[idx].rec.data is Table && spec_matches_any(
        ts[idx].rec.path,
        prefixes,
    )
}

/// Whether no later planned table shares the path: extraction walks the
/// list in order, so the last one at a path leaves the surviving record.
pub open spec fn spec_last_at_path(
    ts: Seq<SourcedTableV>,
    prefixes: Seq<Seq<u8>>,
    idx: int,
) -> bool {
    forall|j: int|
        idx < j < ts.len() && #[trigger] spec_planned(ts, prefixes, j) ==> ts[j].rec.path
            != ts[idx].rec.path
}

/// What a successful extraction leaves for one planned table: a
/// relational record with the source table's name, version and columns;
/// its rows are whatever the store's cells parsed to, every row as wide
/// as the declared columns.
pub open spec fn spec_extracted_ok(t: TableV, rec: RecordV) -> bool {
    &&& rec.data is Table
    &&& rec.data->Table_0.table_name == t.table_name
    &&& rec.data->Table_0.version == t.version
    &&& rec.data->Table_0.columns == t.columns
    &&& forall|r: int|
        0 <= r < rec.data->Table_0.rows.len() ==> (#[trigger] rec.data->Table_0.rows[r]).len()
            == t.columns.len()
}

proof fn lemma_parse_row_width(
    cols: Seq<crate::table::ColumnDefV>,
    row: Seq<Option<Seq<u8>>>,
    i: int,
)
    requires
        0 <= i <= cols.len(),
        spec_parse_row(cols, row, i) is Some,
    ensures
        spec_parse_row(cols, row, i)->Some_0.len() == cols.len() - i,
    decreases cols.len() - i,
{
    if i < cols.len() {
        lemma_parse_row_width(cols, row, i + 1);
    }
}

proof fn lemma_parse_rows_widths(cols: Seq<crate::table::ColumnDefV>, rows: Seq<Seq<Option<Seq<u8>>>>)
    requires
        spec_parse_rows(cols, rows) is Some,
    ensures
        forall|r: int|
            0 <= r < spec_parse_rows(cols, rows)->Some_0.len() ==> (#[trigger] spec_parse_rows(
                cols,
                rows,
            )->Some_0[r]).len() == cols.len(),
    decreases rows.len(),
{
    if rows.len() > 0 {
        lemma_parse_rows_widths(cols, rows.skip(1));
        lemma_parse_row_width(cols, rows[0], 0);
        let out = spec_parse_rows(cols, rows)->Some_0;
        let rest = spec_parse_rows(cols, rows.skip(1))->Some_0;
        assert forall|r: int| 0 <= r < out.len() implies (#[trigger] out[r]).len()
            == cols.len() by {
            if r > 0 {
                assert(out[r] == rest[r - 1]);
            }
        }
    }
}

/// Pulls the planned tables back from the store into the override
/// archive: current rows are fetched in insertion order, parsed against
/// the declared columns, and the rebuilt table replaces any prior record
/// at the same path.  Which tables are pulled is a function of the
/// collected list and the prefixes; what their rows hold is the store's
/// to decide.
/// One processed extraction entry, as recorded while the loop walks the
/// plan: the archive holds a relational record at the entry's path, and
/// where no later planned entry shares the path, that record carries the
/// source schema.
#[verifier::opaque]
pub open spec fn spec_entry_extracted(
    ts: Seq<SourcedTableV>,
    pl: Seq<usize>,
    j: int,
    a: ArchiveV,
) -> bool {
    &&& crate::archive::record_at(a, ts[pl[j] as int].rec.path) is Some
    &&& crate::archive::record_at(a, ts[pl[j] as int].rec.path)->Some_0.data is Table
    &&& (forall|j2: int|
        j < j2 < pl.len() ==> ts[(#[trigger] pl[j2]) as int].rec.path != ts[
        pl[j] as int].rec.path) ==> spec_extracted_ok(
        ts[pl[j] as int].rec.data->Table_0,
        crate::archive::record_at(a, ts[pl[j] as int].rec.path)->Some_0,
    )
}

#[verifier::rlimit(100)]
pub fn extract_tables(
    store: &ProjectionStore,
    ts: &Vec<SourcedTable>,
    prefixes: &Vec<Vec<u8>>,
    reserved: &mut Archive,
) -> (r: Result<(), PatchError>)
    requires
        old(reserved).wf(),
    ensures
        final(reserved).wf(),
        final(reserved).deep_view().name == old(reserved).deep_view().name,
        final(reserved).deep_view().kind == old(reserved).deep_view().kind,
        r matches Err(e) ==> (e is ScriptFailure || e is DecodeFailure),
        (forall|idx: int|
            !(#[trigger] spec_planned(ts.deep_view(), prefixes.deep_view(), idx))) ==> (r is Ok
            && final(reserved).deep_view() == old(reserved).deep_view()),
        r is Ok ==> forall|idx: int|
            #[trigger] spec_planned(ts.deep_view(), prefixes.deep_view(), idx) ==> ({
                &&& crate::archive::record_at(
                    final(reserved).deep_view(),
                    ts.deep_view()[idx].rec.path,
                ) matches Some(rec)
                &&& rec.data is Table
                &&& spec_last_at_path(ts.deep_view(), prefixes.deep_view(), idx)
                    ==> spec_extracted_ok(ts.deep_view()[idx].rec.data->Table_0, rec)
            }),
{
    let ghost tsv = ts.deep_view();
    let ghost prev = prefixes.deep_view();
    let plan = extraction_plan(ts, prefixes);
    let ghost pl = plan@;
    let n = plan.len();
    let mut k: usize = 0;
    while k < n
        invariant
            n == plan@.len(),
            pl == plan@,
            tsv == ts.deep_view(),
            prev == prefixes.deep_view(),
            tsv.len() == ts@.len(),
            forall|j: int|
                0 <= j < pl.len() ==> spec_planned(tsv, prev, (#[trigger] pl[j]) as int),
            forall|j1: int, j2: int| 0 <= j1 < j2 < pl.len() ==> pl[j1] < pl[j2],
            forall|idx: int|
                #[trigger] spec_planned(tsv, prev, idx) ==> text::seq_contains_val(pl, idx),
            k <= n,
            reserved.wf(),
            reserved.deep_view().name == old(reserved).deep_view().name,
            reserved.deep_view().kind == old(reserved).deep_view().kind,
            pl.len() == 0 ==> reserved.deep_view() == old(reserved).deep_view(),
            forall|j: int|
                0 <= j < k ==> #[trigger] spec_entry_extracted(tsv, pl, j, reserved.deep_view()),
        decreases n - k,
    {
        let idx = plan[k];
        proof {
            assert(spec_planned(tsv, prev, pl[k as int] as int));
            assert(ts@[idx as int].deep_view() == tsv[idx as int]);
        }
        let item = &ts[idx];
        match &item.rec.data {
            RecordData::Table(table) => {
                let fname = file_name_of(&item.rec.path);
                let sel = crate::sql::select_sql(table, &item.container, &fname);
                let raw = match store.query_rows(&sel) {
                    Ok(raw) => raw,
                    Err(e) => {
                        proof {
                            assert(spec_planned(tsv, prev, pl[k as int] as int));
                        }
                        return Err(e);
                    },
                };
                let rows = match parse_rows(&table.columns, &raw) {
                    Ok(rows) => rows,
                    Err(e) => {
                        proof {
                            assert(spec_planned(tsv, prev, pl[k as int] as int));
                        }
                        return Err(e);
                    },
                };
                let ghost rows_v = rows.deep_view();
                proof {
                    lemma_parse_rows_widths(table.columns.deep_view(), raw.deep_view());
                    let parsed = spec_parse_rows(
                        table.columns.deep_view(),
                        raw.deep_view(),
                    )->Some_0;
                    assert(parsed == rows_v);
                    assert forall|r: int| 0 <= r < rows_v.len() implies (#[trigger] rows_v[r]).len()
                        == table.columns.deep_view().len() by {
                        assert(rows_v[r] == parsed[r]);
                    }
                }
                let rebuilt = RelationalTable {
                    table_name: table.table_name.clone(),
                    version: table.version,
                    columns: crate::table::clone_columns(&table.columns),
                    rows,
                };
                let rec = Record {
                    path: item.rec.path.clone(),
                    data: RecordData::Table(rebuilt),
                };
                let ghost recv = rec.deep_view();
                let ghost before = reserved.deep_view();
                proof {
                    assert(recv.path == tsv[idx as int].rec.path);
                    assert(tsv[idx as int].rec.data->Table_0 == table.deep_view());
                    assert(recv.data->Table_0.rows == rows_v);
                    assert(recv.data->Table_0.columns == table.columns.deep_view());
                    assert(spec_extracted_ok(tsv[idx as int].rec.data->Table_0, recv));
                }
                reserved.insert(rec);
                proof {
                    let now = reserved.deep_view();
                    assert forall|j: int| 0 <= j < k + 1 implies #[trigger] spec_entry_extracted(
                        tsv,
                        pl,
                        j,
                        now,
                    ) by {
                        reveal(spec_entry_extracted);
                        crate::archive::lemma_insert_record_at(
                            before,
                            recv,
                            tsv[pl[j] as int].rec.path,
                        );
                        if j == k {
                            assert(crate::archive::record_at(now, recv.path) == Some(recv));
                        } else {
                            assert(spec_entry_extracted(tsv, pl, j, before));
                            if tsv[pl[j] as int].rec.path == recv.path {
                                assert(crate::archive::record_at(
                                    now,
                                    tsv[pl[j] as int].rec.path,
                                ) == Some(recv));
                                assert(pl[j] < pl[k as int]);
                                assert(!(forall|j2: int|
                                    j < j2 < pl.len() ==> tsv[(#[trigger] pl[j2]) as int].rec.path
                                        != tsv[pl[j] as int].rec.path)) by {
                                    assert(tsv[pl[k as int] as int].rec.path == tsv[
                                    pl[j] as int].rec.path);
                                }
                            }
                        }
                    }
                }
            },
            _ => {
                proof {
                    assert(tsv[idx as int].rec.data is Table);
                    assert(false);
                }
            },
        }
        k += 1;
    }
    proof {
        if forall|idx: int| !(#[trigger] spec_planned(tsv, prev, idx)) {
            assert(pl.len() == 0) by {
                if pl.len() > 0 {
                    assert(spec_planned(tsv, prev, pl[0] as int));
                }
            }
        }
        assert forall|idx: int| #[trigger] spec_planned(tsv, prev, idx) implies ({
            &&& crate::archive::record_at(
                reserved.deep_view(),
                tsv[idx].rec.path,
            ) matches Some(rec)
            &&& rec.data is Table
            &&& spec_last_at_path(tsv, prev, idx) ==> spec_extracted_ok(
                tsv[idx].rec.data->Table_0,
                rec,
            )
        }) by {
            reveal(spec_entry_extracted);
            assert(text::seq_contains_val(pl, idx));
            let j = choose|j: int| 0 <= j < pl.len() && pl[j] == idx;
            assert(spec_entry_extracted(tsv, pl, j, reserved.deep_view()));
            assert(pl[j] as int == idx);
            if spec_last_at_path(tsv, prev, idx) {
                assert forall|j2: int| j < j2 < pl.len() implies tsv[(
                #[trigger] pl[j2]) as int].rec.path != tsv[pl[j] as int].rec.path by {
                    assert(spec_planned(tsv, prev, pl[j2] as int));
                    assert(pl[j] < pl[j2]);
                }
            }
        }
    }
    Ok(())
}

/// Whether some outcome among the first `upto` is a failure.
pub open spec fn spec_any_failed(outcomes: Seq<ScriptOutcome>, upto: int) -> bool {
    exists|j: int| 0 <= j < upto && !((#[trigger] outcomes[j]) is Executed)
}

/// The table list the pipeline re-extracts from: the collected three
/// layers with the scripts' declared created tables registered.
pub open spec fn spec_pipeline_tables(
    vanilla: ArchiveV,
    modded: ArchiveV,
    reserved0: ArchiveV,
    scripts: Seq<ScriptSourceV>,
) -> Seq<SourcedTableV> {
    spec_register(
        spec_collect_tables(vanilla, modded, reserved0),
        spec_all_created(scripts),
        reserved0.name,
    )
}

/// Everything the pipeline promises of one run, relative to the
/// override archive it started from: metadata-failure accounting,
/// fail-at-end, and the re-extraction membership rule.
pub open spec fn spec_pipeline_post(
    vanilla: ArchiveV,
    modded: ArchiveV,
    reserved0: ArchiveV,
    scripts: Seq<ScriptSourceV>,
    outcomes: Seq<ScriptOutcome>,
    ok: bool,
    finalv: ArchiveV,
) -> bool {
    &&& finalv.name == reserved0.name
    &&& finalv.kind == reserved0.kind
    &&& outcomes.len() == scripts.len()
    &&& forall|i: int|
        0 <= i < scripts.len() ==> ((#[trigger] outcomes[i]) is FormatFailed
            <==> crate::script::spec_parse_script(scripts[i].content) is None)
    &&& spec_any_failed(outcomes, outcomes.len() as int) ==> !ok
    &&& ok ==> forall|i: int| 0 <= i < outcomes.len() ==> (#[trigger] outcomes[i]) is Executed
    &&& scripts.len() == 0 ==> (ok && finalv == reserved0)
    &&& ok ==> forall|idx: int|
        #[trigger] spec_planned(
            spec_pipeline_tables(vanilla, modded, reserved0, scripts),
            spec_all_prefixes(scripts),
            idx,
        ) ==> ({
            let ts = spec_pipeline_tables(vanilla, modded, reserved0, scripts);
            &&& crate::archive::record_at(finalv, ts[idx].rec.path) matches Some(rec)
            &&& rec.data is Table
            &&& spec_last_at_path(ts, spec_all_prefixes(scripts), idx) ==> spec_extracted_ok(
                ts[idx].rec.data->Table_0,
                rec,
            )
        })
}

/// The whole patch pipeline over an open working store: project the
/// layers, run every script in caller order, register declared created
/// tables, and re-extract every affected table into the override
/// archive.  Per-script failures are accumulated: the pipeline result is
/// an error exactly when something failed, but only after every script
/// has been attempted.
pub fn apply_patch_pipeline(
    store: &ProjectionStore,
    vanilla: &Archive,
    modded: &Archive,
    reserved: &mut Archive,
    scripts: &Vec<ScriptSource>,
    project_vanilla: bool,
) -> (r: (Vec<ScriptOutcome>, Result<(), PatchError>))
    requires
        old(reserved).wf(),
    ensures
        final(reserved).wf(),
        final(reserved).deep_view().name == old(reserved).deep_view().name,
        final(reserved).deep_view().kind == old(reserved).deep_view().kind,
        spec_pipeline_post(
            vanilla.deep_view(),
            modded.deep_view(),
            old(reserved).deep_view(),
            scripts.deep_view(),
            r.0@,
            r.1 is Ok,
            final(reserved).deep_view(),
        ),
{
    let mut tables = collect_pipeline_tables(vanilla, modded, reserved);
    if project_vanilla {
        let _ = project_layer(store, &tables, true);
    }
    let _ = project_layer(store, &tables, false);
    let pack_name = reserved.name.clone();
    let (outcomes, prefixes, created, _batches) = run_scripts(store, scripts, &pack_name);
    register_created_tables(&mut tables, &created, &pack_name);
    let ghost ts2 = spec_pipeline_tables(
        vanilla.deep_view(),
        modded.deep_view(),
        old(reserved).deep_view(),
        scripts.deep_view(),
    );
    let ghost prefv = spec_all_prefixes(scripts.deep_view());
    proof {
        assert(tables.deep_view() == ts2);
        assert(prefixes.deep_view() == prefv);
        if scripts@.len() == 0 {
            assert(scripts.deep_view().len() == 0);
            assert(prefv =~= Seq::<Seq<u8>>::empty());
            assert(forall|idx: int| !(#[trigger] spec_planned(ts2, prefv, idx)));
        }
    }
    match extract_tables(store, &tables, &prefixes, reserved) {
        Ok(()) => {},
        Err(e) => {
            proof {
                if scripts@.len() == 0 {
                    assert(false);
                }
            }
            return (outcomes, Err(e));
        },
    }
    let n = outcomes.len();
    let mut any_failed = false;
    let mut i: usize = 0;
    while i < n
        invariant
            n == outcomes@.len(),
            i <= n,
            any_failed == spec_any_failed(outcomes@, i as int),
        decreases n - i,
    {
        match outcomes[i] {
            ScriptOutcome::Executed => {
                proof {
                    assert(spec_any_failed(outcomes@, i + 1) == spec_any_failed(
                        outcomes@,
                        i as int,
                    )) by {
                        if spec_any_failed(outcomes@, i + 1) {
                            let j = choose|j: int|
                                0 <= j < i + 1 && !((#[trigger] outcomes@[j]) is Executed);
                            assert(j < i);
                        }
                    }
                }
            },
            _ => {
                any_failed = true;
                proof {
                    assert(!(outcomes@[i as int] is Executed));
                }
            },
        }
        i += 1;
    }
    if any_failed {
        (
            outcomes,
            Err(PatchError::ScriptFailure(text::bytes_of("at least one script failed"))),
        )
    } else {
        proof {
            assert forall|j: int| 0 <= j < outcomes@.len() implies (#[trigger] outcomes@[j])
                is Executed by {
                if !(outcomes@[j] is Executed) {
                    assert(spec_any_failed(outcomes@, n as int));
                }
            }
        }
        (outcomes, Ok(()))
    }
}

} // verus!
