//! Pipeline scenarios against a real in-memory store.

use twpatcher::archive::{Archive, ArchiveKind, Record, RecordData};
use twpatcher::pipeline::{
    apply_patch_pipeline, build_projection_batch, collect_pipeline_tables, needs_rebuild,
    rebuild_vanilla_snapshot, ScriptOutcome, ScriptSource,
};
use twpatcher::store::ProjectionStore;
use twpatcher::table::{Cell, ColType, ColumnDef, RelationalTable};

fn foo_table(rows: Vec<Vec<Cell>>) -> RelationalTable {
    RelationalTable {
        table_name: b"foo_tables".to_vec(),
        version: 1,
        columns: vec![
            ColumnDef { name: b"key".to_vec(), ctype: ColType::Text },
            ColumnDef { name: b"value".to_vec(), ctype: ColType::Integer },
        ],
        rows,
    }
}

fn vanilla_archive() -> Archive {
    let table = foo_table(vec![
        vec![Cell::Text(b"base".to_vec()), Cell::Int(7)],
    ]);
    Archive {
        name: b"vanilla.pack".to_vec(),
        kind: ArchiveKind::Release,
        records: vec![Record {
            path: b"db/foo_tables/data__".to_vec(),
            data: RecordData::Table(table),
        }],
    }
}

fn empty_archive(name: &[u8]) -> Archive {
    Archive { name: name.to_vec(), kind: ArchiveKind::Mod, records: Vec::new() }
}

fn reserved_archive() -> Archive {
    Archive::new(b"override.pack".to_vec(), ArchiveKind::Movie)
}

fn creating_script() -> Vec<u8> {
    let mut s = Vec::new();
    s.extend_from_slice(b"-- metadata start\n");
    s.extend_from_slice(b"-- affected foo\n");
    s.extend_from_slice(b"-- created foo test_foo\n");
    s.extend_from_slice(b"-- param start 1\n");
    s.extend_from_slice(b"-- metadata end\n");
    s.extend_from_slice(
        b"INSERT INTO \"foo_tables\" VALUES ('$pack_name$', 'test_foo', 'a', $start$);\n",
    );
    s.extend_from_slice(
        b"INSERT INTO \"foo_tables\" VALUES ('$pack_name$', 'test_foo', 'b', 2);\n",
    );
    s
}

fn updating_script() -> Vec<u8> {
    let mut s = Vec::new();
    s.extend_from_slice(b"-- metadata start\n");
    s.extend_from_slice(b"-- affected foo\n");
    s.extend_from_slice(b"-- metadata end\n");
    s.extend_from_slice(
        b"UPDATE \"foo_tables\" SET \"value\" = \"value\" + 10 WHERE \"key\" = 'a';\n",
    );
    s
}

fn extracted_foo(reserved: &Archive) -> Option<&RelationalTable> {
    for rec in &reserved.records {
        if rec.path == b"db/foo_tables/test_foo".to_vec() {
            if let RecordData::Table(t) = &rec.data {
                return Some(t);
            }
        }
    }
    None
}

#[test]
fn sequential_scripts_share_the_store() {
    // One script creates a table with two rows, the next updates a row
    // the first inserted: the extracted table reflects both edits.
    let store = ProjectionStore::in_memory().unwrap();
    let vanilla = vanilla_archive();
    let modded = empty_archive(b"mods.pack");
    let mut reserved = reserved_archive();
    let scripts = vec![
        ScriptSource {
            content: creating_script(),
            params: vec![b"1".to_vec()],
        },
        ScriptSource { content: updating_script(), params: vec![] },
    ];
    let (outcomes, result) =
        apply_patch_pipeline(&store, &vanilla, &modded, &mut reserved, &scripts, true);
    assert_eq!(outcomes, vec![ScriptOutcome::Executed, ScriptOutcome::Executed]);
    assert!(result.is_ok());
    let foo = extracted_foo(&reserved).expect("created table extracted");
    assert_eq!(
        foo.rows,
        vec![
            vec![Cell::Text(b"a".to_vec()), Cell::Int(11)],
            vec![Cell::Text(b"b".to_vec()), Cell::Int(2)],
        ]
    );
}

#[test]
fn format_failure_still_extracts_later_scripts() {
    // The first script's metadata block is malformed; the second still
    // runs and its effects are re-extracted, but the pipeline call
    // itself reports an error.
    let store = ProjectionStore::in_memory().unwrap();
    let vanilla = vanilla_archive();
    let modded = empty_archive(b"mods.pack");
    let mut reserved = reserved_archive();
    let mut malformed = Vec::new();
    malformed.extend_from_slice(b"-- metadata start\n");
    malformed.extend_from_slice(b"-- affected\n");
    malformed.extend_from_slice(b"-- metadata end\n");
    let scripts = vec![
        ScriptSource { content: malformed, params: vec![] },
        ScriptSource {
            content: creating_script(),
            params: vec![b"5".to_vec()],
        },
    ];
    let (outcomes, result) =
        apply_patch_pipeline(&store, &vanilla, &modded, &mut reserved, &scripts, true);
    assert_eq!(outcomes[0], ScriptOutcome::FormatFailed);
    assert_eq!(outcomes[1], ScriptOutcome::Executed);
    assert!(result.is_err());
    let foo = extracted_foo(&reserved).expect("second script's table extracted");
    assert_eq!(
        foo.rows,
        vec![
            vec![Cell::Text(b"a".to_vec()), Cell::Int(5)],
            vec![Cell::Text(b"b".to_vec()), Cell::Int(2)],
        ]
    );
}

#[test]
fn identical_runs_give_identical_rows() {
    // Re-running an identical script set against an identical initial
    // store yields identical final rows for the affected tables.
    let mut results = Vec::new();
    for _ in 0..2 {
        let store = ProjectionStore::in_memory().unwrap();
        let vanilla = vanilla_archive();
        let modded = empty_archive(b"mods.pack");
        let mut reserved = reserved_archive();
        let scripts = vec![
            ScriptSource {
                content: creating_script(),
                params: vec![b"3".to_vec()],
            },
            ScriptSource { content: updating_script(), params: vec![] },
        ];
        let (_, result) =
            apply_patch_pipeline(&store, &vanilla, &modded, &mut reserved, &scripts, true);
        assert!(result.is_ok());
        results.push(reserved);
    }
    assert_eq!(results[0], results[1]);
}

#[test]
fn rebuild_batch_is_byte_identical() {
    // Building the snapshot batch twice from unchanged sources issues
    // byte-identical statements.
    let vanilla = vanilla_archive();
    let modded = empty_archive(b"mods.pack");
    let reserved = reserved_archive();
    let tables1 = collect_pipeline_tables(&vanilla, &modded, &reserved);
    let tables2 = collect_pipeline_tables(&vanilla, &modded, &reserved);
    let batch1 = build_projection_batch(&tables1, true);
    let batch2 = build_projection_batch(&tables2, true);
    assert_eq!(batch1, batch2);
    assert!(!batch1.is_empty());
}

#[test]
fn snapshot_is_not_rebuilt_without_timestamp_change() {
    // With the snapshot present and the executable no newer, no rebuild
    // happens, so the stored bytes stay untouched.
    assert!(!needs_rebuild(true, true, 1000, 1000));
    assert!(!needs_rebuild(true, true, 900, 1000));
    assert!(needs_rebuild(true, true, 1001, 1000));
    assert!(needs_rebuild(false, true, 0, 0));
    assert!(!needs_rebuild(true, false, 5000, 0));
}

#[test]
fn snapshot_rebuild_runs_on_a_store() {
    let store = ProjectionStore::in_memory().unwrap();
    let vanilla = vanilla_archive();
    let modded = empty_archive(b"mods.pack");
    let reserved = reserved_archive();
    let tables = collect_pipeline_tables(&vanilla, &modded, &reserved);
    assert!(rebuild_vanilla_snapshot(&store, &tables).is_ok());
    // The base table is queryable afterwards.
    let rows = store
        .query_rows(&b"SELECT CAST(\"value\" AS TEXT) FROM \"foo_tables\" ORDER BY rowid;".to_vec())
        .unwrap();
    assert_eq!(rows, vec![vec![Some(b"7".to_vec())]]);
}
