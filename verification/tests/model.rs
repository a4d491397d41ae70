//! Model-level behavior: parsing, sorting and the extraction plan.

use twpatcher::archive::{Archive, ArchiveKind, Record, RecordData};
use twpatcher::error::PatchError;
use twpatcher::pipeline::{collect_pipeline_tables, extraction_plan, parse_rows, run_scripts};
use twpatcher::store::ProjectionStore;
use twpatcher::table::{Cell, ColType, ColumnDef};
use twpatcher::text::{i64_to_dec, parse_i64, parse_u64, replace_all, sort_indices, u64_to_dec};

#[test]
fn decimal_parsing_round_trips() {
    assert_eq!(parse_u64(&b"0".to_vec()), Some(0));
    assert_eq!(parse_u64(&b"18446744073709551615".to_vec()), Some(u64::MAX));
    assert_eq!(parse_u64(&b"18446744073709551616".to_vec()), None);
    assert_eq!(parse_u64(&b"".to_vec()), None);
    assert_eq!(parse_u64(&b"12x".to_vec()), None);
    assert_eq!(u64_to_dec(907), b"907".to_vec());
    assert_eq!(i64_to_dec(-35), b"-35".to_vec());
    assert_eq!(i64_to_dec(i64::MIN), b"-9223372036854775808".to_vec());
    assert_eq!(parse_i64(&b"-35".to_vec()), Some(-35));
    assert_eq!(parse_i64(&b"-9223372036854775808".to_vec()), Some(i64::MIN));
    assert_eq!(parse_i64(&b"-9223372036854775809".to_vec()), None);
}

#[test]
fn replace_all_is_left_to_right() {
    assert_eq!(
        replace_all(&b"aaa".to_vec(), &b"aa".to_vec(), &b"b".to_vec()),
        b"ba".to_vec()
    );
    assert_eq!(
        replace_all(&b"xyx".to_vec(), &b"x".to_vec(), &b"xx".to_vec()),
        b"xxyxx".to_vec()
    );
}

#[test]
fn sort_is_stable_on_equal_keys() {
    let keys = vec![b"b".to_vec(), b"a".to_vec(), b"b".to_vec(), b"a".to_vec()];
    let order = sort_indices(&keys);
    assert_eq!(order, vec![1, 3, 0, 2]);
}

#[test]
fn parse_rows_reports_type_mismatches() {
    let cols = vec![
        ColumnDef { name: b"n".to_vec(), ctype: ColType::Integer },
        ColumnDef { name: b"b".to_vec(), ctype: ColType::Boolean },
    ];
    let good = vec![vec![Some(b"42".to_vec()), Some(b"1".to_vec())], vec![None, Some(b"0".to_vec())]];
    assert_eq!(
        parse_rows(&cols, &good).unwrap(),
        vec![
            vec![Cell::Int(42), Cell::Bool(true)],
            vec![Cell::Null, Cell::Bool(false)],
        ]
    );
    let bad_int = vec![vec![Some(b"notanumber".to_vec()), Some(b"1".to_vec())]];
    match parse_rows(&cols, &bad_int) {
        Err(PatchError::DecodeFailure(_)) => {},
        other => panic!("expected a decode failure, got {:?}", other),
    }
    let bad_width = vec![vec![Some(b"1".to_vec())]];
    assert!(parse_rows(&cols, &bad_width).is_err());
}

#[test]
fn extraction_plan_selects_affected_tables_once() {
    let table = |path: &[u8]| Record {
        path: path.to_vec(),
        data: RecordData::Table(twpatcher::table::RelationalTable {
            table_name: b"t".to_vec(),
            version: 0,
            columns: vec![],
            rows: vec![],
        }),
    };
    let vanilla = Archive {
        name: b"v.pack".to_vec(),
        kind: ArchiveKind::Release,
        records: vec![table(b"db/foo_tables/one"), table(b"db/bar_tables/two")],
    };
    let modded = Archive { name: b"m.pack".to_vec(), kind: ArchiveKind::Mod, records: vec![] };
    let reserved = Archive::new(b"o.pack".to_vec(), ArchiveKind::Movie);
    let collected = collect_pipeline_tables(&vanilla, &modded, &reserved);
    let prefixes = vec![b"db/foo_tables/".to_vec(), b"db/foo_tables/".to_vec()];
    let plan = extraction_plan(&collected, &prefixes);
    // Both scripts declared the same table family; it is planned once.
    assert_eq!(plan.len(), 1);
    let idx = plan[0];
    assert!(collected[idx].rec.path.starts_with(b"db/foo_tables/"));
}

#[test]
fn execution_failure_is_recorded_per_script() {
    let store = ProjectionStore::in_memory().unwrap();
    let mut bad_sql = Vec::new();
    bad_sql.extend_from_slice(b"-- metadata start\n");
    bad_sql.extend_from_slice(b"-- metadata end\n");
    bad_sql.extend_from_slice(b"THIS IS NOT SQL;\n");
    let scripts = vec![twpatcher::pipeline::ScriptSource { content: bad_sql, params: vec![] }];
    let (outcomes, _prefixes, _created, batches) =
        run_scripts(&store, &scripts, &b"p.pack".to_vec());
    assert_eq!(batches, vec![Some(b"THIS IS NOT SQL;\n".to_vec())]);
    assert_eq!(outcomes, vec![twpatcher::pipeline::ScriptOutcome::ExecutionFailed]);
}
