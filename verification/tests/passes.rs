//! Per-title passes, SQL text generation and the updater logic.

use twpatcher::archive::{Archive, ArchiveKind, Record, RecordData};
use twpatcher::dev_ui::{patch_ui_text, prepare_dev_ui};
use twpatcher::games::{
    dependency_entries, init_reserved_pack, patch_video_table, prepare_script_logging,
    prepare_skip_intro_videos, reserved_pack_name, uses_old_multilanguage_logic, GameKind,
    EMPTY_BIK, EMPTY_CA_VP8,
};
use twpatcher::sql::{cell_literal, create_sql, project_table_sql, quote_ident, quote_text};
use twpatcher::table::{Cell, ColType, ColumnDef, RelationalTable};
use twpatcher::updater::{
    check_update, parse_version, release_matches_channel, select_release, update_channel,
    APIResponse, UpdateChannel, Version,
};

#[test]
fn reserved_pack_names_differ_per_title() {
    assert_eq!(
        reserved_pack_name(GameKind::Warhammer2),
        b"zzzzzzzzzzzzzzzzzzzzrun_you_fool_thron.pack".to_vec()
    );
    assert_eq!(
        reserved_pack_name(GameKind::Shogun2),
        b"!!!!!!!!!!!!!!!!!!!!!run_you_fool_thron.pack".to_vec()
    );
    let reserved = init_reserved_pack(GameKind::Attila);
    assert_eq!(reserved.kind, ArchiveKind::Movie);
    assert!(reserved.records.is_empty());
}

#[test]
fn legacy_format_is_an_identity_lookup() {
    assert!(uses_old_multilanguage_logic(GameKind::Empire));
    assert!(uses_old_multilanguage_logic(GameKind::Attila));
    assert!(!uses_old_multilanguage_logic(GameKind::Warhammer2));
    assert!(!uses_old_multilanguage_logic(GameKind::Pharaoh));
}

#[test]
fn dependency_entries_carry_file_names() {
    let paths = vec![b"/data/a.pack".to_vec(), b"/ws/b.pack".to_vec()];
    let hard = dependency_entries(&paths, GameKind::Warhammer2);
    assert_eq!(hard.len(), 2);
    assert!(hard[0].hard);
    assert_eq!(hard[0].name, b"a.pack".to_vec());
    assert_eq!(hard[1].name, b"b.pack".to_vec());
    let soft = dependency_entries(&paths, GameKind::Empire);
    assert!(!soft[0].hard);
}

#[test]
fn script_logging_writes_the_activator() {
    let mut reserved = init_reserved_pack(GameKind::Troy);
    prepare_script_logging(GameKind::Troy, &mut reserved);
    assert_eq!(reserved.records.len(), 1);
    assert_eq!(reserved.records[0].path, b"script/enable_console_logging".to_vec());
    assert_eq!(
        reserved.records[0].data,
        RecordData::Opaque(b"why not working?!!".to_vec())
    );
    let mut untouched = init_reserved_pack(GameKind::Empire);
    prepare_script_logging(GameKind::Empire, &mut untouched);
    assert!(untouched.records.is_empty());
}

#[test]
fn intro_stubs_are_written_for_simple_titles() {
    let mut reserved = init_reserved_pack(GameKind::Attila);
    prepare_skip_intro_videos(GameKind::Attila, &mut reserved);
    assert_eq!(reserved.records.len(), 2);
    assert_eq!(reserved.records[0].path, b"movies/intro.ca_vp8".to_vec());
    assert_eq!(reserved.records[0].data, RecordData::Opaque(EMPTY_CA_VP8.to_vec()));
    let mut napoleon = init_reserved_pack(GameKind::Napoleon);
    prepare_skip_intro_videos(GameKind::Napoleon, &mut napoleon);
    assert_eq!(napoleon.records.len(), 3);
    assert_eq!(napoleon.records[0].data, RecordData::Opaque(EMPTY_BIK.to_vec()));
}

fn videos_table() -> RelationalTable {
    RelationalTable {
        table_name: b"videos_tables".to_vec(),
        version: 2,
        columns: vec![ColumnDef { name: b"video_name".to_vec(), ctype: ColType::Text }],
        rows: vec![
            vec![Cell::Text(b"startup_movie_01".to_vec())],
            vec![Cell::Text(b"campaign_intro".to_vec())],
        ],
    }
}

#[test]
fn straight_replacement_edit_blanks_intro_rows() {
    let patched = patch_video_table(GameKind::Troy, &videos_table());
    assert_eq!(patched.rows[0], vec![Cell::Text(b"dummy".to_vec())]);
    assert_eq!(patched.rows[1], vec![Cell::Text(b"campaign_intro".to_vec())]);
}

#[test]
fn append_edit_suffixes_intro_rows() {
    let patched = patch_video_table(GameKind::Pharaoh, &videos_table());
    assert_eq!(patched.rows[0], vec![Cell::Text(b"startup_movie_01dummy".to_vec())]);
    assert_eq!(patched.rows[1], vec![Cell::Text(b"campaign_intro".to_vec())]);
}

#[test]
fn dev_ui_rewrite_flips_markers() {
    let input = b"<a is_dev_only=\"true\" visible=\"false\"/> RunCLI <b visible=\"false\"/>"
        .to_vec();
    let out = patch_ui_text(&input).expect("marked file is rewritten");
    assert_eq!(
        out,
        b"<a is_dev_only=\"false\" visible=\"true\"/> CliExecute <b visible=\"false\"/>".to_vec()
    );
    assert!(patch_ui_text(&b"nothing marked here".to_vec()).is_none());
}

#[test]
fn dev_ui_pass_writes_rewritten_files() {
    let vanilla = Archive {
        name: b"v.pack".to_vec(),
        kind: ArchiveKind::Release,
        records: vec![
            Record {
                path: b"ui/menu.xml".to_vec(),
                data: RecordData::Opaque(b"x is_dev_only=\"true\" y".to_vec()),
            },
            Record {
                path: b"ui/plain.xml".to_vec(),
                data: RecordData::Opaque(b"no marker".to_vec()),
            },
        ],
    };
    let modded = Archive { name: b"m.pack".to_vec(), kind: ArchiveKind::Mod, records: vec![] };
    let mut reserved = init_reserved_pack(GameKind::Warhammer2);
    prepare_dev_ui(true, &mut reserved, &vanilla, &modded);
    assert_eq!(reserved.records.len(), 1);
    assert_eq!(reserved.records[0].path, b"ui/menu.xml".to_vec());
    assert_eq!(
        reserved.records[0].data,
        RecordData::Opaque(b"x is_dev_only=\"false\" y".to_vec())
    );
    let mut untouched = init_reserved_pack(GameKind::Warhammer2);
    prepare_dev_ui(false, &mut untouched, &vanilla, &modded);
    assert!(untouched.records.is_empty());
}

#[test]
fn sql_quoting_doubles_quotes() {
    assert_eq!(quote_ident(&b"plain".to_vec()), b"\"plain\"".to_vec());
    assert_eq!(quote_ident(&b"we\"ird".to_vec()), b"\"we\"\"ird\"".to_vec());
    assert_eq!(quote_text(&b"it's".to_vec()), b"'it''s'".to_vec());
    assert_eq!(cell_literal(&Cell::Null), b"NULL".to_vec());
    assert_eq!(cell_literal(&Cell::Bool(true)), b"1".to_vec());
    assert_eq!(cell_literal(&Cell::Int(-42)), b"-42".to_vec());
    assert_eq!(cell_literal(&Cell::Text(b"v".to_vec())), b"'v'".to_vec());
}

#[test]
fn projection_sql_has_identity_columns() {
    let t = videos_table();
    let create = create_sql(&t);
    assert_eq!(
        create,
        b"CREATE TABLE IF NOT EXISTS \"videos_tables\" (\"__container\" TEXT, \"__file\" TEXT, \"video_name\" TEXT);\n"
            .to_vec()
    );
    let batch = project_table_sql(&t, &b"pack.pack".to_vec(), &b"file".to_vec());
    let text = String::from_utf8(batch).unwrap();
    assert!(text.starts_with("CREATE TABLE IF NOT EXISTS \"videos_tables\""));
    assert!(text.contains("DELETE FROM \"videos_tables\" WHERE \"__container\" = 'pack.pack'"));
    assert!(text.contains("INSERT INTO \"videos_tables\" VALUES ('pack.pack', 'file', 'startup_movie_01');"));
}

#[test]
fn update_channel_is_stable() {
    assert_eq!(update_channel(), UpdateChannel::Stable);
}

#[test]
fn version_strings_parse_with_zero_fallback() {
    let v = parse_version(&b"1.2.3".to_vec());
    assert_eq!(v, Version { major: 1, minor: 2, patch: 3 });
    let partial = parse_version(&b"2.x".to_vec());
    assert_eq!(partial, Version { major: 2, minor: 0, patch: 0 });
}

#[test]
fn update_decisions_follow_the_version_order() {
    let cur = Version { major: 1, minor: 2, patch: 3 };
    assert_eq!(
        check_update(cur, Version { major: 2, minor: 0, patch: 0 }, UpdateChannel::Stable),
        APIResponse::NewStableUpdate(b"v2.0.0".to_vec())
    );
    assert_eq!(
        check_update(cur, Version { major: 1, minor: 3, patch: 0 }, UpdateChannel::Beta),
        APIResponse::NewBetaUpdate(b"v1.3.0".to_vec())
    );
    assert_eq!(
        check_update(cur, Version { major: 1, minor: 2, patch: 4 }, UpdateChannel::Stable),
        APIResponse::NewUpdateHotfix(b"v1.2.4".to_vec())
    );
    assert_eq!(
        check_update(cur, Version { major: 1, minor: 2, patch: 3 }, UpdateChannel::Stable),
        APIResponse::NoUpdate
    );
    assert_eq!(
        check_update(cur, Version { major: 1, minor: 1, patch: 9 }, UpdateChannel::Stable),
        APIResponse::NoUpdate
    );
    assert_eq!(
        check_update(cur, Version { major: 0, minor: 0, patch: 0 }, UpdateChannel::Stable),
        APIResponse::UnknownVersion
    );
    // A beta build going back to stable always takes the latest stable.
    let beta_build = Version { major: 1, minor: 2, patch: 99 };
    assert_eq!(
        check_update(beta_build, Version { major: 1, minor: 2, patch: 5 }, UpdateChannel::Stable),
        APIResponse::NewStableUpdate(b"v1.2.5".to_vec())
    );
}

#[test]
fn stable_channel_skips_beta_releases() {
    assert!(release_matches_channel(0, UpdateChannel::Stable));
    assert!(!release_matches_channel(99, UpdateChannel::Stable));
    assert!(release_matches_channel(99, UpdateChannel::Beta));
    let releases = vec![
        Version { major: 2, minor: 0, patch: 99 },
        Version { major: 1, minor: 9, patch: 0 },
    ];
    assert_eq!(
        select_release(&releases, UpdateChannel::Stable),
        Some(Version { major: 1, minor: 9, patch: 0 })
    );
    assert_eq!(
        select_release(&releases, UpdateChannel::Beta),
        Some(Version { major: 2, minor: 0, patch: 99 })
    );
}
