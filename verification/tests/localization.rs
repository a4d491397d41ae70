//! Localization merge scenarios.

use twpatcher::archive::{Archive, ArchiveKind, Record, RecordData};
use twpatcher::loc::{first_wins, merge_tables, LocEntry, LocTable};
use twpatcher::translate::{
    collect_pack_loc_rows, optimize, prepare_translations, restore, rows_from_units,
    translated_path, PackTranslationInput, TranslationUnit,
};

fn entry(key: &[u8], value: &[u8]) -> LocEntry {
    LocEntry { key: key.to_vec(), value: value.to_vec(), flag: false }
}

fn keys_of(rows: &[LocEntry]) -> Vec<Vec<u8>> {
    let mut ks: Vec<Vec<u8>> = rows.iter().map(|e| e.key.clone()).collect();
    ks.sort();
    ks.dedup();
    ks
}

#[test]
fn merge_disjoint_sizes_add_up() {
    let a = LocTable { entries: vec![entry(b"k1", b"v1"), entry(b"k2", b"v2")] };
    let b = LocTable { entries: vec![entry(b"k3", b"v3")] };
    let merged = merge_tables(&vec![a, b]);
    assert_eq!(merged.entries.len(), 3);
}

#[test]
fn merge_overlapping_first_occurrence_wins() {
    let a = LocTable { entries: vec![entry(b"k1", b"high"), entry(b"k2", b"v2")] };
    let b = LocTable { entries: vec![entry(b"k1", b"low"), entry(b"k3", b"v3")] };
    let merged = merge_tables(&vec![a, b]);
    assert_eq!(merged.entries.len(), 3);
    assert_eq!(merged.entries[0], entry(b"k1", b"high"));
    assert_eq!(merged.entries[1], entry(b"k2", b"v2"));
    assert_eq!(merged.entries[2], entry(b"k3", b"v3"));
}

#[test]
fn first_wins_keeps_first_occurrence() {
    let rows = vec![entry(b"a", b"1"), entry(b"b", b"2"), entry(b"a", b"3")];
    let flat = first_wins(&rows);
    assert_eq!(flat, vec![entry(b"a", b"1"), entry(b"b", b"2")]);
}

#[test]
fn keys_survive_optimize_and_backfill() {
    // Keys present before the optimize pass are all present again after
    // the vanilla backfill: dropped rows come back from the installed
    // tables, or from the reference when the installed tables lack them.
    let pre = vec![
        entry(b"kept", b"modded"),
        entry(b"redundant_installed", b"vanilla_value"),
        entry(b"redundant_ref_only", b"ref_value"),
    ];
    let vanilla = vec![
        entry(b"redundant_installed", b"vanilla_value"),
        entry(b"redundant_ref_only", b"ref_value"),
    ];
    let installed = vec![
        entry(b"redundant_installed", b"old_translated"),
        entry(b"redundant_installed", b"latest_translated"),
    ];
    let post = optimize(&pre, &vanilla);
    assert_eq!(post, vec![entry(b"kept", b"modded")]);
    let restored = restore(&pre, &post, &installed, &vanilla);
    let mut after: Vec<LocEntry> =
        post.iter().map(|e| entry(&e.key, &e.value)).collect();
    after.extend(restored);
    assert_eq!(keys_of(&pre), keys_of(&after));
    // The installed game's last-observed value is preferred; the
    // reference only fills keys the installed tables lack.
    assert!(after.contains(&entry(b"redundant_installed", b"latest_translated")));
    assert!(after.contains(&entry(b"redundant_ref_only", b"ref_value")));
}

#[test]
fn legacy_backfill_keeps_existing_keys() {
    let rows = vec![entry(b"modkey", b"modvalue")];
    let installed = vec![entry(b"vanillakey", b"vanillavalue"), entry(b"modkey", b"vanilla")];
    let mut combined = vec![entry(b"modkey", b"modvalue")];
    combined.extend(installed);
    let flat = first_wins(&combined);
    let flat_keys = keys_of(&flat);
    for k in keys_of(&rows) {
        assert!(flat_keys.contains(&k));
    }
    // The mod's value still wins for its own key.
    assert!(flat.contains(&entry(b"modkey", b"modvalue")));
}

#[test]
fn translation_units_emit_current_translations() {
    let units = vec![
        TranslationUnit {
            key: b"k1".to_vec(),
            value_original: b"orig1".to_vec(),
            value_translated: b"tr1".to_vec(),
            needs_retranslation: false,
        },
        TranslationUnit {
            key: b"k2".to_vec(),
            value_original: b"orig2".to_vec(),
            value_translated: b"tr2".to_vec(),
            needs_retranslation: true,
        },
        TranslationUnit {
            key: b"k3".to_vec(),
            value_original: b"orig3".to_vec(),
            value_translated: Vec::new(),
            needs_retranslation: false,
        },
    ];
    let modern = rows_from_units(&units, false);
    assert_eq!(modern, vec![entry(b"k1", b"tr1")]);
    let legacy = rows_from_units(&units, true);
    assert_eq!(
        legacy,
        vec![entry(b"k1", b"tr1"), entry(b"k2", b"orig2"), entry(b"k3", b"orig3")]
    );
}

#[test]
fn pack_rows_sorted_by_table_path() {
    let archive = Archive {
        name: b"mod_a.pack".to_vec(),
        kind: ArchiveKind::Mod,
        records: vec![
            Record {
                path: b"text/zz.loc".to_vec(),
                data: RecordData::Loc(LocTable { entries: vec![entry(b"z", b"1")] }),
            },
            Record {
                path: b"outside/ignored.loc".to_vec(),
                data: RecordData::Loc(LocTable { entries: vec![entry(b"x", b"9")] }),
            },
            Record {
                path: b"text/aa.loc".to_vec(),
                data: RecordData::Loc(LocTable { entries: vec![entry(b"a", b"2")] }),
            },
        ],
    };
    let rows = collect_pack_loc_rows(&archive);
    assert_eq!(rows, vec![entry(b"a", b"2"), entry(b"z", b"1")]);
}

#[test]
fn translations_write_the_final_table() {
    // Highest-priority data placed earliest: the fixes table beats the
    // mods, and the first (highest-priority) archive beats the second.
    let mut reserved = Archive::new(b"override.pack".to_vec(), ArchiveKind::Movie);
    let packs = vec![
        PackTranslationInput::Units(vec![TranslationUnit {
            key: b"shared".to_vec(),
            value_original: b"orig".to_vec(),
            value_translated: b"from_high".to_vec(),
            needs_retranslation: false,
        }]),
        PackTranslationInput::Units(vec![
            TranslationUnit {
                key: b"shared".to_vec(),
                value_original: b"orig".to_vec(),
                value_translated: b"from_low".to_vec(),
                needs_retranslation: false,
            },
            TranslationUnit {
                key: b"only_low".to_vec(),
                value_original: b"orig2".to_vec(),
                value_translated: b"low_tr".to_vec(),
                needs_retranslation: false,
            },
        ]),
    ];
    let fixes = Some(LocTable { entries: vec![entry(b"fixed", b"fix_value")] });
    prepare_translations(&mut reserved, false, &packs, &fixes, &None, &Vec::new());
    assert_eq!(reserved.records.len(), 1);
    let rec = &reserved.records[0];
    assert_eq!(rec.path, translated_path(false));
    if let RecordData::Loc(table) = &rec.data {
        assert_eq!(
            table.entries,
            vec![
                entry(b"fixed", b"fix_value"),
                entry(b"shared", b"from_high"),
                entry(b"only_low", b"low_tr"),
            ]
        );
    } else {
        panic!("expected a localization record");
    }
}

#[test]
fn legacy_translations_use_the_monolithic_path() {
    let mut reserved = Archive::new(b"override.pack".to_vec(), ArchiveKind::Movie);
    let packs = vec![PackTranslationInput::Units(vec![TranslationUnit {
        key: b"k".to_vec(),
        value_original: b"o".to_vec(),
        value_translated: b"t".to_vec(),
        needs_retranslation: false,
    }])];
    let installed = vec![entry(b"vanilla_key", b"vanilla_value")];
    prepare_translations(&mut reserved, true, &packs, &None, &None, &installed);
    assert_eq!(reserved.records.len(), 1);
    let rec = &reserved.records[0];
    assert_eq!(rec.path, b"text/localisation.loc".to_vec());
    if let RecordData::Loc(table) = &rec.data {
        assert_eq!(
            table.entries,
            vec![entry(b"k", b"t"), entry(b"vanilla_key", b"vanilla_value")]
        );
    } else {
        panic!("expected a localization record");
    }
}
