//! Archive-stack resolution and load-order scenarios.

use twpatcher::archive::{
    file_name_of, rename_file_name_to_low_priority, Archive, ArchiveKind, ArchiveStack, Record,
    RecordData,
};
use twpatcher::load_order::{
    assemble_load_order, join_path, parse_load_order, resolve_mods, DirListing, MovieCandidate,
};

fn opaque(path: &[u8], contents: &[u8]) -> Record {
    Record { path: path.to_vec(), data: RecordData::Opaque(contents.to_vec()) }
}

fn archive_with(name: &[u8], records: Vec<Record>) -> Archive {
    Archive { name: name.to_vec(), kind: ArchiveKind::Mod, records }
}

#[test]
fn duplicate_path_resolves_to_highest_priority() {
    let stack = ArchiveStack {
        archives: vec![
            archive_with(b"low.pack", vec![opaque(b"shared/file", b"low")]),
            archive_with(b"mid.pack", vec![opaque(b"shared/file", b"mid")]),
            archive_with(b"high.pack", vec![opaque(b"other/file", b"other")]),
        ],
    };
    let resolved = stack.resolve(&b"shared/file".to_vec()).expect("present in two archives");
    assert_eq!(resolved.data, RecordData::Opaque(b"mid".to_vec()));
    let other = stack.resolve(&b"other/file".to_vec()).expect("present once");
    assert_eq!(other.data, RecordData::Opaque(b"other".to_vec()));
    assert!(stack.resolve(&b"missing".to_vec()).is_none());
}

#[test]
fn load_order_lines_parse() {
    let content = b"add_working_directory \"/mods/dir\";\nignored line\nmod \"a.pack\";\nmod \"b.pack\";\n"
        .to_vec();
    let (dirs, mods) = parse_load_order(&content);
    assert_eq!(dirs, vec![b"/mods/dir".to_vec()]);
    assert_eq!(mods, vec![b"a.pack".to_vec(), b"b.pack".to_vec()]);
}

#[test]
fn load_order_lines_parse_without_terminator() {
    let content = b"mod \"a.pack\"\n".to_vec();
    let (dirs, mods) = parse_load_order(&content);
    assert!(dirs.is_empty());
    assert_eq!(mods, vec![b"a.pack".to_vec()]);
}

#[test]
fn mods_resolve_via_secondary_directory() {
    // Both declared mods exist only in the secondary declared working
    // directory: the resolver returns the data path first, then the
    // mods resolved there, then any auto-detected movie archives.
    let content = b"add_working_directory \"/workshop\";\nmod \"a.pack\";\nmod \"b.pack\";\n"
        .to_vec();
    let (dirs, mods) = parse_load_order(&content);
    assert_eq!(dirs, vec![b"/workshop".to_vec()]);
    let listings = vec![
        DirListing {
            dir: b"/workshop".to_vec(),
            files: vec![b"a.pack".to_vec(), b"b.pack".to_vec(), b"extra.pack".to_vec()],
        },
        DirListing { dir: b"/game/data".to_vec(), files: vec![b"local_en.pack".to_vec()] },
    ];
    let resolved = resolve_mods(&mods, &listings);
    assert_eq!(
        resolved,
        vec![b"/workshop/a.pack".to_vec(), b"/workshop/b.pack".to_vec()]
    );
    let candidates = vec![
        MovieCandidate { path: b"/workshop/a.pack".to_vec(), is_movie: true },
        MovieCandidate { path: b"/workshop/extra.pack".to_vec(), is_movie: true },
        MovieCandidate { path: b"/game/data/local_en.pack".to_vec(), is_movie: false },
    ];
    let vanilla = vec![b"/game/data/local_en.pack".to_vec()];
    let order = assemble_load_order(&b"/game/data".to_vec(), &resolved, &candidates, &vanilla);
    assert_eq!(
        order,
        vec![
            b"/game/data".to_vec(),
            b"/workshop/a.pack".to_vec(),
            b"/workshop/b.pack".to_vec(),
            b"/workshop/extra.pack".to_vec(),
        ]
    );
}

#[test]
fn first_directory_wins_resolution() {
    let listings = vec![
        DirListing { dir: b"/first".to_vec(), files: vec![b"m.pack".to_vec()] },
        DirListing { dir: b"/second".to_vec(), files: vec![b"m.pack".to_vec()] },
    ];
    let resolved = resolve_mods(&vec![b"m.pack".to_vec()], &listings);
    assert_eq!(resolved, vec![b"/first/m.pack".to_vec()]);
}

#[test]
fn unresolvable_mods_are_dropped() {
    let listings = vec![DirListing { dir: b"/dir".to_vec(), files: vec![] }];
    let resolved = resolve_mods(&vec![b"ghost.pack".to_vec()], &listings);
    assert!(resolved.is_empty());
}

#[test]
fn join_path_inserts_separator() {
    assert_eq!(join_path(&b"/d".to_vec(), &b"m.pack".to_vec()), b"/d/m.pack".to_vec());
}

#[test]
fn low_priority_rename_tilde_prefixes_file_name() {
    let mut rec = opaque(b"db/foo_tables/data", b"x");
    rename_file_name_to_low_priority(&mut rec);
    assert_eq!(rec.path, b"db/foo_tables/~data".to_vec());
    let mut bare = opaque(b"data", b"x");
    rename_file_name_to_low_priority(&mut bare);
    assert_eq!(bare.path, b"~data".to_vec());
}

#[test]
fn file_name_is_last_segment() {
    assert_eq!(file_name_of(&b"db/foo_tables/data".to_vec()), b"data".to_vec());
    assert_eq!(file_name_of(&b"data".to_vec()), b"data".to_vec());
}

#[test]
fn insert_replaces_at_same_path() {
    let mut a = Archive::new(b"o.pack".to_vec(), ArchiveKind::Movie);
    a.insert(opaque(b"p1", b"first"));
    a.insert(opaque(b"p2", b"second"));
    a.insert(opaque(b"p1", b"replaced"));
    assert_eq!(a.records.len(), 2);
    assert_eq!(a.records[0].data, RecordData::Opaque(b"replaced".to_vec()));
    assert_eq!(a.records[1].data, RecordData::Opaque(b"second".to_vec()));
}
