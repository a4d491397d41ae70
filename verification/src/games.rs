//! Per-title knowledge: which passes a game supports, how its override
//! archive is named, and the cosmetic per-title passes (script logging
//! and intro-video skipping).
//!
//! Per-title behavior is a lookup on the game identity; titles whose
//! special passes live outside this code base simply support none.

use vstd::prelude::*;

use crate::archive::Archive;
use crate::archive::ArchiveKind;
use crate::archive::Record;
use crate::archive::RecordData;
use crate::table::Cell;
use crate::table::RelationalTable;
use crate::text;

verus! {

use crate::archive::ArchiveV;
use crate::archive::RecordV;
use crate::archive::RecordDataV;
use crate::archive::spec_insert;
use crate::archive::spec_insert_all;
use crate::table::CellV;
use crate::table::TableV;
use vstd::string::StringSliceAdditionalSpecFns;

/// The supported game identities.
#[derive(Debug, Clone, Copy, PartialEq, Eq, Structural)]
pub enum GameKind {
    Pharaoh,
    PharaohDynasties,
    Warhammer3,
    Troy,
    ThreeKingdoms,
    Warhammer2,
    Warhammer,
    ThronesOfBritannia,
    Attila,
    Rome2,
    Shogun2,
    Napoleon,
    Empire,
}

/// Titles before the per-string override system: they merge all
/// translations into one monolithic localization file at engine level.
pub open spec fn spec_uses_old_multilanguage_logic(g: GameKind) -> bool {
    g == GameKind::ThronesOfBritannia || g == GameKind::Attila || g == GameKind::Rome2 || g
        == GameKind::Shogun2 || g == GameKind::Napoleon || g == GameKind::Empire
}

pub fn uses_old_multilanguage_logic(g: GameKind) -> (r: bool)
    ensures
        r == spec_uses_old_multilanguage_logic(g),
{
    match g {
        GameKind::ThronesOfBritannia => true,
        GameKind::Attila => true,
        GameKind::Rome2 => true,
        GameKind::Shogun2 => true,
        GameKind::Napoleon => true,
        GameKind::Empire => true,
        _ => false,
    }
}

/// Titles whose load-order handling of movie archives needs the
/// alternative override-archive name.
pub open spec fn spec_uses_alternative_name(g: GameKind) -> bool {
    g == GameKind::Shogun2 || g == GameKind::Rome2 || g == GameKind::Attila || g
        == GameKind::ThronesOfBritannia
}

pub open spec fn spec_reserved_pack_name(g: GameKind) -> Seq<u8> {
    if spec_uses_alternative_name(g) {
        "!!!!!!!!!!!!!!!!!!!!!run_you_fool_thron.pack".spec_bytes()
    } else {
        "zzzzzzzzzzzzzzzzzzzzrun_you_fool_thron.pack".spec_bytes()
    }
}

/// The file name of the generated override archive; a few titles need an
/// alternative spelling to stay last in their load order.
pub fn reserved_pack_name(g: GameKind) -> (r: Vec<u8>)
    ensures
        r@ == spec_reserved_pack_name(g),
{
    let alternative = match g {
        GameKind::Shogun2 => true,
        GameKind::Rome2 => true,
        GameKind::Attila => true,
        GameKind::ThronesOfBritannia => true,
        _ => false,
    };
    if alternative {
        text::bytes_of("!!!!!!!!!!!!!!!!!!!!!run_you_fool_thron.pack")
    } else {
        text::bytes_of("zzzzzzzzzzzzzzzzzzzzrun_you_fool_thron.pack")
    }
}

/// Titles whose engine needs the real dependency list in the override
/// archive; the older ones crash on it and get placeholder entries.
pub open spec fn spec_real_dependencies(g: GameKind) -> bool {
    !(g == GameKind::Empire || g == GameKind::Napoleon || g == GameKind::Shogun2 || g
        == GameKind::Rome2 || g == GameKind::Attila || g == GameKind::ThronesOfBritannia)
}

pub fn real_dependencies(g: GameKind) -> (r: bool)
    ensures
        r == spec_real_dependencies(g),
{
    match g {
        GameKind::Empire => false,
        GameKind::Napoleon => false,
        GameKind::Shogun2 => false,
        GameKind::Rome2 => false,
        GameKind::Attila => false,
        GameKind::ThronesOfBritannia => false,
        _ => true,
    }
}

/// One dependency entry of the saved archive: a hard flag and the mod
/// archive's file name.
#[derive(Debug, PartialEq, Eq)]
pub struct DependencyEntry {
    pub hard: bool,
    pub name: Vec<u8>,
}

pub struct DependencyEntryV {
    pub hard: bool,
    pub name: Seq<u8>,
}

impl DeepView for DependencyEntry {
    type V = DependencyEntryV;

    open spec fn deep_view(&self) -> DependencyEntryV {
        DependencyEntryV { hard: self.hard, name: self.name@ }
    }
}

/// The dependency list of the saved override archive: one entry per mod
/// path, carrying its file name; the flag is real for the newer titles
/// and placeholder for the older ones.
pub open spec fn spec_dependency_entries(paths: Seq<Seq<u8>>, hard: bool) -> Seq<DependencyEntryV>
    decreases paths.len(),
{
    if paths.len() == 0 {
        Seq::empty()
    } else {
        spec_dependency_entries(paths.drop_last(), hard).push(
            DependencyEntryV { hard, name: crate::archive::spec_file_name(paths.last()) },
        )
    }
}

pub fn dependency_entries(paths: &Vec<Vec<u8>>, g: GameKind) -> (r: Vec<DependencyEntry>)
    ensures
        r.deep_view() == spec_dependency_entries(paths.deep_view(), spec_real_dependencies(g)),
{
    let hard = real_dependencies(g);
    let ghost pv = paths.deep_view();
    let n = paths.len();
    let mut out: Vec<DependencyEntry> = Vec::new();
    let mut i: usize = 0;
    proof {
        assert(pv.take(0) =~= Seq::<Seq<u8>>::empty());
        assert(out.deep_view() =~~= spec_dependency_entries(pv.take(0), hard));
    }
    while i < n
        invariant
            n == paths@.len(),
            pv == paths.deep_view(),
            pv.len() == n,
            i <= n,
            out.deep_view() == spec_dependency_entries(pv.take(i as int), hard),
        decreases n - i,
    {
        proof {
            assert(pv.take(i + 1).drop_last() =~= pv.take(i as int));
            assert(pv.take(i + 1).last() == pv[i as int]);
            assert(paths@[i as int]@ =~= pv[i as int]);
        }
        let name = crate::archive::file_name_of(&paths[i]);
        out.push(DependencyEntry { hard, name });
        proof {
            assert(out.deep_view() =~~= spec_dependency_entries(pv.take(i + 1), hard));
        }
        i += 1;
    }
    proof {
        assert(pv.take(n as int) =~= pv);
    }
    out
}

/// Creates the reserved override archive.  It is a movie archive:
/// otherwise the intro files of the older titles could not be
/// overridden.
pub fn init_reserved_pack(g: GameKind) -> (r: Archive)
    ensures
        r.wf(),
        r.deep_view().name == spec_reserved_pack_name(g),
        r.deep_view().kind == ArchiveKind::Movie,
        r.deep_view().records.len() == 0,
{
    Archive::new(reserved_pack_name(g), ArchiveKind::Movie)
}

/// Titles with a script-logging switch among those this code base
/// carries.
pub open spec fn spec_supports_script_logging(g: GameKind) -> bool {
    g == GameKind::Pharaoh || g == GameKind::PharaohDynasties || g == GameKind::Troy || g
        == GameKind::Warhammer2
}

pub open spec fn spec_logging_record() -> RecordV {
    RecordV {
        path: "script/enable_console_logging".spec_bytes(),
        data: RecordDataV::Opaque("why not working?!!".spec_bytes()),
    }
}

/// Enables the game's script logging system by writing the debug
/// activator file into the override archive; titles without the switch
/// are left untouched.
pub fn prepare_script_logging(g: GameKind, reserved_pack: &mut Archive)
    requires
        old(reserved_pack).wf(),
    ensures
        final(reserved_pack).wf(),
        final(reserved_pack).deep_view() == (if spec_supports_script_logging(g) {
            spec_insert(old(reserved_pack).deep_view(), spec_logging_record())
        } else {
            old(reserved_pack).deep_view()
        }),
{
    let supported = match g {
        GameKind::Pharaoh => true,
        GameKind::PharaohDynasties => true,
        GameKind::Troy => true,
        GameKind::Warhammer2 => true,
        _ => false,
    };
    if supported {
        let rec = Record {
            path: text::bytes_of("script/enable_console_logging"),
            data: RecordData::Opaque(text::bytes_of("why not working?!!")),
        };
        proof {
            assert(rec.deep_view() == spec_logging_record());
        }
        reserved_pack.insert(rec);
    }
}

pub const EMPTY_CA_VP8: [u8; 595] = [
    0x43, 0x41, 0x4d, 0x56, 0x01, 0x00, 0x29, 0x00, 0x56, 0x50, 0x38, 0x30,
    0x80, 0x02, 0xe0, 0x01, 0x55, 0x55, 0x85, 0x42, 0x01, 0x00, 0x00, 0x00,
    0x01, 0x00, 0x00, 0x00, 0x4a, 0x02, 0x00, 0x00, 0x01, 0x00, 0x00, 0x00,
    0x21, 0x02, 0x00, 0x00, 0x00, 0x50, 0x42, 0x00, 0x9d, 0x01, 0x2a, 0x80,
    0x02, 0xe0, 0x01, 0x00, 0x47, 0x08, 0x85, 0x85, 0x88, 0x85, 0x84, 0x88,
    0x02, 0x02, 0x00, 0x06, 0x16, 0x04, 0xf7, 0x06, 0x81, 0x64, 0x9f, 0x6b,
    0xdb, 0x9b, 0x27, 0x38, 0x7b, 0x27, 0x38, 0x7b, 0x27, 0x38, 0x7b, 0x27,
    0x38, 0x7b, 0x27, 0x38, 0x7b, 0x27, 0x38, 0x7b, 0x27, 0x38, 0x7b, 0x27,
    0x38, 0x7b, 0x27, 0x38, 0x7b, 0x27, 0x38, 0x7b, 0x27, 0x38, 0x7b, 0x27,
    0x38, 0x7b, 0x27, 0x38, 0x7b, 0x27, 0x38, 0x7b, 0x27, 0x38, 0x7b, 0x27,
    0x38, 0x7b, 0x27, 0x38, 0x7b, 0x27, 0x38, 0x7b, 0x27, 0x38, 0x7b, 0x27,
    0x38, 0x7b, 0x27, 0x38, 0x7b, 0x27, 0x38, 0x7b, 0x27, 0x38, 0x7b, 0x27,
    0x38, 0x7b, 0x27, 0x38, 0x7b, 0x27, 0x38, 0x7b, 0x27, 0x38, 0x7b, 0x27,
    0x38, 0x7b, 0x27, 0x38, 0x7b, 0x27, 0x38, 0x7b, 0x27, 0x38, 0x7b, 0x27,
    0x38, 0x7b, 0x27, 0x38, 0x7b, 0x27, 0x38, 0x7b, 0x27, 0x38, 0x7b, 0x27,
    0x38, 0x7b, 0x27, 0x38, 0x7b, 0x27, 0x38, 0x7b, 0x27, 0x38, 0x7b, 0x27,
    0x38, 0x7b, 0x27, 0x38, 0x7b, 0x27, 0x38, 0x7b, 0x27, 0x38, 0x7b, 0x27,
    0x38, 0x7b, 0x27, 0x38, 0x7b, 0x27, 0x38, 0x7b, 0x27, 0x38, 0x7b, 0x27,
    0x38, 0x7b, 0x27, 0x38, 0x7b, 0x27, 0x38, 0x7b, 0x27, 0x38, 0x7b, 0x27,
    0x38, 0x7b, 0x27, 0x38, 0x7b, 0x27, 0x38, 0x7b, 0x27, 0x38, 0x7b, 0x27,
    0x38, 0x7b, 0x27, 0x38, 0x7b, 0x27, 0x38, 0x7b, 0x27, 0x38, 0x7b, 0x27,
    0x38, 0x7b, 0x27, 0x38, 0x7b, 0x27, 0x38, 0x7b, 0x27, 0x38, 0x7b, 0x27,
    0x38, 0x7b, 0x27, 0x38, 0x7b, 0x27, 0x38, 0x7b, 0x27, 0x38, 0x7b, 0x27,
    0x38, 0x7b, 0x27, 0x38, 0x7b, 0x27, 0x38, 0x7b, 0x27, 0x38, 0x7b, 0x27,
    0x38, 0x7b, 0x27, 0x38, 0x7b, 0x27, 0x38, 0x7b, 0x27, 0x38, 0x7b, 0x27,
    0x38, 0x7b, 0x27, 0x38, 0x7b, 0x27, 0x38, 0x7b, 0x27, 0x38, 0x7b, 0x27,
    0x38, 0x7b, 0x27, 0x38, 0x7b, 0x27, 0x38, 0x7b, 0x27, 0x38, 0x7b, 0x27,
    0x38, 0x7b, 0x27, 0x38, 0x7b, 0x27, 0x38, 0x7b, 0x27, 0x38, 0x7b, 0x27,
    0x38, 0x7b, 0x27, 0x38, 0x7b, 0x27, 0x38, 0x7b, 0x27, 0x38, 0x7b, 0x27,
    0x38, 0x7b, 0x27, 0x38, 0x7b, 0x27, 0x38, 0x7b, 0x27, 0x38, 0x7b, 0x27,
    0x38, 0x7b, 0x27, 0x38, 0x7b, 0x27, 0x38, 0x7b, 0x27, 0x38, 0x7b, 0x27,
    0x38, 0x7b, 0x27, 0x38, 0x7b, 0x27, 0x38, 0x7b, 0x27, 0x38, 0x7b, 0x27,
    0x38, 0x7b, 0x27, 0x38, 0x7b, 0x27, 0x38, 0x7b, 0x27, 0x38, 0x7b, 0x27,
    0x38, 0x7b, 0x27, 0x38, 0x7b, 0x27, 0x38, 0x7b, 0x27, 0x38, 0x7b, 0x27,
    0x38, 0x7b, 0x27, 0x38, 0x7b, 0x27, 0x38, 0x7b, 0x27, 0x38, 0x7b, 0x27,
    0x38, 0x7b, 0x27, 0x38, 0x7b, 0x27, 0x38, 0x7b, 0x27, 0x38, 0x7b, 0x27,
    0x38, 0x7b, 0x27, 0x38, 0x7b, 0x27, 0x38, 0x7b, 0x27, 0x38, 0x7b, 0x27,
    0x38, 0x7b, 0x27, 0x38, 0x7b, 0x27, 0x38, 0x7b, 0x27, 0x38, 0x7b, 0x27,
    0x38, 0x7b, 0x27, 0x38, 0x7b, 0x27, 0x38, 0x7b, 0x27, 0x38, 0x7b, 0x27,
    0x38, 0x7b, 0x27, 0x38, 0x7b, 0x27, 0x38, 0x7b, 0x27, 0x38, 0x7b, 0x27,
    0x38, 0x7b, 0x27, 0x38, 0x7b, 0x27, 0x38, 0x7b, 0x27, 0x38, 0x7b, 0x27,
    0x38, 0x7b, 0x27, 0x38, 0x7b, 0x27, 0x38, 0x7b, 0x27, 0x38, 0x7b, 0x27,
    0x38, 0x7b, 0x27, 0x38, 0x7b, 0x27, 0x38, 0x7b, 0x27, 0x38, 0x7b, 0x27,
    0x38, 0x7b, 0x27, 0x38, 0x7b, 0x27, 0x38, 0x7b, 0x27, 0x38, 0x7b, 0x27,
    0x38, 0x7b, 0x27, 0x38, 0x7b, 0x27, 0x38, 0x7b, 0x27, 0x38, 0x7b, 0x27,
    0x38, 0x7b, 0x27, 0x38, 0x7b, 0x27, 0x38, 0x7b, 0x27, 0x38, 0x7b, 0x27,
    0x38, 0x7b, 0x27, 0x38, 0x7b, 0x27, 0x38, 0x7b, 0x27, 0x38, 0x7b, 0x27,
    0x38, 0x7b, 0x27, 0x38, 0x7b, 0x27, 0x38, 0x7b, 0x27, 0x38, 0x7b, 0x27,
    0x38, 0x7b, 0x27, 0x37, 0x80, 0xfe, 0xff, 0xab, 0x50, 0x80, 0x29, 0x00,
    0x00, 0x00, 0x21, 0x02, 0x00, 0x00, 0x01,
];

pub const EMPTY_BIK: [u8; 520] = [
    0x42, 0x49, 0x4B, 0x69, 0x00, 0x02, 0x00, 0x00, 0x01, 0x00, 0x00, 0x00,
    0xC8, 0x01, 0x00, 0x00, 0x01, 0x00, 0x00, 0x00, 0x80, 0x02, 0x00, 0x00,
    0xE0, 0x01, 0x00, 0x00, 0x19, 0x00, 0x00, 0x00, 0x01, 0x00, 0x00, 0x00,
    0x00, 0x00, 0x00, 0x00, 0x01, 0x00, 0x00, 0x00, 0x90, 0x1B, 0x00, 0x00,
    0x44, 0xAC, 0x00, 0x70, 0x00, 0x00, 0x00, 0x00, 0x41, 0x00, 0x00, 0x00,
    0x08, 0x02, 0x00, 0x00, 0xE4, 0x00, 0x00, 0x00, 0x90, 0x1B, 0x00, 0x00,
    0x20, 0xF9, 0x1A, 0x30, 0xA5, 0xDB, 0xEF, 0xAF, 0x82, 0x12, 0x02, 0xB2,
    0xC1, 0x91, 0xB1, 0x11, 0x42, 0x12, 0xD2, 0x51, 0x61, 0x21, 0xF1, 0xE0,
    0xC0, 0xE0, 0xC0, 0xC0, 0xD0, 0x40, 0x61, 0xE2, 0x85, 0x00, 0x82, 0x40,
    0x43, 0x16, 0x73, 0xD2, 0x29, 0x1A, 0x52, 0x68, 0x82, 0xA5, 0x85, 0x44,
    0x8C, 0xE9, 0x0C, 0x71, 0x90, 0x82, 0x84, 0x11, 0x25, 0x91, 0x13, 0x42,
    0x05, 0x81, 0x4B, 0x34, 0x5B, 0x2C, 0x63, 0x15, 0x08, 0x89, 0x11, 0x02,
    0x09, 0xC6, 0x50, 0x94, 0x64, 0xE9, 0xA3, 0x02, 0x80, 0xE8, 0x44, 0xA3,
    0x88, 0x5F, 0x01, 0x28, 0x40, 0x4A, 0x68, 0x54, 0x40, 0x2D, 0x80, 0xC0,
    0x1C, 0x01, 0x09, 0x84, 0x00, 0x41, 0x24, 0x00, 0xFB, 0xC3, 0x87, 0x0F,
    0x1F, 0x10, 0x84, 0x23, 0x94, 0x2A, 0x24, 0x05, 0x4B, 0x21, 0x01, 0xE9,
    0xD0, 0xD0, 0xB0, 0xC8, 0xF8, 0xE0, 0xD8, 0xB0, 0x90, 0x88, 0x50, 0x40,
    0x48, 0x38, 0x38, 0x40, 0x50, 0x68, 0xA0, 0x30, 0xF1, 0x3A, 0x04, 0x84,
    0x04, 0x85, 0x66, 0x79, 0x2F, 0xDC, 0x28, 0x2D, 0x15, 0x51, 0x96, 0xCB,
    0x43, 0xAC, 0xD8, 0x0B, 0x54, 0x46, 0x08, 0xC2, 0x25, 0xA2, 0xCA, 0x31,
    0x04, 0xD6, 0x69, 0x13, 0x94, 0xCB, 0xCC, 0x12, 0x84, 0x34, 0xC1, 0x4D,
    0xAE, 0x3A, 0xEA, 0x50, 0x8B, 0x28, 0x0C, 0xC7, 0x35, 0x10, 0x8D, 0xD2,
    0x4C, 0x1C, 0x88, 0x12, 0x30, 0x04, 0x48, 0x59, 0x04, 0x09, 0x5B, 0x1C,
    0x24, 0x00, 0x00, 0x10, 0x00, 0x60, 0x03, 0x30, 0x00, 0x80, 0x70, 0x00,
    0xF8, 0xF0, 0xE1, 0xC3, 0x07, 0x00, 0x00, 0x00, 0x68, 0x00, 0x00, 0x00,
    0x57, 0xC1, 0x7F, 0x65, 0xFC, 0x10, 0x11, 0x00, 0x00, 0x00, 0x00, 0x00,
    0x00, 0x00, 0x11, 0x00, 0x00, 0x80, 0x20, 0x6D, 0xDB, 0xB6, 0x6D, 0xDB,
    0xB6, 0x01, 0x82, 0xB4, 0x6D, 0xDB, 0xB6, 0x6D, 0xDB, 0x06, 0x08, 0x62,
    0x00, 0x00, 0x00, 0x00, 0x00, 0x00, 0x00, 0x00, 0x40, 0x90, 0xB6, 0x6D,
    0xDB, 0xB6, 0x6D, 0xDB, 0x00, 0x41, 0xDA, 0xB6, 0x6D, 0xDB, 0xB6, 0x6D,
    0x03, 0x04, 0x11, 0x04, 0x69, 0xDB, 0xB6, 0x6D, 0xDB, 0xB6, 0x0D, 0x10,
    0xA4, 0x6D, 0xDB, 0xB6, 0x6D, 0xDB, 0x36, 0x00, 0x85, 0xB6, 0xFD, 0xFF,
    0x00, 0x14, 0x04, 0x28, 0xDA, 0xB6, 0x6D, 0xFB, 0xFF, 0x01, 0x00, 0x00,
    0x00, 0x00, 0x00, 0x00, 0x57, 0xC1, 0x7E, 0x65, 0xEC, 0x00, 0x00, 0x00,
    0x00, 0x11, 0x08, 0x00, 0x00, 0x00, 0x11, 0x00, 0x00, 0x80, 0x20, 0xFF,
    0xFF, 0xFF, 0xFF, 0xFF, 0xFF, 0xFF, 0xFF, 0xFF, 0xFF, 0xFF, 0xFF, 0x01,
    0x4B, 0xFC, 0xFF, 0xFF, 0xFF, 0xFF, 0xFF, 0xFF, 0x1F, 0x58, 0x22, 0x02,
    0x00, 0x00, 0x00, 0x00, 0x00, 0x00, 0x00, 0xA0, 0xE0, 0xFF, 0x0B, 0x00,
    0x00, 0x00, 0x00, 0x00, 0x57, 0xC1, 0x7E, 0x65, 0xEC, 0x00, 0x00, 0x00,
    0x00, 0x11, 0x08, 0x00, 0x00, 0x00, 0x11, 0x00, 0x00, 0x80, 0x20, 0xFF,
    0xFF, 0xFF, 0xFF, 0xFF, 0xFF, 0xFF, 0xFF, 0xFF, 0xFF, 0xFF, 0xFF, 0x01,
    0x4B, 0xFC, 0xFF, 0xFF, 0xFF, 0xFF, 0xFF, 0xFF, 0x1F, 0x58, 0x22, 0x02,
    0x00, 0x00, 0x00, 0x00, 0x00, 0x00, 0x00, 0xA0, 0xE0, 0xFF, 0x0B, 0x00,
    0x00, 0x00, 0x00, 0x00,
];

/// The paths of the intro stub videos a title gets, with the stub bytes
/// all such records carry.
pub open spec fn spec_intro_stub_paths(g: GameKind) -> Seq<Seq<u8>> {
    if g == GameKind::Attila {
        seq!["movies/intro.ca_vp8".spec_bytes(), "movies/sega_logo_sting_hd.ca_vp8".spec_bytes()]
    } else if g == GameKind::Napoleon {
        seq![
            "movies/corei7_intro.bik".spec_bytes(),
            "movies/ntw_intro.bik".spec_bytes(),
            "movies/sega_logo_sting_hd.bik".spec_bytes(),
        ]
    } else if g == GameKind::Warhammer2 {
        seq![
            "movies/startup_movie_01.ca_vp8".spec_bytes(),
            "movies/startup_movie_02.ca_vp8".spec_bytes(),
            "movies/startup_movie_03.ca_vp8".spec_bytes(),
        ]
    } else {
        Seq::empty()
    }
}

pub open spec fn spec_stub_bytes(g: GameKind) -> Seq<u8> {
    if g == GameKind::Napoleon {
        EMPTY_BIK@
    } else {
        EMPTY_CA_VP8@
    }
}

pub open spec fn spec_stub_records(g: GameKind) -> Seq<RecordV> {
    spec_intro_stub_paths(g).map_values(
        |p: Seq<u8>| RecordV { path: p, data: RecordDataV::Opaque(spec_stub_bytes(g)) },
    )
}

#[verifier::rlimit(60)]
fn stub_bytes(g: GameKind) -> (r: Vec<u8>)
    ensures
        r@ == spec_stub_bytes(g),
{
    let mut r: Vec<u8> = Vec::new();
    match g {
        GameKind::Napoleon => {
            let n = EMPTY_BIK.len();
            let mut i: usize = 0;
            while i < n
                invariant
                    n == EMPTY_BIK@.len(),
                    i <= n,
                    r@ == EMPTY_BIK@.take(i as int),
                decreases n - i,
            {
                r.push(EMPTY_BIK[i]);
                proof {
                    assert(r@ =~= EMPTY_BIK@.take(i + 1));
                }
                i += 1;
            }
            proof {
                assert(EMPTY_BIK@.take(n as int) =~= EMPTY_BIK@);
            }
        },
        _ => {
            let n = EMPTY_CA_VP8.len();
            let mut i: usize = 0;
            while i < n
                invariant
                    n == EMPTY_CA_VP8@.len(),
                    i <= n,
                    r@ == EMPTY_CA_VP8@.take(i as int),
                decreases n - i,
            {
                r.push(EMPTY_CA_VP8[i]);
                proof {
                    assert(r@ =~= EMPTY_CA_VP8@.take(i + 1));
                }
                i += 1;
            }
            proof {
                assert(EMPTY_CA_VP8@.take(n as int) =~= EMPTY_CA_VP8@);
            }
        },
    }
    r
}

/// Writes the intro-video stub records of a simple-replacement title
/// into the override archive; other titles are left untouched here.
#[verifier::rlimit(60)]
pub fn prepare_skip_intro_videos(g: GameKind, reserved_pack: &mut Archive)
    requires
        old(reserved_pack).wf(),
    ensures
        final(reserved_pack).wf(),
        final(reserved_pack).deep_view() == spec_insert_all(
            old(reserved_pack).deep_view(),
            spec_stub_records(g),
        ),
{
    let paths: Vec<Vec<u8>> = match g {
        GameKind::Attila => {
            let mut v: Vec<Vec<u8>> = Vec::new();
            v.push(text::bytes_of("movies/intro.ca_vp8"));
            v.push(text::bytes_of("movies/sega_logo_sting_hd.ca_vp8"));
            v
        },
        GameKind::Napoleon => {
            let mut v: Vec<Vec<u8>> = Vec::new();
            v.push(text::bytes_of("movies/corei7_intro.bik"));
            v.push(text::bytes_of("movies/ntw_intro.bik"));
            v.push(text::bytes_of("movies/sega_logo_sting_hd.bik"));
            v
        },
        GameKind::Warhammer2 => {
            let mut v: Vec<Vec<u8>> = Vec::new();
            v.push(text::bytes_of("movies/startup_movie_01.ca_vp8"));
            v.push(text::bytes_of("movies/startup_movie_02.ca_vp8"));
            v.push(text::bytes_of("movies/startup_movie_03.ca_vp8"));
            v
        },
        _ => Vec::new(),
    };
    proof {
        assert(paths.deep_view() =~~= spec_intro_stub_paths(g));
    }
    let ghost stubs = spec_stub_records(g);
    let n = paths.len();
    let mut i: usize = 0;
    proof {
        assert(stubs.len() == paths.deep_view().len());
        assert(spec_insert_all(old(reserved_pack).deep_view(), stubs.take(0))
            == old(reserved_pack).deep_view()) by {
            assert(stubs.take(0) =~= Seq::<RecordV>::empty());
        }
    }
    while i < n
        invariant
            n == paths@.len(),
            paths.deep_view() =~~= spec_intro_stub_paths(g),
            stubs == spec_stub_records(g),
            stubs.len() == n,
            i <= n,
            reserved_pack.wf(),
            reserved_pack.deep_view() == spec_insert_all(
                old(reserved_pack).deep_view(),
                stubs.take(i as int),
            ),
        decreases n - i,
    {
        let rec = Record { path: paths[i].clone(), data: RecordData::Opaque(stub_bytes(g)) };
        proof {
            assert(paths@[i as int]@ =~= paths.deep_view()[i as int]);
            assert(rec.deep_view() == stubs[i as int]);
        }
        let ghost before = reserved_pack.deep_view();
        reserved_pack.insert(rec);
        proof {
            assert(stubs.take(i + 1) =~= stubs.take(i as int).push(stubs[i as int]));
            crate::archive::lemma_insert_all_snoc(
                old(reserved_pack).deep_view(),
                stubs.take(i as int),
                stubs[i as int],
            );
        }
        i += 1;
    }
    proof {
        assert(stubs.take(n as int) =~= stubs);
    }
}


/// The intro movie keys whose rows the table-edit titles patch.
pub open spec fn spec_is_intro_key(k: Seq<u8>) -> bool {
    k == "startup_movie_01".spec_bytes() || k == "startup_movie_02".spec_bytes() || k
        == "startup_movie_03".spec_bytes()
}

fn is_intro_key(k: &Vec<u8>) -> (r: bool)
    ensures
        r == spec_is_intro_key(k@),
{
    let k1 = text::bytes_of("startup_movie_01");
    let k2 = text::bytes_of("startup_movie_02");
    let k3 = text::bytes_of("startup_movie_03");
    text::bytes_eq(k, &k1) || text::bytes_eq(k, &k2) || text::bytes_eq(k, &k3)
}

/// One row after the straight-replacement edit: an intro key in the
/// first cell is replaced with a dummy name.
pub open spec fn spec_replace_first_cell(row: Seq<CellV>) -> Seq<CellV> {
    if row.len() > 0 && (row[0] matches CellV::Text(k) && spec_is_intro_key(k)) {
        row.update(0, CellV::Text("dummy".spec_bytes()))
    } else {
        row
    }
}

/// One row after the append edit at the named column: an intro key in
/// that cell gets a dummy suffix, so the engine finds no such video.
pub open spec fn spec_append_dummy_at(row: Seq<CellV>, c: int) -> Seq<CellV> {
    if 0 <= c < row.len() && (row[c] matches CellV::Text(k) && spec_is_intro_key(k)) {
        row.update(c, CellV::Text(row[c]->Text_0 + "dummy".spec_bytes()))
    } else {
        row
    }
}

/// The first column with the given name.
pub open spec fn spec_col_pos(cols: Seq<crate::table::ColumnDefV>, name: Seq<u8>) -> Option<int>
    decreases cols.len(),
{
    if cols.len() == 0 {
        None
    } else if cols[0].name == name {
        Some(0)
    } else {
        match spec_col_pos(cols.skip(1), name) {
            Some(i) => Some(i + 1),
            None => None,
        }
    }
}

/// A video table after the per-title edit.
pub open spec fn spec_patch_video_table(g: GameKind, t: TableV) -> TableV {
    if g == GameKind::Troy {
        TableV { rows: t.rows.map_values(|r: Seq<CellV>| spec_replace_first_cell(r)), ..t }
    } else if g == GameKind::Pharaoh || g == GameKind::PharaohDynasties {
        match spec_col_pos(t.columns, "video_name".spec_bytes()) {
            Some(c) => TableV {
                rows: t.rows.map_values(|r: Seq<CellV>| spec_append_dummy_at(r, c)),
                ..t
            },
            None => t,
        }
    } else {
        t
    }
}

fn col_pos(cols: &Vec<crate::table::ColumnDef>, name: &Vec<u8>) -> (r: Option<usize>)
    ensures
        match r {
            Some(i) => spec_col_pos(cols.deep_view(), name@) == Some(i as int),
            None => spec_col_pos(cols.deep_view(), name@) is None,
        },
{
    let ghost cv = cols.deep_view();
    let n = cols.len();
    let mut i: usize = 0;
    proof {
        assert(cv.skip(0) =~= cv);
    }
    while i < n
        invariant
            n == cols@.len(),
            cv == cols.deep_view(),
            cv.len() == n,
            i <= n,
            (match spec_col_pos(cv, name@) {
                Some(p) => spec_col_pos(cv.skip(i as int), name@) == Some(p - i),
                None => spec_col_pos(cv.skip(i as int), name@) is None,
            }),
        decreases n - i,
    {
        proof {
            assert(cv.skip(i as int)[0] == cv[i as int]);
            assert(cv.skip(i as int).skip(1) =~= cv.skip(i + 1));
            assert(cols@[i as int].deep_view() == cv[i as int]);
        }
        if text::bytes_eq(&cols[i].name, name) {
            return Some(i);
        }
        i += 1;
    }
    proof {
        assert(cv.skip(n as int) =~= Seq::<crate::table::ColumnDefV>::empty());
    }
    None
}

fn patch_cell_replace(row: &Vec<Cell>, pos: usize, replace: bool) -> (r: Vec<Cell>)
    requires
        !replace || pos < row@.len(),
    ensures
        replace ==> r.deep_view() == row.deep_view().update(
            pos as int,
            CellV::Text("dummy".spec_bytes()),
        ),
        !replace ==> r.deep_view() == row.deep_view(),
{
    let mut r = crate::table::clone_row(row);
    if replace {
        let ghost before = r.deep_view();
        r.set(pos, Cell::Text(text::bytes_of("dummy")));
        proof {
            assert(r.deep_view() =~= row.deep_view().update(
                pos as int,
                CellV::Text("dummy".spec_bytes()),
            ));
        }
    }
    r
}

/// Applies the per-title video-table edit to every row.
pub fn patch_video_table(g: GameKind, t: &RelationalTable) -> (r: RelationalTable)
    ensures
        r.deep_view() == spec_patch_video_table(g, t.deep_view()),
{
    let is_troy = match g {
        GameKind::Troy => true,
        _ => false,
    };
    let is_pharaoh = match g {
        GameKind::Pharaoh => true,
        GameKind::PharaohDynasties => true,
        _ => false,
    };
    if !is_troy && !is_pharaoh {
        let r = crate::table::clone_table(t);
        return r;
    }
    let col: Option<usize> = if is_troy {
        Some(0)
    } else {
        let name = text::bytes_of("video_name");
        col_pos(&t.columns, &name)
    };
    match col {
        None => {
            let r = crate::table::clone_table(t);
            r
        },
        Some(c) => {
            let ghost rowsv = t.rows.deep_view();
            let n = t.rows.len();
            let mut rows: Vec<Vec<Cell>> = Vec::new();
            let mut i: usize = 0;
            while i < n
                invariant
                    n == t.rows@.len(),
                    rowsv == t.rows.deep_view(),
                    rowsv.len() == n,
                    i <= n,
                    is_troy ==> c == 0,
                    is_troy || is_pharaoh,
                    !is_troy ==> spec_col_pos(
                        t.columns.deep_view(),
                        "video_name".spec_bytes(),
                    ) == Some(c as int),
                    rows@.len() == i,
                    is_troy ==> forall|j: int|
                        0 <= j < i ==> (#[trigger] rows@[j]).deep_view()
                            == spec_replace_first_cell(rowsv[j]),
                    !is_troy ==> forall|j: int|
                        0 <= j < i ==> (#[trigger] rows@[j]).deep_view() == spec_append_dummy_at(
                            rowsv[j],
                            c as int,
                        ),
                decreases n - i,
            {
                let row = &t.rows[i];
                proof {
                    assert(row.deep_view() == rowsv[i as int]);
                }
                let new_row: Vec<Cell> = if c < row.len() {
                    let hit = match &row[c] {
                        Cell::Text(k) => is_intro_key(k),
                        _ => false,
                    };
                    if hit {
                        if is_troy {
                            patch_cell_replace(row, c, true)
                        } else {
                            let mut nr = crate::table::clone_row(row);
                            match &row[c] {
                                Cell::Text(k) => {
                                    let mut nk = k.clone();
                                    let suffix = text::bytes_of("dummy");
                                    text::push_all(&mut nk, &suffix);
                                    nr.set(c, Cell::Text(nk));
                                    proof {
                                        assert(nr.deep_view() =~= spec_append_dummy_at(
                                            rowsv[i as int],
                                            c as int,
                                        ));
                                    }
                                },
                                _ => {},
                            }
                            nr
                        }
                    } else {
                        let nr = crate::table::clone_row(row);
                        proof {
                            if is_troy {
                                assert(nr.deep_view() == spec_replace_first_cell(rowsv[i as int]));
                            } else {
                                assert(nr.deep_view() == spec_append_dummy_at(
                                    rowsv[i as int],
                                    c as int,
                                ));
                            }
                        }
                        nr
                    }
                } else {
                    let nr = crate::table::clone_row(row);
                    proof {
                        if is_troy {
                            assert(nr.deep_view() == spec_replace_first_cell(rowsv[i as int]));
                        } else {
                            assert(nr.deep_view() == spec_append_dummy_at(
                                rowsv[i as int],
                                c as int,
                            ));
                        }
                    }
                    nr
                };
                rows.push(new_row);
                i += 1;
            }
            let r = RelationalTable {
                table_name: t.table_name.clone(),
                version: t.version,
                columns: crate::table::clone_columns(&t.columns),
                rows,
            };
            proof {
                if is_troy {
                    assert(r.deep_view().rows =~~= t.deep_view().rows.map_values(
                        |rw: Seq<CellV>| spec_replace_first_cell(rw),
                    ));
                } else {
                    assert(r.deep_view().rows =~~= t.deep_view().rows.map_values(
                        |rw: Seq<CellV>| spec_append_dummy_at(rw, c as int),
                    ));
                }
            }
            r
        },
    }
}

/// The records a video-table pass writes: every collected table under
/// the prefix, patched.
pub open spec fn spec_patched_records(
    ts: Seq<crate::pipeline::SourcedTableV>,
    prefix: Seq<u8>,
    g: GameKind,
) -> Seq<RecordV>
    decreases ts.len(),
{
    if ts.len() == 0 {
        Seq::empty()
    } else {
        let rest = spec_patched_records(ts.drop_last(), prefix, g);
        let item = ts.last();
        if item.rec.data is Table && text::spec_starts_with(item.rec.path, prefix) {
            rest.push(
                RecordV {
                    path: item.rec.path,
                    data: RecordDataV::Table(
                        spec_patch_video_table(g, item.rec.data->Table_0),
                    ),
                },
            )
        } else {
            rest
        }
    }
}

/// The table-edit form of the intro-video pass: collects the video
/// tables of the three layers under the prefix, patches their rows and
/// writes them into the override archive.
pub fn patch_video_tables_under(
    g: GameKind,
    reserved_pack: &mut Archive,
    vanilla_pack: &Archive,
    modded_pack: &Archive,
    prefix: &Vec<u8>,
)
    requires
        old(reserved_pack).wf(),
    ensures
        final(reserved_pack).wf(),
        final(reserved_pack).deep_view() == spec_insert_all(
            old(reserved_pack).deep_view(),
            spec_patched_records(
                crate::pipeline::spec_collect_tables(
                    vanilla_pack.deep_view(),
                    modded_pack.deep_view(),
                    old(reserved_pack).deep_view(),
                ),
                prefix@,
                g,
            ),
        ),
{
    let collected = crate::pipeline::collect_pipeline_tables(vanilla_pack, modded_pack, reserved_pack);
    let ghost cv = collected.deep_view();
    let ghost planned = spec_patched_records(cv, prefix@, g);
    let n = collected.len();
    let mut i: usize = 0;
    let ghost mut written: Seq<RecordV> = Seq::empty();
    proof {
        assert(cv.take(0) =~= Seq::<crate::pipeline::SourcedTableV>::empty());
        assert(spec_patched_records(cv.take(0), prefix@, g) =~= Seq::<RecordV>::empty());
        assert(spec_insert_all(old(reserved_pack).deep_view(), Seq::<RecordV>::empty())
            == old(reserved_pack).deep_view());
    }
    while i < n
        invariant
            n == collected@.len(),
            cv == collected.deep_view(),
            cv.len() == n,
            i <= n,
            reserved_pack.wf(),
            written == spec_patched_records(cv.take(i as int), prefix@, g),
            reserved_pack.deep_view() == spec_insert_all(old(reserved_pack).deep_view(), written),
        decreases n - i,
    {
        proof {
            assert(cv.take(i + 1).drop_last() =~= cv.take(i as int));
            assert(cv.take(i + 1).last() == cv[i as int]);
            assert(collected@[i as int].deep_view() == cv[i as int]);
        }
        let item = &collected[i];
        let hit = match &item.rec.data {
            RecordData::Table(_) => text::starts_with(&item.rec.path, prefix),
            _ => false,
        };
        if hit {
            match &item.rec.data {
                RecordData::Table(t) => {
                    let patched = patch_video_table(g, t);
                    let rec = Record {
                        path: item.rec.path.clone(),
                        data: RecordData::Table(patched),
                    };
                    proof {
                        assert(rec.deep_view() == RecordV {
                            path: cv[i as int].rec.path,
                            data: RecordDataV::Table(
                                spec_patch_video_table(g, cv[i as int].rec.data->Table_0),
                            ),
                        });
                    }
                    let ghost w0 = written;
                    reserved_pack.insert(rec);
                    proof {
                        written = w0.push(
                            RecordV {
                                path: cv[i as int].rec.path,
                                data: RecordDataV::Table(
                                    spec_patch_video_table(g, cv[i as int].rec.data->Table_0),
                                ),
                            },
                        );
                        crate::archive::lemma_insert_all_snoc(old(reserved_pack).deep_view(), w0, written.last());
                        assert(written =~= spec_patched_records(cv.take(i + 1), prefix@, g));
                    }
                },
                _ => {},
            }
        } else {
            proof {
                assert(written =~= spec_patched_records(cv.take(i + 1), prefix@, g));
            }
        }
        i += 1;
    }
    proof {
        assert(cv.take(n as int) =~= cv);
    }
}

/// The override archive after the table-edit form of the intro pass:
/// the straight-replacement title patches one table family; the
/// append-edit titles patch a second family afterwards, collecting it
/// from the archive the first family was already written into.
pub open spec fn spec_skip_intro_tables(
    g: GameKind,
    vanilla: ArchiveV,
    modded: ArchiveV,
    a: ArchiveV,
) -> ArchiveV {
    if g == GameKind::Troy {
        spec_insert_all(
            a,
            spec_patched_records(
                crate::pipeline::spec_collect_tables(vanilla, modded, a),
                "db/videos_tables/".spec_bytes(),
                g,
            ),
        )
    } else if g == GameKind::Pharaoh || g == GameKind::PharaohDynasties {
        let mid = spec_insert_all(
            a,
            spec_patched_records(
                crate::pipeline::spec_collect_tables(vanilla, modded, a),
                "db/videos_tables/".spec_bytes(),
                g,
            ),
        );
        spec_insert_all(
            mid,
            spec_patched_records(
                crate::pipeline::spec_collect_tables(vanilla, modded, mid),
                "db/campaign_videos_tables/".spec_bytes(),
                g,
            ),
        )
    } else {
        a
    }
}

/// The intro-video pass for the table-edit titles: one table family for
/// the straight-replacement title, two for the append-edit titles.
pub fn prepare_skip_intro_video_tables(
    g: GameKind,
    reserved_pack: &mut Archive,
    vanilla_pack: &Archive,
    modded_pack: &Archive,
)
    requires
        old(reserved_pack).wf(),
    ensures
        final(reserved_pack).wf(),
        final(reserved_pack).deep_view().name == old(reserved_pack).deep_view().name,
        final(reserved_pack).deep_view().kind == old(reserved_pack).deep_view().kind,
        final(reserved_pack).deep_view() == spec_skip_intro_tables(
            g,
            vanilla_pack.deep_view(),
            modded_pack.deep_view(),
            old(reserved_pack).deep_view(),
        ),
{
    let is_table_title = match g {
        GameKind::Troy => true,
        GameKind::Pharaoh => true,
        GameKind::PharaohDynasties => true,
        _ => false,
    };
    if is_table_title {
        let videos_prefix = text::bytes_of("db/videos_tables/");
        patch_video_tables_under(g, reserved_pack, vanilla_pack, modded_pack, &videos_prefix);
        proof {
            crate::archive::lemma_insert_all_preserves_meta(
                old(reserved_pack).deep_view(),
                spec_patched_records(
                    crate::pipeline::spec_collect_tables(
                        vanilla_pack.deep_view(),
                        modded_pack.deep_view(),
                        old(reserved_pack).deep_view(),
                    ),
                    videos_prefix@,
                    g,
                ),
            );
        }
        let ghost mid = reserved_pack.deep_view();
        let is_pharaoh = match g {
            GameKind::Pharaoh => true,
            GameKind::PharaohDynasties => true,
            _ => false,
        };
        if is_pharaoh {
            let campaign_prefix = text::bytes_of("db/campaign_videos_tables/");
            patch_video_tables_under(
                g,
                reserved_pack,
                vanilla_pack,
                modded_pack,
                &campaign_prefix,
            );
            proof {
                crate::archive::lemma_insert_all_preserves_meta(
                    mid,
                    spec_patched_records(
                        crate::pipeline::spec_collect_tables(
                            vanilla_pack.deep_view(),
                            modded_pack.deep_view(),
                            mid,
                        ),
                        campaign_prefix@,
                        g,
                    ),
                );
            }
        }
    }
}


/// The optional balance passes, resolved once per game identity.  The
/// titles whose data these transforms need are not among the titles this
/// code base carries, so every identity here resolves to none of them.
#[derive(Debug, PartialEq, Eq, Clone, Copy, Structural)]
pub struct PassSupport {
    pub trait_limit_removal: bool,
    pub siege_attacker_removal: bool,
    pub unit_multiplier: bool,
    pub universal_rebalancer: bool,
}

pub fn pass_support(g: GameKind) -> (r: PassSupport)
    ensures
        !r.trait_limit_removal,
        !r.siege_attacker_removal,
        !r.unit_multiplier,
        !r.universal_rebalancer,
{
    match g {
        _ => PassSupport {
            trait_limit_removal: false,
            siege_attacker_removal: false,
            unit_multiplier: false,
            universal_rebalancer: false,
        },
    }
}

} // verus!