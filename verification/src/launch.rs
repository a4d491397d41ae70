//! The patch assembly orchestrator: sequences the optional passes over
//! the override archive.
//!
//! Every pass reads the base and mod layers and writes copies into the
//! override archive; the source archives are never mutated.  Passes a
//! title does not support leave the archive untouched.

use vstd::prelude::*;

use crate::archive::Archive;
use crate::error::PatchError;
use crate::games::GameKind;
use crate::loc::LocEntry;
use crate::loc::LocTable;
use crate::pipeline::ScriptOutcome;
use crate::pipeline::ScriptSource;
use crate::store::ProjectionStore;
use crate::translate::PackTranslationInput;

verus! {

/// The gathered inputs of one translation run: the per-archive corpus
/// data (highest priority first), the corpus fixes table, the reference
/// table, and the installed game's current rows.
#[derive(Debug)]
pub struct TranslationBundle {
    pub packs: Vec<PackTranslationInput>,
    pub fixes: Option<LocTable>,
    pub vanilla_english: Option<LocTable>,
    pub installed: Vec<LocEntry>,
}

/// The selected optional passes.
#[derive(Debug)]
pub struct LaunchOptions {
    pub enable_logging: bool,
    pub skip_intro_videos: bool,
    pub remove_trait_limit: bool,
    pub remove_siege_attacker: bool,
    pub enable_dev_ui: bool,
    pub apply_translations: bool,
    pub run_scripts: bool,
}

impl LaunchOptions {
    pub open spec fn all_off(&self) -> bool {
        !self.enable_logging && !self.skip_intro_videos && !self.remove_trait_limit
            && !self.remove_siege_attacker && !self.enable_dev_ui && !self.apply_translations
            && !self.run_scripts
    }
}

/// The override archive after the deterministic passes, in the fixed
/// pass order: intro-video stubs and table edits, script logging, the
/// balance-pass lookup (no carried title provides one), translations,
/// and the developer-UI rewrite.  The script pipeline, whose effect the
/// store decides, runs after these.
pub open spec fn spec_deterministic_passes(
    game: GameKind,
    opts: LaunchOptions,
    reserved0: crate::archive::ArchiveV,
    vanilla: crate::archive::ArchiveV,
    modded: crate::archive::ArchiveV,
    translation: Option<TranslationBundle>,
) -> crate::archive::ArchiveV {
    let r1 = if opts.skip_intro_videos {
        crate::archive::spec_insert_all(reserved0, crate::games::spec_stub_records(game))
    } else {
        reserved0
    };
    let r2 = if opts.skip_intro_videos {
        crate::games::spec_skip_intro_tables(game, vanilla, modded, r1)
    } else {
        r1
    };
    let r3 = if opts.enable_logging && crate::games::spec_supports_script_logging(game) {
        crate::archive::spec_insert(r2, crate::games::spec_logging_record())
    } else {
        r2
    };
    let r4 = if opts.apply_translations {
        match translation {
            Some(bundle) => crate::translate::spec_translations_effect(
                crate::games::spec_uses_old_multilanguage_logic(game),
                bundle.packs.deep_view(),
                crate::translate::view_opt_table(bundle.fixes),
                crate::translate::view_opt_table(bundle.vanilla_english),
                bundle.installed.deep_view(),
                r3,
            ),
            None => r3,
        }
    } else {
        r3
    };
    crate::dev_ui::spec_dev_ui_effect(opts.enable_dev_ui, vanilla, modded, r4)
}

/// Applies the selected passes, in the fixed pass order, to the override
/// archive.  With every pass off, the archive is returned untouched.
/// The deterministic passes leave exactly their composed effect; the
/// script pipeline then runs over that state, accumulating per-script
/// failures and surfacing them only in the final result, after every
/// script has been attempted.
pub fn prepare_launch_options(
    game: GameKind,
    opts: &LaunchOptions,
    reserved_pack: &mut Archive,
    vanilla_pack: &Archive,
    modded_pack: &Archive,
    translation: &Option<TranslationBundle>,
    store: Option<&ProjectionStore>,
    scripts: &Vec<ScriptSource>,
) -> (r: (Vec<ScriptOutcome>, Result<(), PatchError>))
    requires
        old(reserved_pack).wf(),
    ensures
        final(reserved_pack).wf(),
        opts.all_off() ==> final(reserved_pack).deep_view() == old(reserved_pack).deep_view(),
        crate::pipeline::spec_any_failed(r.0@, r.0@.len() as int) ==> r.1 is Err,
        r.1 is Ok ==> forall|i: int| 0 <= i < r.0@.len() ==> (#[trigger] r.0@[i]) is Executed,
        !(opts.run_scripts && store is Some) ==> (r.0@.len() == 0 && r.1 is Ok
            && final(reserved_pack).deep_view() == spec_deterministic_passes(
            game,
            *opts,
            old(reserved_pack).deep_view(),
            vanilla_pack.deep_view(),
            modded_pack.deep_view(),
            *translation,
        )),
        (opts.run_scripts && store is Some) ==> crate::pipeline::spec_pipeline_post(
            vanilla_pack.deep_view(),
            modded_pack.deep_view(),
            spec_deterministic_passes(
                game,
                *opts,
                old(reserved_pack).deep_view(),
                vanilla_pack.deep_view(),
                modded_pack.deep_view(),
                *translation,
            ),
            scripts.deep_view(),
            r.0@,
            r.1 is Ok,
            final(reserved_pack).deep_view(),
        ),
{
    let ghost a0 = old(reserved_pack).deep_view();
    if opts.skip_intro_videos {
        crate::games::prepare_skip_intro_videos(game, reserved_pack);
        crate::games::prepare_skip_intro_video_tables(
            game,
            reserved_pack,
            vanilla_pack,
            modded_pack,
        );
    }
    let ghost a2 = reserved_pack.deep_view();
    proof {
        if opts.skip_intro_videos {
            assert(a2 == crate::games::spec_skip_intro_tables(
                game,
                vanilla_pack.deep_view(),
                modded_pack.deep_view(),
                crate::archive::spec_insert_all(a0, crate::games::spec_stub_records(game)),
            ));
        }
    }
    if opts.enable_logging {
        crate::games::prepare_script_logging(game, reserved_pack);
    }
    let ghost a3 = reserved_pack.deep_view();
    if opts.remove_trait_limit || opts.remove_siege_attacker {
        // These balance transforms are resolved through the per-title
        // lookup; no title carried here provides one, so the archive
        // stays untouched.
        let support = crate::games::pass_support(game);
        proof {
            assert(!support.trait_limit_removal && !support.siege_attacker_removal);
        }
    }
    if opts.apply_translations {
        match translation {
            Some(bundle) => {
                let legacy = crate::games::uses_old_multilanguage_logic(game);
                crate::translate::prepare_translations(
                    reserved_pack,
                    legacy,
                    &bundle.packs,
                    &bundle.fixes,
                    &bundle.vanilla_english,
                    &bundle.installed,
                );
            },
            None => {},
        }
    }
    let ghost a4 = reserved_pack.deep_view();
    if opts.enable_dev_ui {
        crate::dev_ui::prepare_dev_ui(true, reserved_pack, vanilla_pack, modded_pack);
    }
    let ghost composed = spec_deterministic_passes(
        game,
        *opts,
        a0,
        vanilla_pack.deep_view(),
        modded_pack.deep_view(),
        *translation,
    );
    proof {
        assert(reserved_pack.deep_view() == composed);
    }
    if opts.run_scripts {
        match store {
            Some(store) => {
                let r = crate::pipeline::apply_patch_pipeline(
                    store,
                    vanilla_pack,
                    modded_pack,
                    reserved_pack,
                    scripts,
                    true,
                );
                return r;
            },
            None => {},
        }
    }
    (Vec::new(), Ok(()))
}

} // verus!