//! Assembly of a single override data archive for a mod-managed game session.
//!
//! The library merges three layered data sources (base data, an active mod
//! set, and a reserved override archive) and applies optional transform
//! passes: a localization merge engine and a relational patch pipeline that
//! runs user-supplied scripts against a projection store.

pub mod text;
pub mod error;
pub mod table;
pub mod loc;
pub mod archive;
pub mod translate;
pub mod script;
pub mod store;
pub mod sql;
pub mod pipeline;
pub mod updater;
pub mod load_order;
pub mod games;
pub mod dev_ui;
pub mod launch;
