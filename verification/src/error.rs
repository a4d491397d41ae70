//! Failure taxonomy of the patching pipeline.

use vstd::prelude::*;

verus! {

/// One failure of the patching pipeline.
///
/// Network failures are never fatal (best-effort refreshes); I/O failures
/// are fatal; decode failures are logged and skipped during bulk table
/// collection; script failures are accumulated and surface only after every
/// script has been attempted; format failures mark a malformed metadata
/// block in a patch script.
#[derive(Debug, PartialEq, Eq)]
pub enum PatchError {
    NetworkFailure,
    IoFailure(Vec<u8>),
    DecodeFailure(Vec<u8>),
    ScriptFailure(Vec<u8>),
    ScriptFormatFailure(Vec<u8>),
}

impl PatchError {
    /// Whether this failure belongs to the per-script family: those are
    /// accumulated during script execution instead of aborting it.
    pub open spec fn spec_is_script_related(&self) -> bool {
        match self {
            PatchError::ScriptFailure(_) => true,
            PatchError::ScriptFormatFailure(_) => true,
            _ => false,
        }
    }

    pub fn is_script_related(&self) -> (r: bool)
        ensures
            r == self.spec_is_script_related(),
    {
        match self {
            PatchError::ScriptFailure(_) => true,
            PatchError::ScriptFormatFailure(_) => true,
            _ => false,
        }
    }
}

} // verus!
