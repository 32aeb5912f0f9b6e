//! The overwrite policy of an export.

use vstd::prelude::*;

verus! {

/// How an export ends.
#[derive(Clone, Copy, Debug, PartialEq, Eq, Structural)]
pub enum ExportOutcome {
    /// The file is written, in place of what was there.
    Written,
    /// The target exists and may not be overwritten: nothing is written.
    Skipped,
}

/// Decides how an export to a target ends: it is skipped where the target
/// exists and `overwrite` is not given, and written otherwise.
pub fn plan_export(target_exists: bool, overwrite: bool) -> (outcome: ExportOutcome)
    ensures
        outcome is Skipped <==> target_exists && !overwrite,
{
    if target_exists && !overwrite {
        ExportOutcome::Skipped
    } else {
        ExportOutcome::Written
    }
}

} // verus!
