//! Value types identifying a problem and its rework status.

use vstd::prelude::*;

verus! {

/// Identifies a problem within a chapter. Equality is structural; the pair
/// is the deduplication key of the ledger and the lookup key for status
/// changes.
#[derive(Clone, Copy, Debug, PartialEq, Eq, Hash, Structural)]
pub struct ProblemID {
    pub number: u32,
    pub chapter: u32,
}

/// Whether a solved problem still needs rework (`NeedToFix`) or is considered
/// done (`Fixed`). Problems are created as `Fixed`.
#[derive(Clone, Copy, Debug, PartialEq, Eq, Structural)]
pub enum FixStatus {
    Fixed,
    NeedToFix,
}

/// A problem together with its current rework state.
#[derive(Clone, Copy, Debug, PartialEq, Eq, Structural)]
pub struct Problem {
    pub id: ProblemID,
    pub fix_status: FixStatus,
}

} // verus!
