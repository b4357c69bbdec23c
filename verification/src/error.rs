//! The closed taxonomy of failure reasons.

use vstd::prelude::*;

use crate::date::Date;
use crate::problem::{FixStatus, Problem, ProblemID};

verus! {

/// A reason a command was refused, carrying the context needed to report it.
/// The first error ends a run; nothing is caught or retried inside the
/// library.
#[derive(Clone, Copy, Debug, PartialEq, Eq, Structural)]
pub enum InterpreterError {
    /// A `BeginDate` named a date other than the open day's immediate
    /// successor.
    DateNotContiguous,
    /// An `AssignedAmount` arrived while no day was open.
    AssignProblemsNoDate,
    /// A `FinishedAmount` asked for more problems than are unsolved.
    NotEnoughProblems,
    /// An `AddProblems` family command arrived while no chapter was open.
    AddProblemsWithoutChapter,
    /// The named problem already exists somewhere in the ledger.
    DuplicateProblemAdded(ProblemID),
    /// A `Penalty` arrived while no day was open.
    PenaltyNoDate,
    /// Settlement of the named day needed a penalty, but no penalty amount
    /// was ever configured.
    PenaltyNotSet(Date),
    /// The named day's quota was not met and no `Penalty` was flagged.
    MissingPenalty(Date),
    /// The named day's quota was met, yet a `Penalty` was flagged.
    UnexpectedPenalty(Date),
    /// The named problem already carries the requested status.
    FixStatusNotChanged(Problem, FixStatus),
    /// No solved problem matches the ID whose status was to change.
    FixStatusProblemNotFound(ProblemID, FixStatus),
    /// A `NeedToFix`/`Fixed` command arrived while no chapter was open.
    FixStatusWithoutChapter(FixStatus),
    /// A skip named a problem number not present in the same add command.
    UnexpectedSkipProblem(u32),
}

/// Why a report could not be produced: a missing prerequisite, or a
/// settlement check that failed for the open day.
#[derive(Clone, Copy, Debug, PartialEq, Eq, Structural)]
pub enum ReportError {
    /// No `SetProblemGoal` was ever applied.
    NoProblemGoal,
    /// No day is currently open.
    NoOpenDay,
    /// The open day fails its settlement check.
    Settlement(InterpreterError),
}

} // verus!
