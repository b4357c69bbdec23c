//! The structured command values the interpreter consumes.

use vstd::prelude::*;

use crate::date::Date;

verus! {

/// One already-parsed input command. The library never inspects raw text;
/// the surrounding application turns each input line into one of these.
///
/// The add-problems family carries the problem numbers to add and an
/// optional list of numbers, taken from the same command, to skip.
#[derive(Clone, Debug)]
pub enum Command {
    SetProblemGoal(u32),
    SetPenalty(u32),
    BeginDate(Date),
    BeginChapter(u32),
    AssignedAmount(u32),
    FinishedAmount(u32),
    AddProblems(Vec<u32>, Option<Vec<u32>>),
    AddEvenProblems(Vec<u32>, Option<Vec<u32>>),
    AddOddProblems(Vec<u32>, Option<Vec<u32>>),
    NeedToFix(Vec<u32>),
    Fixed(Vec<u32>),
    Penalty,
    ResetRemaining,
    NOP,
}

} // verus!
