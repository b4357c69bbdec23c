//! The point-in-time progress report.

use vstd::prelude::*;

use crate::problem::{FixStatus, Problem, ProblemID};

verus! {

/// A snapshot computed on demand from interpreter state; it holds no
/// independent lifecycle. The two listings preserve ledger order.
#[derive(Clone, Debug)]
pub struct Report {
    pub total_remaining: u32,
    pub total_solved: u32,
    pub total_penalty: u32,
    pub total_need_to_fix: u32,
    pub unsolved_problems: Vec<ProblemID>,
    pub need_to_fix_problems: Vec<ProblemID>,
    pub assigned_problems_are_completed: bool,
    pub assigned: u32,
    pub total_solved_not_used: u32,
}

/// The IDs of the entries of `s` marked `NeedToFix`, in order.
pub open spec fn need_fix_ids(s: Seq<Problem>) -> Seq<ProblemID>
    decreases s.len(),
{
    if s.len() == 0 {
        Seq::empty()
    } else if s[0].fix_status == FixStatus::NeedToFix {
        seq![s[0].id] + need_fix_ids(s.skip(1))
    } else {
        need_fix_ids(s.skip(1))
    }
}

/// At most every entry is marked for rework.
pub proof fn lemma_need_fix_ids_len(s: Seq<Problem>)
    ensures
        need_fix_ids(s).len() <= s.len(),
    decreases s.len(),
{
    if s.len() > 0 {
        lemma_need_fix_ids_len(s.skip(1));
    }
}

} // verus!
