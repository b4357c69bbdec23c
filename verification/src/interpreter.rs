//! The command-interpretation state machine.
//!
//! One [`Interpreter`] is created per run, mutated once per command in strict
//! input order through [`Interpreter::next_command`], and queried at the end
//! through [`Interpreter::report`]. The whole transition relation is written
//! down once, as the spec function [`spec_step`]; `next_command` is proved to
//! implement it exactly.

use vstd::prelude::*;

use crate::commands::Command;
use crate::date::{date_is_succ, succ_date, Date};
use crate::error::{InterpreterError, ReportError};
use crate::ledger::{
    ids_of, opt_ids_view, spec_add, spec_change_list, spec_finished, spec_reset,
    spec_use, LedgerView, Problems,
};
use crate::problem::{FixStatus, ProblemID};
use crate::report::{lemma_need_fix_ids_len, need_fix_ids, Report};

verus! {

/// The currently open day. Exists only while a day is open and is replaced
/// wholesale when a new day opens.
#[derive(Clone, Copy, Debug, PartialEq, Eq, Structural)]
pub struct DailyInformation {
    pub date: Date,
    pub assigned: u32,
    pub penalty_applied: bool,
}

/// The state machine: scalar state plus the problem ledger.
pub struct Interpreter {
    pub problem_goal: Option<u32>,
    pub penalty: Option<u32>,
    pub current_date: Option<DailyInformation>,
    pub current_chapter: Option<u32>,
    pub problems: Problems,
    pub total_penalty: u32,
}

/// The mathematical model of an [`Interpreter`].
#[verifier::ext_equal]
pub struct InterpView {
    pub problem_goal: Option<u32>,
    pub penalty: Option<u32>,
    pub current_date: Option<DailyInformation>,
    pub current_chapter: Option<u32>,
    pub problems: LedgerView,
    pub total_penalty: u32,
}

impl View for Interpreter {
    type V = InterpView;

    open spec fn view(&self) -> InterpView {
        InterpView {
            problem_goal: self.problem_goal,
            penalty: self.penalty,
            current_date: self.current_date,
            current_chapter: self.current_chapter,
            problems: self.problems@,
            total_penalty: self.total_penalty,
        }
    }
}

/// The state every run starts from: everything empty, no penalty accrued.
pub open spec fn spec_init() -> InterpView {
    InterpView {
        problem_goal: None,
        penalty: None,
        current_date: None,
        current_chapter: None,
        problems: LedgerView {
            unsolved: Seq::empty(),
            solved_not_used: Seq::empty(),
            solved_used: Seq::empty(),
            solved_before_reset: Seq::empty(),
        },
        total_penalty: 0,
    }
}

impl Default for Interpreter {
    /// A fresh interpreter in the initial state.
    fn default() -> (r: Interpreter)
        ensures
            r@ == spec_init(),
    {
        let r = Interpreter {
            problem_goal: None,
            penalty: None,
            current_date: None,
            current_chapter: None,
            problems: Problems::default(),
            total_penalty: 0,
        };
        proof {
            assert(r@ =~~= spec_init());
        }
        r
    }
}

/// Day settlement: reconcile the open day's assigned quota against the
/// solved-but-unused problems, possibly charging a penalty. With no open day
/// it does nothing. Performed once per day, at the `BeginDate` that closes
/// it, and checked again (without effect) by every report.
pub open spec fn spec_settle(m: InterpView) -> (Result<(), InterpreterError>, InterpView) {
    match m.current_date {
        None => (Ok(()), m),
        Some(day) => {
            let used = spec_use(m.problems, day.assigned);
            if used.0 {
                let m2 = InterpView { problems: used.1, ..m };
                if day.penalty_applied {
                    (Err(InterpreterError::UnexpectedPenalty(day.date)), m2)
                } else {
                    (Ok(()), m2)
                }
            } else if day.penalty_applied {
                match m.penalty {
                    Some(p) => (
                        Ok(()),
                        InterpView { total_penalty: (m.total_penalty + p) as u32, ..m },
                    ),
                    None => (Err(InterpreterError::PenaltyNotSet(day.date)), m),
                }
            } else {
                (Err(InterpreterError::MissingPenalty(day.date)), m)
            }
        },
    }
}

/// Whether `next` may open: either no day is open yet, or `next` is the
/// immediate successor of the open day's date.
pub open spec fn next_date_ok(cur: Option<DailyInformation>, next: Date) -> bool {
    match cur {
        None => true,
        Some(day) => date_is_succ(day.date, next),
    }
}

/// The entries of `nums` whose remainder modulo two is `rem`, in order.
pub open spec fn keep_parity(nums: Seq<u32>, rem: u32) -> Seq<u32>
    decreases nums.len(),
{
    if nums.len() == 0 {
        Seq::empty()
    } else if nums[0] % 2 == rem {
        seq![nums[0]] + keep_parity(nums.skip(1), rem)
    } else {
        keep_parity(nums.skip(1), rem)
    }
}

/// Problem IDs built from numbers against the open chapter.
pub open spec fn ids_for_chapter(nums: Seq<u32>, chapter: u32) -> Seq<ProblemID> {
    nums.map_values(|n: u32| ProblemID { number: n, chapter })
}

/// The view of an optional number list.
pub open spec fn opt_nums_view(skip: Option<Vec<u32>>) -> Option<Seq<u32>> {
    match skip {
        Some(v) => Some(v@),
        None => None,
    }
}

/// An optional skip list built against the open chapter.
pub open spec fn opt_ids_for_chapter(skip: Option<Seq<u32>>, chapter: u32) -> Option<
    Seq<ProblemID>,
> {
    match skip {
        Some(s) => Some(ids_for_chapter(s, chapter)),
        None => None,
    }
}

/// What the add-problems family does once its numbers are fixed: require an
/// open chapter, then delegate to the ledger's add.
pub open spec fn spec_add_command(m: InterpView, nums: Seq<u32>, skip: Option<Seq<u32>>) -> (
    Result<(), InterpreterError>,
    InterpView,
) {
    match m.current_chapter {
        None => (Err(InterpreterError::AddProblemsWithoutChapter), m),
        Some(ch) => {
            let step = spec_add(
                m.problems,
                ids_for_chapter(nums, ch),
                opt_ids_for_chapter(skip, ch),
            );
            (step.0, InterpView { problems: step.1, ..m })
        },
    }
}

/// What `NeedToFix`/`Fixed` do: require an open chapter, then change the
/// status of each listed number in order, stopping at the first failure with
/// the earlier changes kept.
pub open spec fn spec_fix_command(m: InterpView, nums: Seq<u32>, new_status: FixStatus) -> (
    Result<(), InterpreterError>,
    InterpView,
) {
    match m.current_chapter {
        None => (Err(InterpreterError::FixStatusWithoutChapter(new_status)), m),
        Some(ch) => {
            let step = spec_change_list(m.problems, nums, ch, new_status);
            (step.0, InterpView { problems: step.1, ..m })
        },
    }
}

/// The transition relation: what one command does to the state, and with
/// which result. Errors may leave partial effects, exactly as stated here:
/// a failing `BeginDate` keeps the effects of the settlement that preceded
/// the failing check, and a failing multi-item command keeps the effects of
/// its earlier items.
pub open spec fn spec_step(m: InterpView, cmd: Command) -> (
    Result<(), InterpreterError>,
    InterpView,
) {
    match cmd {
        Command::SetProblemGoal(n) => (Ok(()), InterpView { problem_goal: Some(n), ..m }),
        Command::SetPenalty(n) => (Ok(()), InterpView { penalty: Some(n), ..m }),
        Command::BeginDate(d) => {
            let settled = spec_settle(m);
            if settled.0 is Err {
                settled
            } else if !next_date_ok(m.current_date, d) {
                (Err(InterpreterError::DateNotContiguous), settled.1)
            } else {
                (
                    Ok(()),
                    InterpView {
                        current_date: Some(
                            DailyInformation { date: d, assigned: 0, penalty_applied: false },
                        ),
                        ..settled.1
                    },
                )
            }
        },
        Command::BeginChapter(n) => (Ok(()), InterpView { current_chapter: Some(n), ..m }),
        Command::AssignedAmount(n) => match m.current_date {
            Some(day) => (
                Ok(()),
                InterpView {
                    current_date: Some(
                        DailyInformation { assigned: (day.assigned + n) as u32, ..day },
                    ),
                    ..m
                },
            ),
            None => (Err(InterpreterError::AssignProblemsNoDate), m),
        },
        Command::FinishedAmount(n) => {
            let step = spec_finished(m.problems, n);
            (step.0, InterpView { problems: step.1, ..m })
        },
        Command::AddProblems(nums, skip) => spec_add_command(m, nums@, opt_nums_view(skip)),
        Command::AddEvenProblems(nums, skip) => spec_add_command(
            m,
            keep_parity(nums@, 0),
            opt_nums_view(skip),
        ),
        Command::AddOddProblems(nums, skip) => spec_add_command(
            m,
            keep_parity(nums@, 1),
            opt_nums_view(skip),
        ),
        Command::NeedToFix(nums) => spec_fix_command(m, nums@, FixStatus::NeedToFix),
        Command::Fixed(nums) => spec_fix_command(m, nums@, FixStatus::Fixed),
        Command::Penalty => match m.current_date {
            Some(day) => (
                Ok(()),
                InterpView {
                    current_date: Some(DailyInformation { penalty_applied: true, ..day }),
                    ..m
                },
            ),
            None => (Err(InterpreterError::PenaltyNoDate), m),
        },
        Command::ResetRemaining => (
            Ok(()),
            InterpView { total_penalty: 0, problems: spec_reset(m.problems), ..m },
        ),
        Command::NOP => (Ok(()), m),
    }
}

/// Machine limit on settlement: when a penalty is about to be charged, the
/// accumulated total must not overflow.
pub open spec fn settle_fits(m: InterpView) -> bool {
    match m.current_date {
        Some(day) => (day.assigned as nat > m.problems.solved_not_used.len() && day.penalty_applied
            && m.penalty is Some) ==> m.total_penalty + m.penalty.unwrap() <= u32::MAX,
        None => true,
    }
}

/// Machine limits a caller must respect: the two counters that a command can
/// grow must not overflow their `u32`.
pub open spec fn step_fits(m: InterpView, cmd: Command) -> bool {
    match cmd {
        Command::BeginDate(_) => settle_fits(m),
        Command::AssignedAmount(n) => match m.current_date {
            Some(day) => day.assigned + n <= u32::MAX,
            None => true,
        },
        _ => true,
    }
}

/// Why a report cannot be produced, if it cannot: a missing prerequisite, or
/// the settlement check failing for the open day.
pub open spec fn spec_report_err(m: InterpView) -> Option<ReportError> {
    if m.problem_goal is None {
        Some(ReportError::NoProblemGoal)
    } else if m.current_date is None {
        Some(ReportError::NoOpenDay)
    } else {
        match spec_settle(m).0 {
            Err(e) => Some(ReportError::Settlement(e)),
            Ok(_) => None,
        }
    }
}

/// The remaining work: goal plus accrued penalty, minus solved work, plus
/// work marked for rework (which counts back against the goal).
pub open spec fn spec_remaining(m: InterpView) -> int {
    m.problem_goal.unwrap() + m.total_penalty - m.problems.total_solved() + need_fix_ids(
        m.problems.solved(),
    ).len()
}

/// Machine limits on the report's counters, when a report is owed at all.
pub open spec fn report_fits(m: InterpView) -> bool {
    spec_report_err(m) is None ==> (m.problems.total_solved() <= u32::MAX && 0 <= spec_remaining(m)
        <= u32::MAX)
}

impl Interpreter {
    /// Whether `date` may open the next day: true with no day open, else
    /// exactly when `date` is the open day's immediate successor.
    fn check_next_date_contiguous(&self, date: &Date) -> (r: bool)
        ensures
            r == next_date_ok(self@.current_date, *date),
    {
        match &self.current_date {
            Some(day) => match succ_date(&day.date) {
                Some(s) => s == *date,
                None => false,
            },
            None => true,
        }
    }

    /// Settles the currently open day, as described by [`spec_settle`].
    fn process_current_date(&mut self) -> (r: Result<(), InterpreterError>)
        requires
            settle_fits(old(self)@),
        ensures
            ({
                let step = spec_settle(old(self)@);
                r == step.0 && final(self)@ == step.1
            }),
    {
        if let Some(day) = self.current_date {
            let enough_problems_to_use = self.problems.use_problems(day.assigned);
            let r = if !enough_problems_to_use {
                if day.penalty_applied {
                    match self.penalty {
                        Some(penalty) => {
                            self.total_penalty = self.total_penalty + penalty;
                            Ok(())
                        },
                        None => Err(InterpreterError::PenaltyNotSet(day.date)),
                    }
                } else {
                    Err(InterpreterError::MissingPenalty(day.date))
                }
            } else if day.penalty_applied {
                Err(InterpreterError::UnexpectedPenalty(day.date))
            } else {
                Ok(())
            };
            proof {
                assert(self@ =~~= spec_settle(old(self)@).1);
            }
            r
        } else {
            Ok(())
        }
    }

    /// The shared body of the add-problems family, once the numbers to add
    /// are fixed: builds IDs against the open chapter and delegates to the
    /// ledger.
    fn add_problems_numbers(&mut self, nums: Vec<u32>, skip: Option<Vec<u32>>) -> (r: Result<
        (),
        InterpreterError,
    >)
        ensures
            ({
                let step = spec_add_command(old(self)@, nums@, opt_nums_view(skip));
                r == step.0 && final(self)@ == step.1
            }),
    {
        let chapter = match self.current_chapter {
            Some(c) => c,
            None => {
                return Err(InterpreterError::AddProblemsWithoutChapter);
            },
        };
        let ids = ids_vec_for_chapter(&nums, chapter);
        let skip_ids = match &skip {
            Some(sk) => Some(ids_vec_for_chapter(sk, chapter)),
            None => None,
        };
        proof {
            assert(opt_ids_view(skip_ids) == opt_ids_for_chapter(opt_nums_view(skip), chapter));
        }
        let r = self.problems.add(ids, skip_ids);
        proof {
            assert(self@ =~~= spec_add_command(old(self)@, nums@, opt_nums_view(skip)).1);
        }
        r
    }

    /// The shared body of `NeedToFix` and `Fixed`: change each listed number
    /// in order against the open chapter, stopping at the first failure with
    /// the earlier changes kept.
    fn change_need_to_fix_status(&mut self, nums: Vec<u32>, new_status: FixStatus) -> (r: Result<
        (),
        InterpreterError,
    >)
        ensures
            ({
                let step = spec_fix_command(old(self)@, nums@, new_status);
                r == step.0 && final(self)@ == step.1
            }),
    {
        let chapter = match self.current_chapter {
            Some(c) => c,
            None => {
                return Err(InterpreterError::FixStatusWithoutChapter(new_status));
            },
        };
        let mut j: usize = 0;
        proof {
            assert(nums@.skip(0) =~= nums@);
        }
        while j < nums.len()
            invariant
                j <= nums@.len(),
                self@.problem_goal == old(self)@.problem_goal,
                self@.penalty == old(self)@.penalty,
                self@.current_date == old(self)@.current_date,
                self@.current_chapter == old(self)@.current_chapter,
                self@.total_penalty == old(self)@.total_penalty,
                spec_change_list(old(self)@.problems, nums@, chapter, new_status)
                    == spec_change_list(self@.problems, nums@.skip(j as int), chapter, new_status),
            decreases nums@.len() - j,
        {
            proof {
                assert(nums@.skip(j as int)[0] == nums@[j as int]);
                assert(nums@.skip(j as int).skip(1) =~= nums@.skip(j + 1));
            }
            let res = self.problems.change_status(nums[j], chapter, new_status);
            if let Err(e) = res {
                return Err(e);
            }
            j += 1;
        }
        proof {
            assert(nums@.skip(j as int) =~= Seq::<u32>::empty());
        }
        Ok(())
    }

    /// Applies one command, as described by [`spec_step`]. The first error
    /// ends the run; nothing is caught or retried here.
    pub fn next_command(&mut self, cmd: Command) -> (r: Result<(), InterpreterError>)
        requires
            step_fits(old(self)@, cmd),
        ensures
            ({
                let step = spec_step(old(self)@, cmd);
                r == step.0 && final(self)@ == step.1
            }),
    {
        match cmd {
            Command::SetProblemGoal(n) => {
                self.problem_goal = Some(n);
                Ok(())
            },
            Command::SetPenalty(n) => {
                self.penalty = Some(n);
                Ok(())
            },
            Command::BeginDate(date) => {
                if let Err(e) = self.process_current_date() {
                    return Err(e);
                }
                if !self.check_next_date_contiguous(&date) {
                    return Err(InterpreterError::DateNotContiguous);
                }
                self.current_date = Some(
                    DailyInformation { date, assigned: 0, penalty_applied: false },
                );
                Ok(())
            },
            Command::BeginChapter(n) => {
                self.current_chapter = Some(n);
                Ok(())
            },
            Command::AssignedAmount(n) => {
                match self.current_date {
                    Some(day) => {
                        self.current_date = Some(
                            DailyInformation { assigned: day.assigned + n, ..day },
                        );
                        Ok(())
                    },
                    None => Err(InterpreterError::AssignProblemsNoDate),
                }
            },
            Command::FinishedAmount(n) => self.problems.finished(n),
            Command::AddProblems(nums, skip) => self.add_problems_numbers(nums, skip),
            Command::AddEvenProblems(nums, skip) => {
                let filtered = filter_parity(&nums, 0);
                self.add_problems_numbers(filtered, skip)
            },
            Command::AddOddProblems(nums, skip) => {
                let filtered = filter_parity(&nums, 1);
                self.add_problems_numbers(filtered, skip)
            },
            Command::NeedToFix(nums) => self.change_need_to_fix_status(
                nums,
                FixStatus::NeedToFix,
            ),
            Command::Fixed(nums) => self.change_need_to_fix_status(nums, FixStatus::Fixed),
            Command::Penalty => {
                match self.current_date {
                    Some(day) => {
                        self.current_date = Some(
                            DailyInformation { penalty_applied: true, ..day },
                        );
                        Ok(())
                    },
                    None => Err(InterpreterError::PenaltyNoDate),
                }
            },
            Command::ResetRemaining => {
                self.total_penalty = 0;
                self.problems.reset_remaining();
                Ok(())
            },
            Command::NOP => Ok(()),
        }
    }

    /// Derives the report from the current state, without mutating anything:
    /// the open day stays open, and no penalty is charged. Requires a goal
    /// and an open day, and surfaces the open day's settlement error if it
    /// has one, as described by [`spec_report_err`].
    pub fn report(&self) -> (r: Result<Report, ReportError>)
        requires
            report_fits(self@),
        ensures
            (spec_report_err(self@) matches Some(e) ==> r == Err::<Report, ReportError>(e)),
            spec_report_err(self@) is None ==> (r matches Ok(rep) && rep.total_solved
                == self@.problems.total_solved() && rep.total_penalty == self@.total_penalty
                && rep.need_to_fix_problems@ == need_fix_ids(self@.problems.solved())
                && rep.total_need_to_fix == need_fix_ids(self@.problems.solved()).len()
                && rep.unsolved_problems@ == ids_of(self@.problems.unsolved)
                && rep.total_remaining == spec_remaining(self@) && rep.assigned
                == self@.current_date.unwrap().assigned && rep.total_solved_not_used
                == self@.problems.solved_not_used.len() && (rep.assigned_problems_are_completed
                <==> self@.current_date.unwrap().assigned as nat
                <= self@.problems.solved_not_used.len())),
    {
        let problem_goal = match self.problem_goal {
            Some(g) => g,
            None => {
                return Err(ReportError::NoProblemGoal);
            },
        };
        let day = match self.current_date {
            Some(d) => d,
            None => {
                return Err(ReportError::NoOpenDay);
            },
        };
        // The settlement check, surfaced without performing the settlement.
        if day.assigned as usize <= self.problems.solved_not_used.len() {
            if day.penalty_applied {
                return Err(ReportError::Settlement(InterpreterError::UnexpectedPenalty(day.date)));
            }
        } else {
            if !day.penalty_applied {
                return Err(ReportError::Settlement(InterpreterError::MissingPenalty(day.date)));
            }
            if self.penalty.is_none() {
                return Err(ReportError::Settlement(InterpreterError::PenaltyNotSet(day.date)));
            }
        }
        let total_penalty = self.total_penalty;
        let solved = self.problems.solved_iter();
        let mut need_to_fix_problems: Vec<ProblemID> = Vec::new();
        let mut j: usize = 0;
        proof {
            assert(solved@.skip(0) =~= solved@);
        }
        while j < solved.len()
            invariant
                j <= solved@.len(),
                need_fix_ids(solved@) == need_to_fix_problems@ + need_fix_ids(
                    solved@.skip(j as int),
                ),
            decreases solved@.len() - j,
        {
            proof {
                assert(solved@.skip(j as int)[0] == solved@[j as int]);
                assert(solved@.skip(j as int).skip(1) =~= solved@.skip(j + 1));
            }
            if solved[j].fix_status == FixStatus::NeedToFix {
                let ghost pre = need_to_fix_problems@;
                need_to_fix_problems.push(solved[j].id);
                proof {
                    assert(pre + (seq![solved@[j as int].id] + need_fix_ids(solved@.skip(j + 1)))
                        =~= need_to_fix_problems@ + need_fix_ids(solved@.skip(j + 1)));
                }
            }
            j += 1;
        }
        proof {
            assert(solved@.skip(j as int) =~= Seq::<crate::problem::Problem>::empty());
            assert(need_to_fix_problems@ + Seq::<ProblemID>::empty() =~= need_to_fix_problems@);
            lemma_need_fix_ids_len(solved@);
        }
        let total_need_to_fix = need_to_fix_problems.len() as u32;
        let mut unsolved_problems: Vec<ProblemID> = Vec::new();
        let mut k: usize = 0;
        while k < self.problems.unsolved.len()
            invariant
                k <= self@.problems.unsolved.len(),
                unsolved_problems@ == ids_of(self@.problems.unsolved.take(k as int)),
            decreases self@.problems.unsolved.len() - k,
        {
            unsolved_problems.push(self.problems.unsolved[k].id);
            proof {
                assert(ids_of(self@.problems.unsolved.take(k as int)).push(
                    self@.problems.unsolved[k as int].id,
                ) =~= ids_of(self@.problems.unsolved.take(k + 1)));
            }
            k += 1;
        }
        proof {
            assert(self@.problems.unsolved.take(k as int) =~= self@.problems.unsolved);
        }
        let total_solved = self.problems.total_solved();
        let total_solved_not_used = self.problems.total_solved_not_used();
        let remaining_wide: i64 = problem_goal as i64 + total_penalty as i64 - total_solved as i64
            + total_need_to_fix as i64;
        proof {
            assert(remaining_wide == spec_remaining(self@));
        }
        let total_remaining = remaining_wide as u32;
        let assigned = day.assigned;
        let assigned_problems_are_completed = assigned <= total_solved_not_used;
        Ok(
            Report {
                total_remaining,
                total_solved,
                total_penalty,
                total_need_to_fix,
                unsolved_problems,
                need_to_fix_problems,
                assigned_problems_are_completed,
                assigned,
                total_solved_not_used,
            },
        )
    }
}

/// Problem IDs for the given numbers against one chapter, in order.
fn ids_vec_for_chapter(nums: &Vec<u32>, chapter: u32) -> (r: Vec<ProblemID>)
    ensures
        r@ == ids_for_chapter(nums@, chapter),
{
    let mut out: Vec<ProblemID> = Vec::new();
    let mut j: usize = 0;
    while j < nums.len()
        invariant
            j <= nums@.len(),
            out@ == ids_for_chapter(nums@.take(j as int), chapter),
        decreases nums@.len() - j,
    {
        out.push(ProblemID { number: nums[j], chapter });
        proof {
            assert(ids_for_chapter(nums@.take(j as int), chapter).push(
                ProblemID { number: nums@[j as int], chapter },
            ) =~= ids_for_chapter(nums@.take(j + 1), chapter));
        }
        j += 1;
    }
    proof {
        assert(nums@.take(j as int) =~= nums@);
    }
    out
}

/// The numbers whose remainder modulo two is `rem`, in order.
fn filter_parity(nums: &Vec<u32>, rem: u32) -> (r: Vec<u32>)
    requires
        rem == 0 || rem == 1,
    ensures
        r@ == keep_parity(nums@, rem),
{
    let mut out: Vec<u32> = Vec::new();
    let mut j: usize = 0;
    proof {
        assert(nums@.skip(0) =~= nums@);
    }
    while j < nums.len()
        invariant
            j <= nums@.len(),
            keep_parity(nums@, rem) == out@ + keep_parity(nums@.skip(j as int), rem),
        decreases nums@.len() - j,
    {
        proof {
            assert(nums@.skip(j as int)[0] == nums@[j as int]);
            assert(nums@.skip(j as int).skip(1) =~= nums@.skip(j + 1));
        }
        if nums[j] % 2 == rem {
            let ghost pre = out@;
            out.push(nums[j]);
            proof {
                assert(pre + (seq![nums@[j as int]] + keep_parity(nums@.skip(j + 1), rem)) =~= out@
                    + keep_parity(nums@.skip(j + 1), rem));
            }
        }
        j += 1;
    }
    proof {
        assert(nums@.skip(j as int) =~= Seq::<u32>::empty());
        assert(out@ + Seq::<u32>::empty() =~= out@);
    }
    out
}

} // verus!
