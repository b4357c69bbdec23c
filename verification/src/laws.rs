//! The library's general laws, stated over the spec functions that the
//! executable contracts are proved against.

use vstd::prelude::*;

use crate::commands::Command;
use crate::date::Date;
use crate::error::InterpreterError;
use crate::interpreter::{
    spec_remaining, spec_report_err, spec_settle, spec_step, InterpView,
};
use crate::ledger::{
    filter_skip, first_dup_from, first_id_index, ids_of,
    lemma_first_id_index_at, lemma_first_id_index_props, seq_has_id, spec_add, spec_change_one,
    spec_finished, spec_use, to_problems, LedgerView,
};
use crate::problem::{FixStatus, Problem, ProblemID};
use crate::report::need_fix_ids;

verus! {

/// An ID occurs in a concatenation exactly when it occurs in a part.
proof fn lemma_has_id_concat(a: Seq<Problem>, b: Seq<Problem>, x: ProblemID)
    ensures
        seq_has_id(a + b, x) <==> (seq_has_id(a, x) || seq_has_id(b, x)),
{
    if seq_has_id(a + b, x) {
        let i = choose|i: int| 0 <= i < (a + b).len() && (a + b)[i].id == x;
        if i < a.len() {
            assert(a[i].id == x);
        } else {
            assert(b[i - a.len()].id == x);
        }
    }
    if seq_has_id(a, x) {
        let i = choose|i: int| 0 <= i < a.len() && a[i].id == x;
        assert((a + b)[i].id == x);
    }
    if seq_has_id(b, x) {
        let i = choose|i: int| 0 <= i < b.len() && b[i].id == x;
        assert((a + b)[a.len() + i].id == x);
    }
}

/// Fresh problems carry exactly the candidate IDs.
proof fn lemma_has_id_to_problems(ids: Seq<ProblemID>, x: ProblemID)
    ensures
        seq_has_id(to_problems(ids), x) <==> ids.contains(x),
{
    if seq_has_id(to_problems(ids), x) {
        let i = choose|i: int| 0 <= i < to_problems(ids).len() && to_problems(ids)[i].id == x;
        assert(ids[i] == x);
    }
    if ids.contains(x) {
        let i = choose|i: int| 0 <= i < ids.len() && ids[i] == x;
        assert(to_problems(ids)[i].id == x);
    }
}

/// With no skip list, every input ID is a candidate.
proof fn lemma_filter_skip_empty(ids: Seq<ProblemID>)
    ensures
        filter_skip(ids, Seq::empty()) == ids,
    decreases ids.len(),
{
    if ids.len() > 0 {
        lemma_filter_skip_empty(ids.skip(1));
        assert(seq![ids[0]] + ids.skip(1) =~= ids);
    }
}

/// Candidates that are pairwise distinct, absent from the ledger and absent
/// from everything already seen raise no duplicate.
proof fn lemma_no_dup_from(cands: Seq<ProblemID>, led: LedgerView, seen: Seq<ProblemID>)
    requires
        forall|i: int, j: int| 0 <= i < j < cands.len() ==> cands[i] != cands[j],
        forall|i: int| 0 <= i < cands.len() ==> !led.contains_id(#[trigger] cands[i]),
        forall|i: int| 0 <= i < cands.len() ==> !seen.contains(#[trigger] cands[i]),
    ensures
        first_dup_from(cands, led, seen) is None,
    decreases cands.len(),
{
    if cands.len() > 0 {
        assert(forall|i: int|
            0 <= i < cands.skip(1).len() ==> #[trigger] cands.skip(1)[i] == cands[i + 1]);
        assert(forall|i: int|
            0 <= i < cands.skip(1).len() ==> !seen.push(cands[0]).contains(
                #[trigger] cands.skip(1)[i],
            ));
        lemma_no_dup_from(cands.skip(1), led, seen.push(cands[0]));
    }
}

/// Some candidate already present in the ledger (or already seen) always
/// raises a duplicate.
proof fn lemma_dup_found(cands: Seq<ProblemID>, led: LedgerView, seen: Seq<ProblemID>)
    requires
        exists|i: int|
            0 <= i < cands.len() && (led.contains_id(#[trigger] cands[i]) || seen.contains(
                cands[i],
            )),
    ensures
        first_dup_from(cands, led, seen) is Some,
    decreases cands.len(),
{
    if !(led.contains_id(cands[0]) || seen.contains(cands[0])) {
        let i = choose|i: int|
            0 <= i < cands.len() && (led.contains_id(#[trigger] cands[i]) || seen.contains(
                cands[i],
            ));
        assert(cands.skip(1)[i - 1] == cands[i]);
        if seen.contains(cands[i]) {
            let j = choose|j: int| 0 <= j < seen.len() && seen[j] == cands[i];
            assert(seen.push(cands[0])[j] == cands[i]);
        }
        lemma_dup_found(cands.skip(1), led, seen.push(cands[0]));
    }
}

/// After a successful add, the ledger contains exactly the old IDs plus the
/// batch.
proof fn lemma_add_contains(led: LedgerView, ids: Seq<ProblemID>, x: ProblemID)
    requires
        spec_add(led, ids, None).0 is Ok,
    ensures
        spec_add(led, ids, None).1.contains_id(x) <==> (led.contains_id(x) || ids.contains(x)),
{
    lemma_filter_skip_empty(ids);
    let post = spec_add(led, ids, None).1;
    assert(post.unsolved == led.unsolved + to_problems(ids));
    lemma_has_id_concat(led.unsolved, to_problems(ids), x);
    lemma_has_id_to_problems(ids, x);
}

/// One batch of adds: pairwise-distinct IDs, none present anywhere in the
/// ledger, always succeed, grow the total count by the batch size, and leave
/// the ledger containing exactly the old IDs plus the batch.
pub proof fn lemma_add_fresh_ids(led: LedgerView, ids: Seq<ProblemID>)
    requires
        forall|i: int, j: int| 0 <= i < j < ids.len() ==> ids[i] != ids[j],
        forall|i: int| 0 <= i < ids.len() ==> !led.contains_id(#[trigger] ids[i]),
    ensures
        spec_add(led, ids, None).0 is Ok,
        spec_add(led, ids, None).1.total_count() == led.total_count() + ids.len(),
        forall|x: ProblemID|
            spec_add(led, ids, None).1.contains_id(x) <==> (led.contains_id(x) || ids.contains(
                x,
            )),
{
    lemma_filter_skip_empty(ids);
    assert(forall|i: int| 0 <= i < ids.len() ==> !Seq::<ProblemID>::empty().contains(
        #[trigger] ids[i],
    ));
    lemma_no_dup_from(ids, led, Seq::empty());
    assert forall|x: ProblemID|
        spec_add(led, ids, None).1.contains_id(x) <==> (led.contains_id(x) || ids.contains(x)) by {
        lemma_add_contains(led, ids, x);
    }
}

/// Re-adding any ID already present anywhere in the ledger — the archive
/// included — always fails, with a duplicate-problem error, and changes
/// nothing.
pub proof fn lemma_add_duplicate_fails(led: LedgerView, ids: Seq<ProblemID>)
    requires
        exists|i: int| 0 <= i < ids.len() && led.contains_id(#[trigger] ids[i]),
    ensures
        spec_add(led, ids, None).0 is Err,
        spec_add(led, ids, None).0.get_Err_0() is DuplicateProblemAdded,
        spec_add(led, ids, None).1 == led,
{
    lemma_filter_skip_empty(ids);
    lemma_dup_found(ids, led, Seq::empty());
}

/// A whole run of add batches, each applied to the ledger the previous one
/// left behind.
pub open spec fn spec_add_all(led: LedgerView, batches: Seq<Seq<ProblemID>>) -> (
    Result<(), InterpreterError>,
    LedgerView,
)
    decreases batches.len(),
{
    if batches.len() == 0 {
        (Ok(()), led)
    } else {
        let step = spec_add(led, batches[0], None);
        if step.0 is Err {
            step
        } else {
            spec_add_all(step.1, batches.skip(1))
        }
    }
}

/// The combined size of a run of batches.
pub open spec fn sum_lens(batches: Seq<Seq<ProblemID>>) -> nat
    decreases batches.len(),
{
    if batches.len() == 0 {
        0
    } else {
        batches[0].len() + sum_lens(batches.skip(1))
    }
}

/// For every sequence of add batches whose ID sets are pairwise disjoint,
/// pairwise distinct within each batch, and fresh to the ledger, the run
/// succeeds and the ledger's total problem count grows by exactly the sum of
/// the input counts.
pub proof fn lemma_add_all_disjoint(led: LedgerView, batches: Seq<Seq<ProblemID>>)
    requires
        forall|b: int, i: int, j: int|
            0 <= b < batches.len() && 0 <= i < j < batches[b].len() ==> batches[b][i]
                != batches[b][j],
        forall|a: int, b: int, i: int, j: int|
            0 <= a < b < batches.len() && 0 <= i < batches[a].len() && 0 <= j < batches[b].len()
                ==> batches[a][i] != batches[b][j],
        forall|b: int, i: int|
            0 <= b < batches.len() && 0 <= i < batches[b].len() ==> !led.contains_id(
                #[trigger] batches[b][i],
            ),
    ensures
        spec_add_all(led, batches).0 is Ok,
        spec_add_all(led, batches).1.total_count() == led.total_count() + sum_lens(batches),
    decreases batches.len(),
{
    if batches.len() > 0 {
        let first = batches[0];
        lemma_add_fresh_ids(led, first);
        let led1 = spec_add(led, first, None).1;
        let rest = batches.skip(1);
        assert(forall|b: int| 0 <= b < rest.len() ==> #[trigger] rest[b] == batches[b + 1]);
        assert forall|b: int, i: int|
            0 <= b < rest.len() && 0 <= i < rest[b].len() implies !led1.contains_id(
            #[trigger] rest[b][i],
        ) by {
            assert(rest[b][i] == batches[b + 1][i]);
            assert(!led.contains_id(batches[b + 1][i]));
            assert(!first.contains(batches[b + 1][i]));
        }
        lemma_add_all_disjoint(led1, rest);
    }
}

/// Finishing `n` problems and then consuming a quota of the same `n` always
/// succeeds, and — from the split's perspective — is exactly an addition of
/// those `n` problems to the used segment: the not-used segment keeps its
/// size, the used segment grows by `n`, and the combined solved sequence is
/// the old one followed by the `n` freshly finished problems.
pub proof fn lemma_finished_then_use(led: LedgerView, n: u32)
    requires
        n as nat <= led.unsolved.len(),
    ensures
        ({
            let f = spec_finished(led, n);
            f.0 is Ok && {
                let u = spec_use(f.1, n);
                u.0 && u.1.solved_not_used.len() == led.solved_not_used.len()
                    && u.1.solved_used.len() == led.solved_used.len() + n && u.1.solved()
                    == led.solved() + led.unsolved.take(n as int) && u.1.unsolved
                    == led.unsolved.skip(n as int) && u.1.solved_before_reset
                    == led.solved_before_reset
            }
        }),
{
    let f = spec_finished(led, n);
    let u = spec_use(f.1, n);
    assert(u.1.solved() =~= led.solved() + led.unsolved.take(n as int));
}

/// Settlement cannot double-charge a day: the day a successful `BeginDate`
/// installs settles cleanly, with no error and no further charge, until
/// later commands change the picture.
pub proof fn lemma_settle_after_begin_date(m: InterpView, d: Date)
    requires
        spec_step(m, Command::BeginDate(d)).0 is Ok,
    ensures
        ({
            let m1 = spec_step(m, Command::BeginDate(d)).1;
            spec_settle(m1).0 is Ok && spec_settle(m1).1.total_penalty == m1.total_penalty
        }),
{
    let m1 = spec_step(m, Command::BeginDate(d)).1;
    let used = spec_use(m1.problems, 0);
    assert(used.1 =~~= m1.problems);
}

/// `ResetRemaining` always succeeds: it zeroes the accrued penalty, moves
/// all settled problems (used segment first) to the archive, and leaves the
/// unsolved segment alone.
pub proof fn lemma_reset_remaining(m: InterpView)
    ensures
        ({
            let step = spec_step(m, Command::ResetRemaining);
            step.0 is Ok && step.1.total_penalty == 0 && step.1.problems.solved_before_reset
                == m.problems.solved_before_reset + m.problems.solved_used
                + m.problems.solved_not_used && step.1.problems.solved_used.len() == 0
                && step.1.problems.solved_not_used.len() == 0 && step.1.problems.unsolved
                == m.problems.unsolved && step.1.problem_goal == m.problem_goal && step.1.penalty
                == m.penalty && step.1.current_date == m.current_date && step.1.current_chapter
                == m.current_chapter
        }),
{
}

/// The archive contributes nothing to a report: two states that differ only
/// in `solved_before_reset` have the same report outcome, field for field.
pub proof fn lemma_report_ignores_archive(m1: InterpView, m2: InterpView)
    requires
        m1.problem_goal == m2.problem_goal,
        m1.penalty == m2.penalty,
        m1.current_date == m2.current_date,
        m1.current_chapter == m2.current_chapter,
        m1.total_penalty == m2.total_penalty,
        m1.problems.unsolved == m2.problems.unsolved,
        m1.problems.solved_not_used == m2.problems.solved_not_used,
        m1.problems.solved_used == m2.problems.solved_used,
    ensures
        spec_report_err(m1) == spec_report_err(m2),
        m1.problems.total_solved() == m2.problems.total_solved(),
        need_fix_ids(m1.problems.solved()) == need_fix_ids(m2.problems.solved()),
        ids_of(m1.problems.unsolved) == ids_of(m2.problems.unsolved),
        m1.problem_goal is Some ==> spec_remaining(m1) == spec_remaining(m2),
{
    assert(m1.problems.solved() =~= m2.problems.solved());
}

/// Marking a solved problem `NeedToFix` and then `Fixed` again returns the
/// ledger — counts, order and statuses — to exactly its original state.
pub proof fn lemma_change_status_round_trip(led: LedgerView, number: u32, chapter: u32)
    requires
        ({
            let i = first_id_index(led.solved(), ProblemID { number, chapter });
            i != -1 && led.solved()[i].fix_status == FixStatus::Fixed
        }),
    ensures
        ({
            let s1 = spec_change_one(led, number, chapter, FixStatus::NeedToFix);
            s1.0 is Ok && {
                let s2 = spec_change_one(s1.1, number, chapter, FixStatus::Fixed);
                s2.0 is Ok && s2.1 == led
            }
        }),
{
    let id = ProblemID { number, chapter };
    let sol = led.solved();
    let i = first_id_index(sol, id);
    lemma_first_id_index_props(sol, id);
    let p1 = Problem { id: sol[i].id, fix_status: FixStatus::NeedToFix };
    let s1 = spec_change_one(led, number, chapter, FixStatus::NeedToFix);
    let sol1 = s1.1.solved();
    assert(sol1 =~= sol.update(i, p1));
    lemma_first_id_index_at(sol1, id, i);
    let s2 = spec_change_one(s1.1, number, chapter, FixStatus::Fixed);
    if i < led.solved_used.len() {
        assert(s2.1.solved_used =~= led.solved_used);
    } else {
        assert(s2.1.solved_not_used =~= led.solved_not_used);
    }
    assert(s2.1 =~~= led);
}

} // verus!
