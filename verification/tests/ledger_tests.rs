use problem_tracker::error::InterpreterError;
use problem_tracker::ledger::Problems;
use problem_tracker::problem::{FixStatus, Problem, ProblemID};

fn id(number: u32, chapter: u32) -> ProblemID {
    ProblemID { number, chapter }
}

fn numbers(v: &Vec<Problem>) -> Vec<u32> {
    v.iter().map(|p| p.id.number).collect()
}

#[test]
fn test_add_disjoint_batches_count() {
    let mut led = Problems::default();
    assert!(led.add(vec![id(1, 1), id(2, 1)], None).is_ok());
    assert!(led.add(vec![id(3, 1), id(4, 1), id(1, 2)], None).is_ok());
    assert_eq!(led.unsolved.len(), 5);
    assert_eq!(numbers(&led.unsolved), vec![1, 2, 3, 4, 1]);
}

#[test]
fn test_add_rejects_id_present_in_any_segment() {
    let mut led = Problems::default();
    assert!(led
        .add(vec![id(1, 1), id(2, 1), id(3, 1), id(4, 1)], None)
        .is_ok());
    assert!(led.finished(3).is_ok());
    assert!(led.use_problems(2));
    led.reset_remaining();
    // Segments now: unsolved = [4], archive = [1, 2, 3].
    assert_eq!(numbers(&led.unsolved), vec![4]);
    assert_eq!(numbers(&led.solved_before_reset), vec![1, 2, 3]);
    for n in 1..=4 {
        assert_eq!(
            led.add(vec![id(n, 1)], None).unwrap_err(),
            InterpreterError::DuplicateProblemAdded(id(n, 1))
        );
    }
    // A whole batch is refused when one entry is a duplicate.
    assert_eq!(
        led.add(vec![id(9, 1), id(2, 1)], None).unwrap_err(),
        InterpreterError::DuplicateProblemAdded(id(2, 1))
    );
    assert_eq!(numbers(&led.unsolved), vec![4]);
}

#[test]
fn test_add_rejects_duplicate_within_batch() {
    let mut led = Problems::default();
    assert_eq!(
        led.add(vec![id(5, 1), id(5, 1)], None).unwrap_err(),
        InterpreterError::DuplicateProblemAdded(id(5, 1))
    );
    assert!(led.unsolved.is_empty());
}

#[test]
fn test_finished_then_use_matches_direct_split() {
    let mut led = Problems::default();
    assert!(led
        .add(vec![id(1, 1), id(2, 1), id(3, 1), id(4, 1)], None)
        .is_ok());
    let before_not_used = led.solved_not_used.len();
    let before_used = led.solved_used.len();
    assert!(led.finished(3).is_ok());
    assert!(led.use_problems(3));
    // From the split's perspective the three problems went straight to the
    // used segment.
    assert_eq!(led.solved_not_used.len(), before_not_used);
    assert_eq!(led.solved_used.len(), before_used + 3);
    assert_eq!(numbers(&led.solved_used), vec![1, 2, 3]);
    assert_eq!(numbers(&led.unsolved), vec![4]);
}

#[test]
fn test_finished_not_enough_leaves_ledger_alone() {
    let mut led = Problems::default();
    assert!(led.add(vec![id(1, 1)], None).is_ok());
    assert_eq!(
        led.finished(2).unwrap_err(),
        InterpreterError::NotEnoughProblems
    );
    assert_eq!(numbers(&led.unsolved), vec![1]);
    assert!(led.solved_not_used.is_empty());
}

#[test]
fn test_use_problems_insufficient_returns_false() {
    let mut led = Problems::default();
    assert!(led.add(vec![id(1, 1), id(2, 1)], None).is_ok());
    assert!(led.finished(1).is_ok());
    assert!(!led.use_problems(2));
    assert_eq!(numbers(&led.solved_not_used), vec![1]);
    assert!(led.solved_used.is_empty());
    assert!(led.use_problems(1));
    assert_eq!(numbers(&led.solved_used), vec![1]);
}

#[test]
fn test_change_status_round_trip() {
    let mut led = Problems::default();
    assert!(led.add(vec![id(1, 1), id(2, 1)], None).is_ok());
    assert!(led.finished(2).is_ok());
    assert!(led.use_problems(1));
    let before_used: Vec<Problem> = led.solved_used.clone();
    let before_not_used: Vec<Problem> = led.solved_not_used.clone();
    assert!(led.change_status(1, 1, FixStatus::NeedToFix).is_ok());
    assert_eq!(led.solved_used[0].fix_status, FixStatus::NeedToFix);
    assert!(led.change_status(1, 1, FixStatus::Fixed).is_ok());
    assert_eq!(led.solved_used, before_used);
    assert_eq!(led.solved_not_used, before_not_used);
    assert_eq!(led.total_solved(), 2);
    assert_eq!(led.total_solved_not_used(), 1);
}

#[test]
fn test_change_status_not_found_and_not_changed() {
    let mut led = Problems::default();
    assert!(led.add(vec![id(1, 1)], None).is_ok());
    // Unsolved problems are not eligible.
    assert_eq!(
        led.change_status(1, 1, FixStatus::NeedToFix).unwrap_err(),
        InterpreterError::FixStatusProblemNotFound(id(1, 1), FixStatus::NeedToFix)
    );
    assert!(led.finished(1).is_ok());
    assert_eq!(
        led.change_status(1, 1, FixStatus::Fixed).unwrap_err(),
        InterpreterError::FixStatusNotChanged(
            Problem { id: id(1, 1), fix_status: FixStatus::Fixed },
            FixStatus::Fixed
        )
    );
    assert_eq!(
        led.change_status(1, 2, FixStatus::NeedToFix).unwrap_err(),
        InterpreterError::FixStatusProblemNotFound(id(1, 2), FixStatus::NeedToFix)
    );
}

#[test]
fn test_change_status_prefers_used_segment() {
    let mut led = Problems::default();
    assert!(led.add(vec![id(1, 1), id(2, 1)], None).is_ok());
    assert!(led.finished(2).is_ok());
    assert!(led.use_problems(1));
    // Problem 1 sits in the used segment, problem 2 in the not-used one;
    // both are found.
    assert!(led.change_status(1, 1, FixStatus::NeedToFix).is_ok());
    assert!(led.change_status(2, 1, FixStatus::NeedToFix).is_ok());
    assert_eq!(led.solved_used[0].fix_status, FixStatus::NeedToFix);
    assert_eq!(led.solved_not_used[0].fix_status, FixStatus::NeedToFix);
}

#[test]
fn test_reset_remaining_archives_in_order() {
    let mut led = Problems::default();
    assert!(led
        .add(vec![id(1, 1), id(2, 1), id(3, 1), id(4, 1)], None)
        .is_ok());
    assert!(led.finished(3).is_ok());
    assert!(led.use_problems(2));
    led.reset_remaining();
    assert_eq!(numbers(&led.unsolved), vec![4]);
    assert!(led.solved_used.is_empty());
    assert!(led.solved_not_used.is_empty());
    // Used entries first, then not-used.
    assert_eq!(numbers(&led.solved_before_reset), vec![1, 2, 3]);
    assert_eq!(led.total_solved(), 0);
}

#[test]
fn test_solved_iter_order() {
    let mut led = Problems::default();
    assert!(led.add(vec![id(1, 1), id(2, 1), id(3, 1)], None).is_ok());
    assert!(led.finished(3).is_ok());
    assert!(led.use_problems(2));
    let solved = led.solved_iter();
    assert_eq!(numbers(&solved), vec![1, 2, 3]);
}
