use problem_tracker::commands::Command;
use problem_tracker::date::Date;
use problem_tracker::error::{InterpreterError, ReportError};
use problem_tracker::interpreter::Interpreter;
use problem_tracker::problem::ProblemID;

fn id(number: u32, chapter: u32) -> ProblemID {
    ProblemID { number, chapter }
}

#[test]
fn test_report_requires_goal_then_day() -> Result<(), InterpreterError> {
    let exec = Interpreter::default();
    assert_eq!(exec.report().unwrap_err(), ReportError::NoProblemGoal);

    let mut with_goal = Interpreter::default();
    with_goal.next_command(Command::SetProblemGoal(10))?;
    assert_eq!(with_goal.report().unwrap_err(), ReportError::NoOpenDay);
    Ok(())
}

#[test]
fn test_report_fields() -> Result<(), InterpreterError> {
    let mut exec = Interpreter::default();
    exec.next_command(Command::SetProblemGoal(200))?;
    exec.next_command(Command::BeginChapter(3))?;
    exec.next_command(Command::AddProblems(vec![1, 2, 3, 4, 5, 6], None))?;
    exec.next_command(Command::FinishedAmount(4))?;
    exec.next_command(Command::BeginDate(Date::new(2021, 7, 1)))?;
    exec.next_command(Command::AssignedAmount(2))?;
    exec.next_command(Command::NeedToFix(vec![1]))?;

    let report = exec.report().unwrap();
    assert_eq!(report.total_solved, 4);
    assert_eq!(report.total_penalty, 0);
    assert_eq!(report.total_need_to_fix, 1);
    assert_eq!(report.need_to_fix_problems, vec![id(1, 3)]);
    assert_eq!(report.unsolved_problems, vec![id(5, 3), id(6, 3)]);
    // goal + penalty - solved + need-to-fix = 200 + 0 - 4 + 1.
    assert_eq!(report.total_remaining, 197);
    assert_eq!(report.assigned, 2);
    assert_eq!(report.total_solved_not_used, 4);
    assert!(report.assigned_problems_are_completed);

    // Reporting is a pure read: the day stays open and nothing moved.
    assert_eq!(exec.current_date.unwrap().assigned, 2);
    assert_eq!(exec.problems.solved_not_used.len(), 4);
    let again = exec.report().unwrap();
    assert_eq!(again.total_remaining, 197);
    Ok(())
}

#[test]
fn test_report_surfaces_settlement_errors() -> Result<(), InterpreterError> {
    let mut exec = Interpreter::default();
    exec.next_command(Command::SetProblemGoal(10))?;
    exec.next_command(Command::BeginDate(Date::new(2021, 7, 1)))?;
    exec.next_command(Command::AssignedAmount(3))?;
    assert_eq!(
        exec.report().unwrap_err(),
        ReportError::Settlement(InterpreterError::MissingPenalty(Date::new(2021, 7, 1)))
    );
    exec.next_command(Command::Penalty)?;
    assert_eq!(
        exec.report().unwrap_err(),
        ReportError::Settlement(InterpreterError::PenaltyNotSet(Date::new(2021, 7, 1)))
    );
    exec.next_command(Command::SetPenalty(4))?;
    let report = exec.report().unwrap();
    assert!(!report.assigned_problems_are_completed);
    // The check charges nothing: the penalty is only charged when the next
    // day opens.
    assert_eq!(report.total_penalty, 0);
    assert_eq!(exec.total_penalty, 0);
    Ok(())
}

#[test]
fn test_report_unexpected_penalty() -> Result<(), InterpreterError> {
    let mut exec = Interpreter::default();
    exec.next_command(Command::SetProblemGoal(10))?;
    exec.next_command(Command::BeginDate(Date::new(2021, 7, 1)))?;
    exec.next_command(Command::Penalty)?;
    assert_eq!(
        exec.report().unwrap_err(),
        ReportError::Settlement(InterpreterError::UnexpectedPenalty(Date::new(2021, 7, 1)))
    );
    Ok(())
}

#[test]
fn test_report_after_reset_excludes_archive() -> Result<(), InterpreterError> {
    let mut exec = Interpreter::default();
    exec.next_command(Command::SetProblemGoal(50))?;
    exec.next_command(Command::SetPenalty(5))?;
    exec.next_command(Command::BeginChapter(1))?;
    exec.next_command(Command::AddProblems(vec![1, 2, 3], None))?;
    exec.next_command(Command::FinishedAmount(3))?;
    exec.next_command(Command::NeedToFix(vec![2]))?;
    exec.next_command(Command::BeginDate(Date::new(2021, 7, 1)))?;
    exec.next_command(Command::AssignedAmount(9))?;
    exec.next_command(Command::Penalty)?;
    exec.next_command(Command::BeginDate(Date::new(2021, 7, 2)))?;
    assert_eq!(exec.total_penalty, 5);

    exec.next_command(Command::ResetRemaining)?;
    assert_eq!(exec.total_penalty, 0);
    assert_eq!(exec.problems.solved_before_reset.len(), 3);

    let report = exec.report().unwrap();
    assert_eq!(report.total_solved, 0);
    assert_eq!(report.total_need_to_fix, 0);
    assert!(report.need_to_fix_problems.is_empty());
    assert!(report.unsolved_problems.is_empty());
    assert_eq!(report.total_penalty, 0);
    assert_eq!(report.total_remaining, 50);
    Ok(())
}

#[test]
fn test_fix_status_errors_through_interpreter() -> Result<(), InterpreterError> {
    let mut exec = Interpreter::default();
    assert_eq!(
        exec.next_command(Command::NeedToFix(vec![1])).unwrap_err(),
        InterpreterError::FixStatusWithoutChapter(problem_tracker::problem::FixStatus::NeedToFix)
    );
    exec.next_command(Command::BeginChapter(4))?;
    assert_eq!(
        exec.next_command(Command::Fixed(vec![1])).unwrap_err(),
        InterpreterError::FixStatusProblemNotFound(
            id(1, 4),
            problem_tracker::problem::FixStatus::Fixed
        )
    );
    Ok(())
}

#[test]
fn test_multi_item_command_keeps_earlier_effects() -> Result<(), InterpreterError> {
    let mut exec = Interpreter::default();
    exec.next_command(Command::BeginChapter(1))?;
    exec.next_command(Command::AddProblems(vec![1, 2], None))?;
    exec.next_command(Command::FinishedAmount(2))?;
    // The first number is changed before the second one fails; its change
    // stays applied.
    assert!(exec
        .next_command(Command::NeedToFix(vec![1, 99]))
        .is_err());
    assert_eq!(
        exec.problems.solved_not_used[0].fix_status,
        problem_tracker::problem::FixStatus::NeedToFix
    );
    assert_eq!(
        exec.problems.solved_not_used[1].fix_status,
        problem_tracker::problem::FixStatus::Fixed
    );
    Ok(())
}
