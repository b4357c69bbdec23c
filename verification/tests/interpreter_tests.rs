use problem_tracker::commands::Command;
use problem_tracker::date::Date;
use problem_tracker::error::InterpreterError;
use problem_tracker::interpreter::Interpreter;

#[test]
fn test_cmd_set_problem_goal() -> Result<(), InterpreterError> {
    let mut exec = Interpreter::default();
    assert_eq!(exec.problem_goal, None);
    let goal = 200;
    exec.next_command(Command::SetProblemGoal(goal))?;
    assert_eq!(exec.problem_goal, Some(goal));
    Ok(())
}

#[test]
fn test_cmd_set_penalty() -> Result<(), InterpreterError> {
    let mut exec = Interpreter::default();
    assert_eq!(exec.penalty, None);
    let penalty = 5;
    exec.next_command(Command::SetPenalty(penalty))?;
    assert_eq!(exec.penalty, Some(penalty));
    Ok(())
}

#[test]
fn test_cmd_begin_date() -> Result<(), InterpreterError> {
    let mut exec = Interpreter::default();
    assert!(exec.current_date.is_none());
    let date = Date::new(2021, 07, 01);
    exec.next_command(Command::BeginDate(date))?;
    assert_eq!(exec.current_date.unwrap().date, date);
    Ok(())
}

#[test]
fn test_cmd_begin_date_not_contiguous() -> Result<(), InterpreterError> {
    let mut exec = Interpreter::default();
    let date1 = Date::new(2021, 07, 01);
    let date2 = Date::new(2021, 07, 03);
    exec.next_command(Command::BeginDate(date1))?;
    assert_eq!(
        exec.next_command(Command::BeginDate(date2)).unwrap_err(),
        InterpreterError::DateNotContiguous
    );
    Ok(())
}

#[test]
fn test_cmd_begin_chapter() -> Result<(), InterpreterError> {
    let mut exec = Interpreter::default();
    assert!(exec.current_chapter.is_none());
    let chapter = 5;
    exec.next_command(Command::BeginChapter(chapter))?;
    assert_eq!(exec.current_chapter.unwrap(), chapter);
    Ok(())
}

#[test]
fn test_cmd_assigned_amount() -> Result<(), InterpreterError> {
    let mut exec = Interpreter::default();
    let date = Date::new(2021, 07, 01);
    exec.next_command(Command::BeginDate(date))?;

    assert_eq!(exec.current_date.clone().unwrap().assigned, 0);
    exec.next_command(Command::AssignedAmount(5))?;
    assert_eq!(exec.current_date.clone().unwrap().assigned, 5);
    exec.next_command(Command::AssignedAmount(7))?;
    assert_eq!(exec.current_date.unwrap().assigned, 12);
    Ok(())
}

#[test]
fn test_cmd_assigned_amount_no_date() -> Result<(), InterpreterError> {
    let mut exec = Interpreter::default();
    assert_eq!(
        exec.next_command(Command::AssignedAmount(5)).unwrap_err(),
        InterpreterError::AssignProblemsNoDate
    );
    Ok(())
}

#[test]
fn test_date_succession_across_month_and_leap_year() -> Result<(), InterpreterError> {
    let mut exec = Interpreter::default();
    exec.next_command(Command::BeginDate(Date::new(2021, 6, 30)))?;
    exec.next_command(Command::BeginDate(Date::new(2021, 7, 1)))?;
    exec.next_command(Command::BeginDate(Date::new(2021, 7, 2)))?;

    let mut leap = Interpreter::default();
    leap.next_command(Command::BeginDate(Date::new(2020, 2, 28)))?;
    leap.next_command(Command::BeginDate(Date::new(2020, 2, 29)))?;
    leap.next_command(Command::BeginDate(Date::new(2020, 3, 1)))?;

    let mut non_leap = Interpreter::default();
    non_leap.next_command(Command::BeginDate(Date::new(2021, 2, 28)))?;
    non_leap.next_command(Command::BeginDate(Date::new(2021, 3, 1)))?;

    let mut year_end = Interpreter::default();
    year_end.next_command(Command::BeginDate(Date::new(2020, 12, 31)))?;
    year_end.next_command(Command::BeginDate(Date::new(2021, 1, 1)))?;
    Ok(())
}

#[test]
fn test_same_date_is_not_its_own_successor() -> Result<(), InterpreterError> {
    let mut exec = Interpreter::default();
    let date = Date::new(2021, 7, 1);
    exec.next_command(Command::BeginDate(date))?;
    assert_eq!(
        exec.next_command(Command::BeginDate(date)).unwrap_err(),
        InterpreterError::DateNotContiguous
    );
    Ok(())
}

#[test]
fn test_cmd_penalty_no_date() {
    let mut exec = Interpreter::default();
    assert_eq!(
        exec.next_command(Command::Penalty).unwrap_err(),
        InterpreterError::PenaltyNoDate
    );
}

#[test]
fn test_cmd_finished_not_enough_problems() {
    let mut exec = Interpreter::default();
    assert_eq!(
        exec.next_command(Command::FinishedAmount(1)).unwrap_err(),
        InterpreterError::NotEnoughProblems
    );
}

#[test]
fn test_cmd_add_problems_without_chapter() {
    let mut exec = Interpreter::default();
    assert_eq!(
        exec.next_command(Command::AddProblems(vec![1, 2], None))
            .unwrap_err(),
        InterpreterError::AddProblemsWithoutChapter
    );
}

#[test]
fn test_cmd_nop_changes_nothing() -> Result<(), InterpreterError> {
    let mut exec = Interpreter::default();
    exec.next_command(Command::SetProblemGoal(9))?;
    exec.next_command(Command::NOP)?;
    assert_eq!(exec.problem_goal, Some(9));
    assert_eq!(exec.penalty, None);
    assert!(exec.current_date.is_none());
    assert!(exec.current_chapter.is_none());
    assert_eq!(exec.total_penalty, 0);
    Ok(())
}
