use conker::interpreter::{ErrorKind, Halt, InterpreterError, Value};
use conker::runtime::load;

fn run_one_task(input: &str) -> Result<Value, InterpreterError> {
    let chars: Vec<char> = input.chars().collect();
    let (out, _printed) = crossbeam_channel::unbounded();
    let runtime = load(&chars, out).unwrap();
    let (globals, mut tasks) = runtime.into_parts();
    let (task, body) = &mut tasks[0];
    match task.evaluate(body, &globals) {
        Ok(v) => Ok(v),
        Err(Halt::Error(e)) => Err(e),
        Err(Halt::Exit) => panic!("the task exited"),
    }
}

fn run_one_expression(input: &str) -> Result<Value, InterpreterError> {
    run_one_task(&format!("task X\n    {input}\n"))
}

fn error_kind(input: &str) -> ErrorKind {
    run_one_expression(input).unwrap_err().kind
}

#[test]
fn test_arithmetic() {
    assert_eq!(run_one_expression("12 + 3"), Ok(Value::Integer(15)));
}

#[test]
fn test_comparisons() {
    assert_eq!(run_one_expression("(2 + 2) == 4"), Ok(Value::Boolean(true)));
    assert_eq!(run_one_expression("(2 + 2) == 5"), Ok(Value::Boolean(false)));

    assert_eq!(run_one_expression("4 > 3"), Ok(Value::Boolean(true)));
    assert_eq!(run_one_expression("4 > 5"), Ok(Value::Boolean(false)));

    assert_eq!(run_one_expression("4 < 3"), Ok(Value::Boolean(false)));
    assert_eq!(run_one_expression("4 < 5"), Ok(Value::Boolean(true)));
}

#[test]
fn test_array() {
    assert_eq!(run_one_expression("[ ]"), Ok(Value::Array(vec![])));

    assert_eq!(
        run_one_expression("[ 1, 2, 3 ]"),
        Ok(Value::Array(vec![Value::Integer(1), Value::Integer(2), Value::Integer(3)]))
    );
    assert_eq!(
        run_one_expression("[ 1, 2, 3, ]"),
        Ok(Value::Array(vec![Value::Integer(1), Value::Integer(2), Value::Integer(3)]))
    );
}

#[test]
fn test_assign() {
    assert_eq!(run_one_task("task X\n    x = 3\n    x\n"), Ok(Value::Integer(3)));
}

#[test]
fn test_blank_line() {
    assert_eq!(run_one_task("task X\n    1\n\n    2\n"), Ok(Value::Integer(2)));

    assert_eq!(run_one_task("task X\n    1\n\n\n\n    \n    2\n"), Ok(Value::Integer(2)));
}

#[test]
fn slice_with_wrap_around() {
    assert_eq!(
        run_one_expression("[ 10, 20, 30, 40 ][-3 .. -1]"),
        Ok(Value::Array(vec![Value::Integer(20), Value::Integer(30)]))
    );
}

#[test]
fn negative_index_counts_from_the_end() {
    assert_eq!(run_one_expression("[ 10, 20, 30, 40 ][-1]"), Ok(Value::Integer(40)));
    assert_eq!(run_one_expression("[ 10, 20, 30, 40 ][3]"), Ok(Value::Integer(40)));
    assert_eq!(run_one_expression("[ 10, 20, 30, 40 ][-4]"), Ok(Value::Integer(10)));
}

#[test]
fn slice_window_has_its_length() {
    assert_eq!(
        run_one_expression("[ 1, 2, 3, 4, 5 ][1 .. 4]"),
        Ok(Value::Array(vec![Value::Integer(2), Value::Integer(3), Value::Integer(4)]))
    );
    assert_eq!(run_one_expression("[ 1, 2, 3 ][2 .. 2]"), Ok(Value::Array(vec![])));
    assert_eq!(
        run_one_expression("[ 1, 2, 3 ][0 .. 3]"),
        Ok(Value::Array(vec![Value::Integer(1), Value::Integer(2), Value::Integer(3)]))
    );
}

#[test]
fn sum_times_divided_gives_the_sum() {
    assert_eq!(run_one_expression("(7 + 5) * 5 / 5"), Ok(Value::Integer(12)));
    assert_eq!(run_one_expression("(-9 + 4) * 4 / 4"), Ok(Value::Integer(-5)));
    assert_eq!(run_one_expression("(3 + -7) * -7 / -7"), Ok(Value::Integer(-4)));
}

#[test]
fn addition_wraps_on_overflow() {
    assert_eq!(
        run_one_expression("9223372036854775807 + 1"),
        Ok(Value::Integer(i64::MIN))
    );
    assert_eq!(
        run_one_expression("-9223372036854775808 / -1"),
        Ok(Value::Integer(i64::MIN))
    );
    assert_eq!(
        run_one_expression("4611686018427387904 * 4"),
        Ok(Value::Integer(0))
    );
}

#[test]
fn division_truncates_toward_zero() {
    assert_eq!(run_one_expression("-7 / 2"), Ok(Value::Integer(-3)));
    assert_eq!(run_one_expression("7 / -2"), Ok(Value::Integer(-3)));
    assert_eq!(run_one_expression("7 / 2"), Ok(Value::Integer(3)));
}

#[test]
fn subtraction() {
    assert_eq!(run_one_expression("10 - 4"), Ok(Value::Integer(6)));
}

#[test]
fn precedence_of_arithmetic() {
    assert_eq!(run_one_expression("2 + 3 * 5"), Ok(Value::Integer(17)));
    assert_eq!(run_one_expression("3 * 5 + 2"), Ok(Value::Integer(17)));
}

#[test]
fn runtime_errors_by_kind() {
    assert_eq!(error_kind("1 / 0"), ErrorKind::Arithmetic);
    assert_eq!(error_kind("nothing"), ErrorKind::Resolve);
    assert_eq!(error_kind("[ 1, 2 ][2]"), ErrorKind::Bounds);
    assert_eq!(error_kind("[ 1, 2 ][-3]"), ErrorKind::Bounds);
    assert_eq!(error_kind("[ 1, 2 ][1 .. 0]"), ErrorKind::Bounds);
    assert_eq!(error_kind("1 + true"), ErrorKind::Type);
    assert_eq!(error_kind("true + nothing"), ErrorKind::Resolve);
    assert_eq!(error_kind("3[0]"), ErrorKind::Type);
    assert_eq!(error_kind("1 = 2"), ErrorKind::Form);
    assert_eq!(error_kind("v <- ?c"), ErrorKind::Deadlock);
    assert_eq!(error_kind("1 -> X"), ErrorKind::Channel);
    assert_eq!(error_kind("v <- 5"), ErrorKind::Type);
}

#[test]
fn control_flow() {
    assert_eq!(
        run_one_task("task X\n    i = 0\n    while i < 5\n        i = i + 1\n    i\n"),
        Ok(Value::Integer(5))
    );
    assert_eq!(run_one_task("task X\n    if 0\n        7\n"), Ok(Value::Integer(7)));
    assert_eq!(run_one_task("task X\n    if false\n        7\n"), Ok(Value::Null));
    assert_eq!(run_one_task("task X\n    if null\n        7\n"), Ok(Value::Null));
    assert_eq!(run_one_task("task X\n    while false\n        7\n"), Ok(Value::Null));
}

#[test]
fn magic_names() {
    assert_eq!(run_one_expression("$index"), Ok(Value::Null));
    assert_eq!(
        run_one_expression("$out"),
        Ok(Value::MagicTaskReference(conker::interpreter::MagicTask::Out))
    );
    assert_eq!(
        run_one_expression("X"),
        Ok(Value::TaskReference(conker::interpreter::TaskID(1), "X".to_string()))
    );
}

#[test]
fn exit_halts_the_program() {
    let chars: Vec<char> = "task X\n    1\n    exit\n    2\n".chars().collect();
    let (out, _printed) = crossbeam_channel::unbounded();
    let (globals, mut tasks) = load(&chars, out).unwrap().into_parts();
    let (task, body) = &mut tasks[0];
    assert_eq!(task.evaluate(body, &globals), Err(Halt::Exit));
}

#[test]
fn comments_are_skipped() {
    assert_eq!(run_one_task("# a comment\ntask X\n    5 # five\n"), Ok(Value::Integer(5)));
}

#[test]
fn identifiers_may_hold_letters_beyond_ascii() {
    assert_eq!(run_one_task("task X\n    école = 4\n    école\n"), Ok(Value::Integer(4)));
}

#[test]
fn assignment_chains_to_the_right() {
    assert_eq!(
        run_one_task("task X\n    a = b = 3\n    [ a, b ]\n"),
        Ok(Value::Array(vec![Value::Null, Value::Integer(3)]))
    );
}

#[test]
fn operators_of_one_level_join_to_the_left() {
    assert_eq!(run_one_expression("8 / 4 / 2"), Ok(Value::Integer(1)));
    assert_eq!(run_one_expression("10 - 3 - 2"), Ok(Value::Integer(5)));
}
