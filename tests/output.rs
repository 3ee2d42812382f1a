use conker::interpreter::{MagicTask, TaskID, Value};
use conker::interpreter::{ErrorKind, InterpreterError};
use conker::runtime::{exit_status, load, Completion};

#[test]
fn printable_text_of_values() {
    assert_eq!(Value::Null.to_printable_string(), "null");
    assert_eq!(Value::Integer(-42).to_printable_string(), "-42");
    assert_eq!(Value::Boolean(true).to_printable_string(), "true");
    assert_eq!(
        Value::TaskReference(TaskID(3), "Main".to_string()).to_printable_string(),
        "<task Main>"
    );
    assert_eq!(
        Value::MagicTaskReference(MagicTask::Out).to_printable_string(),
        "<task (magic) $out>"
    );
    assert_eq!(
        Value::Array(vec![Value::Integer(1), Value::Integer(2), Value::Integer(3)]).to_printable_string(),
        "[ 1, 2, 3 ]"
    );
    assert_eq!(Value::Array(vec![]).to_printable_string(), "[  ]");
    assert_eq!(
        Value::Range { begin: Box::new(Value::Integer(1)), end: Box::new(Value::Integer(-2)) }
            .to_printable_string(),
        "1 .. -2"
    );
}

#[test]
fn sending_to_out_prints_a_line() {
    let chars: Vec<char> = "task X\n    [ 7, true ] -> $out\n    12 -> $out\n".chars().collect();
    let (out, printed) = crossbeam_channel::unbounded();
    let (globals, mut tasks) = load(&chars, out).unwrap().into_parts();
    let (task, body) = &mut tasks[0];
    assert_eq!(task.evaluate(body, &globals), Ok(Value::Null));
    assert_eq!(printed.try_recv(), Ok("[ 7, true ]".to_string()));
    assert_eq!(printed.try_recv(), Ok("12".to_string()));
}

#[test]
fn replicas_have_indices_and_names() {
    let chars: Vec<char> = "task N[3]\n    $index\ntask M\n    N\n".chars().collect();
    let (out, _printed) = crossbeam_channel::unbounded();
    let (globals, mut tasks) = load(&chars, out).unwrap().into_parts();
    assert_eq!(tasks.len(), 4);
    for i in 0..3 {
        let (task, body) = &mut tasks[i];
        assert_eq!(task.formatted_name(), format!("N[{i}]"));
        assert_eq!(task.evaluate(body, &globals), Ok(Value::Integer(i as i64)));
    }
    let (main, body) = &mut tasks[3];
    assert_eq!(main.formatted_name(), "M");
    assert_eq!(
        main.evaluate(body, &globals),
        Ok(Value::Array(vec![
            Value::TaskReference(TaskID(1), "N[0]".to_string()),
            Value::TaskReference(TaskID(2), "N[1]".to_string()),
            Value::TaskReference(TaskID(3), "N[2]".to_string()),
        ]))
    );
}

#[test]
fn channels_connect_every_other_frame() {
    let chars: Vec<char> = "task A\n    1\ntask B[2]\n    2\n".chars().collect();
    let (out, _printed) = crossbeam_channel::unbounded();
    let (_globals, tasks) = load(&chars, out).unwrap().into_parts();
    for (t, (task, _)) in tasks.iter().enumerate() {
        let others: Vec<TaskID> = (1..=3).filter(|i| *i != t + 1).map(TaskID).collect();
        let senders: Vec<TaskID> = task.senders.iter().map(|e| e.0).collect();
        let receivers: Vec<TaskID> = task.receivers.iter().map(|e| e.0).collect();
        assert_eq!(senders, others);
        assert_eq!(receivers, others);
    }
}

#[test]
fn completion_waits_for_every_frame() {
    let mut completion = Completion::new(2);
    assert!(!completion.is_complete());
    completion.record("A".to_string(), Ok(Value::Integer(1)));
    assert!(!completion.is_complete());
    completion.record("B".to_string(), Ok(Value::Null));
    assert!(completion.is_complete());
    let results = completion.into_results();
    assert_eq!(
        results,
        vec![
            ("A".to_string(), Ok(Value::Integer(1))),
            ("B".to_string(), Ok(Value::Null)),
        ]
    );
    assert_eq!(exit_status(&results), 0);
}

#[test]
fn any_error_gives_status_one() {
    let results = vec![
        ("A".to_string(), Ok(Value::Null)),
        ("B".to_string(), Err(InterpreterError::new(ErrorKind::Arithmetic, "division by zero"))),
    ];
    assert_eq!(exit_status(&results), 1);
    assert_eq!(exit_status(&vec![]), 0);
}
