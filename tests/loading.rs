use conker::runtime::{load, LoadError, RegistrationError};

fn load_error(input: &str) -> LoadError {
    let chars: Vec<char> = input.chars().collect();
    let (out, _printed) = crossbeam_channel::unbounded();
    match load(&chars, out) {
        Ok(_) => panic!("the program loaded"),
        Err(e) => e,
    }
}

#[test]
fn unexpected_character_is_a_tokenizer_error() {
    assert!(matches!(load_error("task X\n    1 @ 2\n"), LoadError::Tokenizer(_)));
}

#[test]
fn oversized_literal_is_a_tokenizer_error() {
    assert!(matches!(load_error("task X\n    99999999999999999999\n"), LoadError::Tokenizer(_)));
}

#[test]
fn mixed_indentation_is_a_tokenizer_error() {
    assert!(matches!(load_error("task X\n    1\n\t2\n"), LoadError::Tokenizer(_)));
}

#[test]
fn partial_indentation_is_a_tokenizer_error() {
    assert!(matches!(load_error("task X\n    1\n      2\n"), LoadError::Tokenizer(_)));
}

#[test]
fn malformed_header_is_a_parser_error() {
    assert!(matches!(load_error("task\n    1\n"), LoadError::Parser(_)));
    assert!(matches!(load_error("task X[0]\n    1\n"), LoadError::Parser(_)));
    assert!(matches!(load_error("5\n"), LoadError::Parser(_)));
}

#[test]
fn duplicate_task_is_refused() {
    assert!(matches!(
        load_error("task X\n    1\ntask X\n    2\n"),
        LoadError::Registration(RegistrationError::DuplicateName)
    ));
}

#[test]
fn body_open_at_end_of_file_is_a_parser_error() {
    assert!(matches!(load_error("task X\n    1"), LoadError::Parser(_)));
}
