use brainfuck_hcy::{raw_code_to_token_vec, CompileError, CompileErrorKind, MyError, Token};

fn compile_failure(code: &str) -> CompileError {
    match raw_code_to_token_vec(code) {
        Err(MyError::Compile(e)) => e,
        other => panic!("expected a compile error, got {:?}", other),
    }
}

#[test]
fn unclosed_left_bracket_alone() {
    let e = compile_failure("[");
    assert_eq!(e, CompileError { line: 1, col: 1, kind: CompileErrorKind::UnclosedLeftBracket });
}

#[test]
fn unexpected_right_bracket_alone() {
    let e = compile_failure("]");
    assert_eq!(e, CompileError { line: 1, col: 1, kind: CompileErrorKind::UnexpectedRightBracket });
}

#[test]
fn unexpected_right_bracket_on_second_line() {
    let e = compile_failure("+\n+]");
    assert_eq!(e, CompileError { line: 2, col: 2, kind: CompileErrorKind::UnexpectedRightBracket });
}

#[test]
fn unclosed_left_bracket_reports_last_position() {
    let e = compile_failure("[\n+-");
    assert_eq!(e, CompileError { line: 2, col: 2, kind: CompileErrorKind::UnclosedLeftBracket });
}

#[test]
fn first_unmatched_right_bracket_wins() {
    let e = compile_failure("[]]]");
    assert_eq!(e, CompileError { line: 1, col: 3, kind: CompileErrorKind::UnexpectedRightBracket });
}

#[test]
fn repeated_operators_fold_into_one() {
    assert_eq!(raw_code_to_token_vec("+++").unwrap(), vec![Token::DataIncrease(3)]);
    assert_eq!(raw_code_to_token_vec(">>>>").unwrap(), vec![Token::PtrIncrease(4)]);
    assert_eq!(raw_code_to_token_vec("<<").unwrap(), vec![Token::PtrDecrease(2)]);
    assert_eq!(raw_code_to_token_vec("-----").unwrap(), vec![Token::DataDecrease(5)]);
}

#[test]
fn comments_inside_a_run_do_not_split_it() {
    assert_eq!(raw_code_to_token_vec("+ a\n+").unwrap(), vec![Token::DataIncrease(2)]);
}

#[test]
fn different_operators_do_not_fold() {
    assert_eq!(
        raw_code_to_token_vec("+-+").unwrap(),
        vec![Token::DataIncrease(1), Token::DataDecrease(1), Token::DataIncrease(1)]
    );
}

#[test]
fn io_instructions_are_never_folded() {
    assert_eq!(
        raw_code_to_token_vec("..,,").unwrap(),
        vec![Token::Output, Token::Output, Token::Input, Token::Input]
    );
}

#[test]
fn loop_jumps_point_at_each_other() {
    assert_eq!(
        raw_code_to_token_vec("[-]").unwrap(),
        vec![Token::JumpForward(2), Token::DataDecrease(1), Token::JumpBack(0)]
    );
}

#[test]
fn nested_loops_pair_innermost_first() {
    assert_eq!(
        raw_code_to_token_vec("[[]>[]]").unwrap(),
        vec![
            Token::JumpForward(6),
            Token::JumpForward(2),
            Token::JumpBack(1),
            Token::PtrIncrease(1),
            Token::JumpForward(5),
            Token::JumpBack(4),
            Token::JumpBack(0),
        ]
    );
}

#[test]
fn empty_source_compiles_to_nothing() {
    assert_eq!(raw_code_to_token_vec("").unwrap(), Vec::<Token>::new());
    assert_eq!(raw_code_to_token_vec("no code here").unwrap(), Vec::<Token>::new());
}

#[test]
fn compile_errors_convert_into_my_error() {
    let e = CompileError { line: 3, col: 4, kind: CompileErrorKind::UnclosedLeftBracket };
    assert!(matches!(MyError::from(e), MyError::Compile(c) if c == e));
}
