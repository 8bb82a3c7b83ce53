use vdb::command::{parse, Command};
use vdb::expr::Expr;

#[test]
fn test_cont() {
    assert_eq!(Ok(Command::Cont), parse("cont"));
}

#[test]
fn test_print() {
    assert_eq!(Ok(Command::Print(Expr::Num(42))), parse("p 42"));
}

#[test]
fn test_break() {
    assert_eq!(
        Ok(Command::Break(Expr::Ident("main".to_string()))),
        parse("b main")
    );
}

#[test]
fn test_err() {
    assert_eq!(Err("No such command: xxx".to_string()), parse("xxx"));
}

#[test]
fn test_empty() {
    assert_eq!(Err("".to_string()), parse(" "));
}

#[test]
fn test_ambiguous() {
    assert_eq!(
        Err("Multiple candidates for `s': [\"si\", \"start\", \"stepi\"]".to_string()),
        parse("s")
    );
    assert_eq!(
        Err("Multiple candidates for `st': [\"start\", \"stepi\"]".to_string()),
        parse("st")
    );
}

#[test]
fn test_full_words() {
    assert_eq!(Ok(Command::Info), parse("info"));
    assert_eq!(Ok(Command::StepI), parse("si"));
    assert_eq!(Ok(Command::StepI), parse("stepi"));
    assert_eq!(Ok(Command::StepI), parse("ste"));
}

#[test]
fn test_run_args() {
    assert_eq!(
        Ok(Command::Run(vec!["a".to_string(), "b".to_string()])),
        parse("run a  b")
    );
    assert_eq!(Ok(Command::Run(vec![])), parse("run"));
    assert_eq!(
        Ok(Command::Start(vec!["x".to_string()])),
        parse("start x")
    );
}

#[test]
fn test_examine() {
    assert_eq!(Ok(Command::X(1, 16, Expr::Num(8))), parse("x 8"));
    assert_eq!(Ok(Command::X(1, 16, Expr::Num(8))), parse("x/4 8"));
}
