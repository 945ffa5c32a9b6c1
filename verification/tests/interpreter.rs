use plain::ast::Value;
use plain::lexer::{lex, Token};
use plain::parser::{parse, ParseError};
use plain::runtime::{interpret, Runtime, RuntimeError};

fn run(rt: &mut Runtime, line: &str) -> Result<(), RuntimeError> {
    let stmt = parse(line).expect("line should parse");
    rt.exec_stmt(&stmt)
}

fn run_out(rt: &mut Runtime, line: &str) -> Vec<String> {
    run(rt, line).expect("line should run");
    rt.take_output()
}

#[test]
fn set_show_literal() {
    let mut rt = Runtime::new();
    assert_eq!(run_out(&mut rt, "set x to 5"), Vec::<String>::new());
    assert_eq!(run_out(&mut rt, "show x"), vec!["5".to_string()]);
}

#[test]
fn set_show_largest_literal() {
    let mut rt = Runtime::new();
    run(&mut rt, "set x to 9223372036854775807").unwrap();
    assert_eq!(run_out(&mut rt, "show x"), vec!["9223372036854775807".to_string()]);
}

#[test]
fn round_trip_add_then_multiply() {
    let mut rt = Runtime::new();
    assert_eq!(
        run_out(&mut rt, "set x to 5 then add 3 to x then show x"),
        vec!["8".to_string()]
    );
    assert_eq!(run_out(&mut rt, "multiply x by 2 then show x"), vec!["16".to_string()]);
}

#[test]
fn show_string_strips_quotes() {
    let mut rt = Runtime::new();
    assert_eq!(run_out(&mut rt, "show \"hello\""), vec!["hello".to_string()]);
}

#[test]
fn unbound_variable_prints_nothing() {
    let mut rt = Runtime::new();
    let stmt = parse("show y").unwrap();
    let r = rt.exec_stmt(&stmt);
    assert!(matches!(r, Err(RuntimeError::UndefinedVar(ref n)) if n == "y"));
    assert_eq!(rt.take_output(), Vec::<String>::new());
}

#[test]
fn truthiness_true_branch() {
    let mut rt = Runtime::new();
    assert_eq!(
        run_out(&mut rt, "set x to 5 then if the x is greater than 3 then show x"),
        vec!["5".to_string()]
    );
}

#[test]
fn truthiness_false_branch() {
    let mut rt = Runtime::new();
    run(&mut rt, "set x to 5").unwrap();
    assert_eq!(
        run_out(&mut rt, "if the x is greater than 10 then show x"),
        Vec::<String>::new()
    );
}

#[test]
fn pronoun_reads_last_assignment() {
    let mut rt = Runtime::new();
    assert_eq!(run_out(&mut rt, "set x to 7 then show it"), vec!["7".to_string()]);
}

#[test]
fn loop_body_is_single_statement_after_skip() {
    // The loop scan skips everything up to the next display/show keyword,
    // so the add lands in the skipped filler and the body is only the
    // display statement: x stays 0 and is printed three times.
    let mut rt = Runtime::new();
    assert_eq!(
        run_out(&mut rt, "set x to 0 then count to 3 then add 1 to x then display x"),
        vec!["0".to_string(), "0".to_string(), "0".to_string()]
    );
    assert_eq!(rt.get_var("x"), Some(&Value::Int(0)));
}

#[test]
fn loop_runs_body_count_times() {
    let mut rt = Runtime::new();
    run(&mut rt, "set x to 4").unwrap();
    assert_eq!(
        run_out(&mut rt, "count to 3 and when you are done show x"),
        vec!["4".to_string(), "4".to_string(), "4".to_string()]
    );
}

#[test]
fn show_twice_is_idempotent() {
    let mut rt = Runtime::new();
    run(&mut rt, "set x to 2").unwrap();
    let stmt = parse("show x").unwrap();
    rt.exec_stmt(&stmt).unwrap();
    let first = rt.take_output();
    rt.exec_stmt(&stmt).unwrap();
    let second = rt.take_output();
    assert_eq!(first, vec!["2".to_string()]);
    assert_eq!(second, first);
    assert_eq!(rt.get_var("x"), Some(&Value::Int(2)));
}

#[test]
fn add_to_string_target_is_type_error() {
    let mut rt = Runtime::new();
    run(&mut rt, "set x to \"a\"").unwrap();
    let stmt = parse("add x to x").unwrap();
    let r = rt.exec_stmt(&stmt);
    assert!(matches!(r, Err(RuntimeError::TargetNotInt(ref n)) if n == "x"));
    assert_eq!(rt.get_var("x"), Some(&Value::Str("a".to_string())));
}

#[test]
fn subtract_and_negative_output() {
    let mut rt = Runtime::new();
    assert_eq!(
        run_out(&mut rt, "set x to 0 then subtract 5 from x then show x"),
        vec!["-5".to_string()]
    );
}

#[test]
fn add_refreshes_pronoun_but_subtract_does_not() {
    let mut rt = Runtime::new();
    assert_eq!(
        run_out(&mut rt, "set x to 1 then add 2 to x then show it"),
        vec!["3".to_string()]
    );
    let mut rt2 = Runtime::new();
    assert_eq!(
        run_out(&mut rt2, "set x to 10 then subtract 3 from x then show it"),
        vec!["10".to_string()]
    );
}

#[test]
fn comparisons_yield_integer_truth_values() {
    let mut rt = Runtime::new();
    run(&mut rt, "set x to 1").unwrap();
    assert_eq!(run_out(&mut rt, "show x is less than 2"), vec!["1".to_string()]);
    assert_eq!(run_out(&mut rt, "show x is greater than 2"), vec!["0".to_string()]);
    assert_eq!(run_out(&mut rt, "show x is equal to 1"), vec!["1".to_string()]);
}

#[test]
fn string_equality_comparison() {
    let mut rt = Runtime::new();
    assert_eq!(
        run_out(&mut rt, "set x to \"a\" then show x is equal to \"a\""),
        vec!["1".to_string()]
    );
}

#[test]
fn ordering_comparison_on_string_fails() {
    let mut rt = Runtime::new();
    let stmt = parse("show 1 is greater than \"a\"").unwrap();
    assert_eq!(rt.exec_stmt(&stmt), Err(RuntimeError::CompareTypeMismatch));
}

#[test]
fn pronoun_before_any_assignment_fails() {
    let mut rt = Runtime::new();
    let stmt = parse("show it").unwrap();
    assert_eq!(rt.exec_stmt(&stmt), Err(RuntimeError::NoLastValue));
}

#[test]
fn string_condition_is_type_error() {
    let mut rt = Runtime::new();
    let stmt = parse("if the \"a\" then show x").unwrap();
    assert_eq!(rt.exec_stmt(&stmt), Err(RuntimeError::ConditionNotInt));
}

#[test]
fn string_loop_count_is_type_error() {
    let mut rt = Runtime::new();
    let stmt = parse("count to \"a\" then show x").unwrap();
    assert_eq!(rt.exec_stmt(&stmt), Err(RuntimeError::CountNotInt));
}

#[test]
fn addition_overflow_is_reported() {
    let mut rt = Runtime::new();
    run(&mut rt, "set x to 9223372036854775807").unwrap();
    let stmt = parse("add 1 to x").unwrap();
    assert_eq!(rt.exec_stmt(&stmt), Err(RuntimeError::Overflow));
    assert_eq!(rt.get_var("x"), Some(&Value::Int(i64::MAX)));
}

#[test]
fn missing_arith_target_is_reported() {
    let mut rt = Runtime::new();
    let stmt = parse("add 1 to y").unwrap();
    let r = rt.exec_stmt(&stmt);
    assert!(matches!(r, Err(RuntimeError::UndefinedTarget(ref n)) if n == "y"));
}

#[test]
fn string_operand_is_type_error() {
    let mut rt = Runtime::new();
    run(&mut rt, "set x to 1").unwrap();
    let stmt = parse("add \"a\" to x").unwrap();
    assert_eq!(rt.exec_stmt(&stmt), Err(RuntimeError::OperandNotInt));
}

#[test]
fn parse_rejects_empty_line() {
    assert_eq!(parse(""), Err(ParseError::EmptyLine));
    assert_eq!(parse("   "), Err(ParseError::EmptyLine));
}

#[test]
fn parse_rejects_extra_tokens() {
    assert_eq!(parse("show x x"), Err(ParseError::ExtraTokens));
}

#[test]
fn parse_accepts_closing_period() {
    let mut rt = Runtime::new();
    run(&mut rt, "set x to 3").unwrap();
    assert_eq!(run_out(&mut rt, "show x."), vec!["3".to_string()]);
}

#[test]
fn parse_rejects_truncated_statement() {
    assert_eq!(parse("set x"), Err(ParseError::UnexpectedEnd));
    assert_eq!(parse("set x to"), Err(ParseError::UnexpectedEnd));
    assert_eq!(parse("then show x"), Err(ParseError::UnknownStatement));
}

#[test]
fn parse_rejects_wrong_keyword() {
    assert_eq!(parse("set x into 5"), Err(ParseError::ExpectedTo));
    assert_eq!(parse("subtract 3 to x"), Err(ParseError::ExpectedFrom));
    assert_eq!(parse("multiply x with 2"), Err(ParseError::ExpectedBy));
    assert_eq!(parse("show 1 is greater 2"), Err(ParseError::ExpectedThan));
    assert_eq!(parse("show 1 is bigger"), Err(ParseError::ExpectedComparison));
}

#[test]
fn parse_rejects_unknown_statement() {
    assert_eq!(parse("banana x"), Err(ParseError::UnknownStatement));
}

#[test]
fn parse_rejects_trailing_then() {
    assert_eq!(parse("show 1 then"), Err(ParseError::ExpectedStmtAfterThen));
}

#[test]
fn parse_rejects_huge_integer_literal() {
    assert_eq!(parse("set x to 99999999999999999999"), Err(ParseError::IntOutOfRange));
}

#[test]
fn show_on_the_screen_and_display_result() {
    let mut rt = Runtime::new();
    run(&mut rt, "set x to 4").unwrap();
    assert_eq!(run_out(&mut rt, "show on the screen the x"), vec!["4".to_string()]);
    assert_eq!(run_out(&mut rt, "display the x result"), vec!["4".to_string()]);
    assert_eq!(run_out(&mut rt, "print the x"), vec!["4".to_string()]);
}

#[test]
fn if_body_swallows_rest_of_chain() {
    let mut rt = Runtime::new();
    run(&mut rt, "set x to 5").unwrap();
    assert_eq!(
        run_out(&mut rt, "if the x is greater than 3 then show x then show x"),
        vec!["5".to_string(), "5".to_string()]
    );
}

#[test]
fn interpret_runs_on_fresh_evaluator() {
    let stmt = parse("set x to 6 then show x").unwrap();
    let (out, res) = interpret(&stmt);
    assert!(res.is_ok());
    assert_eq!(out, vec!["6".to_string()]);
    let (out2, res2) = interpret(&parse("show x").unwrap());
    assert!(matches!(res2, Err(RuntimeError::UndefinedVar(_))));
    assert_eq!(out2, Vec::<String>::new());
}

#[test]
fn failing_chain_keeps_earlier_effects() {
    let mut rt = Runtime::new();
    let stmt = parse("set x to 1 then show x then add \"a\" to x then show x").unwrap();
    assert_eq!(rt.exec_stmt(&stmt), Err(RuntimeError::OperandNotInt));
    assert_eq!(rt.take_output(), vec!["1".to_string()]);
    assert_eq!(rt.get_var("x"), Some(&Value::Int(1)));
}

#[test]
fn lex_keywords_and_identifiers() {
    assert_eq!(
        lex("sets set"),
        vec![Token::Ident("sets".to_string()), Token::KwSet]
    );
    assert_eq!(
        lex("set x_1 to 42"),
        vec![
            Token::KwSet,
            Token::Ident("x_1".to_string()),
            Token::KwTo,
            Token::IntLit("42".to_string()),
        ]
    );
}

#[test]
fn lex_keeps_quotes_and_spaces_in_strings() {
    assert_eq!(lex("\"a b\""), vec![Token::StrLit("\"a b\"".to_string())]);
}

#[test]
fn lex_drops_what_matches_no_rule() {
    assert_eq!(lex("@ #"), Vec::<Token>::new());
    assert_eq!(lex("\"abc"), vec![Token::Ident("abc".to_string())]);
    assert_eq!(lex("show @ x"), vec![Token::KwShow, Token::Ident("x".to_string())]);
}

#[test]
fn lex_period_and_whitespace() {
    assert_eq!(
        lex("  show\tx .\n"),
        vec![Token::KwShow, Token::Ident("x".to_string()), Token::Period]
    );
}

#[test]
fn string_in_show_keeps_inner_spaces() {
    let mut rt = Runtime::new();
    assert_eq!(run_out(&mut rt, "show \"a b\""), vec!["a b".to_string()]);
}

#[test]
fn last_assignment_wins() {
    let mut rt = Runtime::new();
    run(&mut rt, "set x to 1").unwrap();
    run(&mut rt, "set x to 2").unwrap();
    assert_eq!(run_out(&mut rt, "show x"), vec!["2".to_string()]);
}

#[test]
fn zero_and_negative_loop_counts_run_nothing() {
    let mut rt = Runtime::new();
    run(&mut rt, "set x to 1").unwrap();
    assert_eq!(run_out(&mut rt, "count to 0 then show x"), Vec::<String>::new());
    run(&mut rt, "set n to 0 then subtract 3 from n").unwrap();
    assert_eq!(run_out(&mut rt, "count to n then show x"), Vec::<String>::new());
}

#[test]
fn literal_with_leading_zeros() {
    let mut rt = Runtime::new();
    assert_eq!(
        run_out(&mut rt, "set x to 007 then show x"),
        vec!["7".to_string()]
    );
}
