use expr_eval::grammar::{validate, GrammarError};
use expr_eval::two_stacks::{reduce, run, ReduceError, RunError};
use expr_eval::Config;

fn config_args(expr: &str) -> Vec<String> {
    vec![String::from(""), String::from(expr)]
}

#[test]
fn two_stacks1() {
    let expr = String::from("aaa");
    let args = vec![String::from(""), expr];

    let cfg = Config::new(&args).unwrap();

    assert!(run(&cfg).is_err());
}

#[test]
fn two_stacks2() {
    let expr = String::from("++*");
    let args = vec![String::from(""), expr];

    let cfg = Config::new(&args).unwrap();

    assert!(run(&cfg).is_err());
}

#[test]
fn two_stacks3() {
    let expr = String::from("--a");
    let args = vec![String::from(""), expr];

    let cfg = Config::new(&args).unwrap();

    assert!(run(&cfg).is_err());
}

#[test]
fn two_stacks4() {
    let expr = String::from("ab*");
    let args = vec![String::from(""), expr];

    let cfg = Config::new(&args).unwrap();

    assert!(run(&cfg).is_err());
}

#[test]
fn two_stacks5() {
    let expr = String::from("a(b");
    let args = vec![String::from(""), expr];

    let cfg = Config::new(&args).unwrap();

    assert!(run(&cfg).is_err());
}

#[test]
fn two_stacks6() {
    let expr = String::from("a(b)");
    let args = vec![String::from(""), expr];

    let cfg = Config::new(&args).unwrap();

    assert!(run(&cfg).is_err());
}

#[test]
fn two_stacks7() {
    let expr = String::from("a+(b)");
    let args = vec![String::from(""), expr];

    let cfg = Config::new(&args).unwrap();

    assert_eq!(run(&cfg), Ok(String::from("a+b")));
}

#[test]
fn two_stacks8() {
    let expr = String::from("a*(b)");
    let args = vec![String::from(""), expr];

    let cfg = Config::new(&args).unwrap();

    assert_eq!(run(&cfg), Ok(String::from("a*b")));
}

#[test]
fn two_stacks9() {
    let expr = String::from("a+(b*c-d/e)");
    let args = vec![String::from(""), expr];

    let cfg = Config::new(&args).unwrap();

    assert_eq!(run(&cfg), Ok(String::from("a+((b*c)-d/e)")));
}

#[test]
fn two_stacks10() {
    let expr = String::from("a+(b*c-d/e)");
    let args = vec![String::from(""), expr];

    let cfg = Config::new(&args).unwrap();

    assert!(run(&cfg).is_ok());
}

#[test]
fn reduce_nested_example() {
    assert_eq!(validate("a+(b*c-d/e)"), Ok(()));
    assert_eq!(reduce("a+(b*c-d/e)"), Ok(String::from("a+((b*c)-d/e)")));
}

#[test]
fn reduce_keeps_operands_and_operators_in_order() {
    let out = reduce("a+(b*c-d/e)").unwrap();
    let stripped: String = out.chars().filter(|c| *c != '(' && *c != ')').collect();
    assert_eq!(stripped, "a+b*c-d/e");
}

#[test]
fn reduce_trailing_operator_misses_operand() {
    assert_eq!(validate("a+b/c+"), Ok(()));
    assert_eq!(reduce("a+b/c+"), Err(ReduceError::MissingOperand));
}

#[test]
fn reduce_unclosed_paren() {
    assert_eq!(reduce("a(b"), Err(ReduceError::UnbalancedParens));
}

#[test]
fn reduce_close_before_open() {
    assert_eq!(reduce("a)+(b"), Err(ReduceError::UnbalancedParens));
}

#[test]
fn reduce_letters_only() {
    assert_eq!(reduce("aaa"), Err(ReduceError::ExtraOperands));
}

#[test]
fn reduce_empty_expression() {
    assert_eq!(reduce(""), Err(ReduceError::MissingOperator));
}

#[test]
fn reduce_leading_operators() {
    assert_eq!(reduce("++*"), Err(ReduceError::MissingOperand));
}

#[test]
fn reduce_invalid_character() {
    assert_eq!(reduce("a$b"), Err(ReduceError::InvalidCharacter));
}

#[test]
fn reduce_sentinel_is_ignored() {
    assert_eq!(reduce("#a+b#"), Ok(String::from("a+b")));
}

#[test]
fn reduce_precedence_without_parens() {
    assert_eq!(reduce("a*b+c"), Ok(String::from("a*b+c")));
    assert_eq!(reduce("a+b*c"), Ok(String::from("a+b*c")));
}

#[test]
fn reduce_parenthesised_sum_under_product() {
    assert_eq!(reduce("a*(b+c)"), Ok(String::from("a*(b+c)")));
}

#[test]
fn reduce_redundant_parens_dropped() {
    assert_eq!(reduce("a+(b)"), Ok(String::from("a+b")));
}

#[test]
fn reduce_balanced_when_accepted() {
    let exprs = ["a*(b+c)", "((a+b))*c", "a-(b/(c+d))"];
    for e in exprs.iter() {
        assert!(reduce(e).is_ok());
        let opens = e.chars().filter(|c| *c == '(').count();
        let closes = e.chars().filter(|c| *c == ')').count();
        assert_eq!(opens, closes);
    }
}

#[test]
fn run_accepts_linearised_form() {
    let args = config_args("a+((b*c)-d/e)");
    let cfg = Config::new(&args).unwrap();
    assert_eq!(run(&cfg), Ok(String::from("a+((b*c)-d/e)")));
}

#[test]
fn run_reports_each_stage() {
    let args = config_args("aaa");
    let cfg = Config::new(&args).unwrap();
    assert_eq!(run(&cfg), Err(RunError::Grammar(GrammarError::BadNeighbors)));

    let args = config_args("a+(b");
    let cfg = Config::new(&args).unwrap();
    assert_eq!(run(&cfg), Err(RunError::Reduce(ReduceError::UnbalancedParens)));

    let args = config_args("a+(b*c-d/e)");
    let cfg = Config::new(&args).unwrap();
    assert_eq!(run(&cfg), Ok(String::from("a+((b*c)-d/e)")));
}
