use expr_eval::grammar::{validate, GrammarError};
use expr_eval::utils::{category, char_type, operator_priority, CharCategory};
use expr_eval::Config;

#[test]
fn validate_too_short() {
    assert_eq!(validate(""), Err(GrammarError::TooShort));
    assert_eq!(validate("a"), Err(GrammarError::TooShort));
    assert_eq!(validate("a+"), Err(GrammarError::TooShort));
    assert_eq!(validate("$$"), Err(GrammarError::TooShort));
}

#[test]
fn validate_bad_character() {
    assert_eq!(validate("a+b c"), Err(GrammarError::BadCharacter));
    assert_eq!(validate("a+1"), Err(GrammarError::BadCharacter));
    assert_eq!(validate("#a+b#"), Err(GrammarError::BadCharacter));
    assert_eq!(validate("aa+é"), Err(GrammarError::BadCharacter));
}

#[test]
fn validate_letters_adjacent() {
    assert_eq!(validate("aaa"), Err(GrammarError::BadNeighbors));
}

#[test]
fn validate_missing_operator_before_paren() {
    assert_eq!(validate("a(b*c-d/e)"), Err(GrammarError::BadNeighbors));
}

#[test]
fn validate_each_forbidden_pair() {
    assert_eq!(validate("a++b"), Err(GrammarError::BadNeighbors));
    assert_eq!(validate("(+a)"), Err(GrammarError::BadNeighbors));
    assert_eq!(validate("a+()"), Err(GrammarError::BadNeighbors));
    assert_eq!(validate("(a)b"), Err(GrammarError::BadNeighbors));
    assert_eq!(validate("(a)(b)"), Err(GrammarError::BadNeighbors));
    assert_eq!(validate("a+)b"), Err(GrammarError::BadNeighbors));
}

#[test]
fn validate_accepts_well_formed() {
    assert_eq!(validate("a+(b*c-d/e)"), Ok(()));
    assert_eq!(validate("((a))"), Ok(()));
    assert_eq!(validate("a/B"), Ok(()));
}

#[test]
fn char_type_codes() {
    assert_eq!(char_type('a'), 1);
    assert_eq!(char_type('Z'), 1);
    assert_eq!(char_type('-'), 2);
    assert_eq!(char_type('/'), 2);
    assert_eq!(char_type('('), 3);
    assert_eq!(char_type(')'), 4);
    assert_eq!(char_type('#'), 5);
    assert_eq!(char_type('1'), 0);
    assert_eq!(char_type(' '), 0);
}

#[test]
fn category_is_stable() {
    for ch in ['q', '*', '(', ')', '#', '?'].iter() {
        assert_eq!(category(*ch), category(*ch));
    }
    assert_eq!(category('q'), CharCategory::Letter);
    assert_eq!(category('*'), CharCategory::Operator);
    assert_eq!(category('('), CharCategory::OpenParen);
    assert_eq!(category(')'), CharCategory::CloseParen);
    assert_eq!(category('#'), CharCategory::Sentinel);
    assert_eq!(category('?'), CharCategory::Invalid);
}

#[test]
fn priority_by_symbol_and_depth() {
    assert_eq!(operator_priority('+', 0), 1);
    assert_eq!(operator_priority('-', 0), 1);
    assert_eq!(operator_priority('*', 0), 2);
    assert_eq!(operator_priority('/', 10), 12);
    assert_eq!(operator_priority('+', 20), 21);
    assert_eq!(operator_priority('x', 10), 0);
}

#[test]
fn config_needs_expression() {
    let args = vec![String::from("prog")];
    assert_eq!(
        Config::new(&args).err(),
        Some("One CLI argument is required: Expression")
    );
    let args = vec![String::from("prog"), String::from("ab")];
    assert_eq!(
        Config::new(&args).err(),
        Some("The expression must have at least 3 members!")
    );
}

#[test]
fn config_algorithm_choice() {
    let args = vec![String::from("prog"), String::from("a+b")];
    let cfg = Config::new(&args).unwrap();
    assert_eq!(cfg.expression(), "a+b");
    assert_eq!(cfg.alg_type(), "TwoStacks");

    let args = vec![String::from("prog"), String::from("a+b"), String::from("Polish")];
    let cfg = Config::new(&args).unwrap();
    assert_eq!(cfg.alg_type(), "Polish");

    let args = vec![String::from("prog"), String::from("a+b"), String::from("Other")];
    let cfg = Config::new(&args).unwrap();
    assert_eq!(cfg.alg_type(), "TwoStacks");
}
