use vstd::prelude::*;

use crate::utils::{category, category_of, CharCategory};

verus! {

/// Why an expression was rejected by the grammar check.
#[derive(Clone, Copy, Debug, PartialEq, Eq, Structural)]
pub enum GrammarError {
    TooShort,
    BadCharacter,
    BadNeighbors,
}

/// Which categories may directly follow which.
pub open spec fn may_follow(first: CharCategory, second: CharCategory) -> bool {
    match first {
        CharCategory::Letter => second == CharCategory::Operator || second == CharCategory::CloseParen,
        CharCategory::Operator => second == CharCategory::Letter || second == CharCategory::OpenParen,
        CharCategory::OpenParen => second == CharCategory::Letter || second == CharCategory::OpenParen,
        CharCategory::CloseParen => second == CharCategory::Operator || second == CharCategory::CloseParen,
        _ => false,
    }
}

/// A character of the expression alphabet: letters, the four operators and parentheses.
pub open spec fn in_alphabet(ch: char) -> bool {
    let c = category_of(ch);
    c == CharCategory::Letter || c == CharCategory::Operator || c == CharCategory::OpenParen
        || c == CharCategory::CloseParen
}

pub open spec fn all_in_alphabet(s: Seq<char>) -> bool {
    forall|i: int| 0 <= i < s.len() ==> in_alphabet(#[trigger] s[i])
}

pub open spec fn pair_ok(s: Seq<char>, i: int) -> bool {
    may_follow(category_of(s[i]), category_of(s[i + 1]))
}

pub open spec fn all_pairs_ok(s: Seq<char>) -> bool {
    forall|i: int| 0 <= i < s.len() - 1 ==> #[trigger] pair_ok(s, i)
}

/// The outcome of the grammar check on `s`.
pub open spec fn validate_spec(s: Seq<char>) -> Result<(), GrammarError> {
    if s.len() < 3 {
        Err(GrammarError::TooShort)
    } else if !all_in_alphabet(s) {
        Err(GrammarError::BadCharacter)
    } else if !all_pairs_ok(s) {
        Err(GrammarError::BadNeighbors)
    } else {
        Ok(())
    }
}

fn follows_ok(first: CharCategory, second: CharCategory) -> (r: bool)
    ensures
        r == may_follow(first, second),
{
    match first {
        CharCategory::Letter => second == CharCategory::Operator || second == CharCategory::CloseParen,
        CharCategory::Operator => second == CharCategory::Letter || second == CharCategory::OpenParen,
        CharCategory::OpenParen => second == CharCategory::Letter || second == CharCategory::OpenParen,
        CharCategory::CloseParen => second == CharCategory::Operator || second == CharCategory::CloseParen,
        _ => false,
    }
}

/// Checks the expression's alphabet and every pair of adjacent characters.
pub fn validate(expression: &str) -> (r: Result<(), GrammarError>)
    ensures
        r == validate_spec(expression@),
        expression@.len() < 3 ==> r == Err::<(), GrammarError>(GrammarError::TooShort),
        expression@.len() >= 3 && (exists|i: int|
            0 <= i < expression@.len() && !in_alphabet(#[trigger] expression@[i]))
            ==> r == Err::<(), GrammarError>(GrammarError::BadCharacter),
{
    let n = expression.unicode_len();
    if n < 3 {
        return Err(GrammarError::TooShort);
    }
    let mut i: usize = 0;
    while i < n
        invariant
            n == expression@.len(),
            n >= 3,
            i <= n,
            forall|j: int| 0 <= j < i ==> in_alphabet(#[trigger] expression@[j]),
        decreases n - i,
    {
        let c = category(expression.get_char(i));
        if c == CharCategory::Sentinel || c == CharCategory::Invalid {
            assert(!in_alphabet(expression@[i as int]));
            return Err(GrammarError::BadCharacter);
        }
        i = i + 1;
    }
    let mut i: usize = 0;
    while i + 1 < n
        invariant
            n == expression@.len(),
            n >= 3,
            i < n,
            all_in_alphabet(expression@),
            forall|j: int| 0 <= j < i ==> #[trigger] pair_ok(expression@, j),
        decreases n - i,
    {
        let a = category(expression.get_char(i));
        let b = category(expression.get_char(i + 1));
        if !follows_ok(a, b) {
            assert(!pair_ok(expression@, i as int));
            return Err(GrammarError::BadNeighbors);
        }
        i = i + 1;
    }
    Ok(())
}

/// An expression that passes the grammar check has every adjacent pair allowed by the table,
/// and a string of the alphabet in which one adjacent pair breaks the table is rejected.
pub proof fn lemma_grammar_pairs(s: Seq<char>, k: int)
    ensures
        validate_spec(s) is Ok ==> forall|i: int| 0 <= i < s.len() - 1 ==> #[trigger] may_follow(
            category_of(s[i]),
            category_of(s[i + 1]),
        ),
        0 <= k < s.len() - 1 && !may_follow(category_of(s[k]), category_of(s[k + 1]))
            ==> validate_spec(s) is Err,
{
    if validate_spec(s) is Ok {
        assert forall|i: int| 0 <= i < s.len() - 1 implies #[trigger] may_follow(
            category_of(s[i]),
            category_of(s[i + 1]),
        ) by {
            assert(pair_ok(s, i));
        }
    }
    if 0 <= k < s.len() - 1 && !may_follow(category_of(s[k]), category_of(s[k + 1])) {
        assert(!pair_ok(s, k));
    }
}

} // verus!
