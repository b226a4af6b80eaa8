use vstd::prelude::*;

verus! {

/// The grammatical category of one character of an expression.
#[derive(Clone, Copy, Debug, PartialEq, Eq, Structural)]
pub enum CharCategory {
    Letter,
    Operator,
    OpenParen,
    CloseParen,
    Sentinel,
    Invalid,
}

pub open spec fn is_letter(ch: char) -> bool {
    ('a' <= ch && ch <= 'z') || ('A' <= ch && ch <= 'Z')
}

pub open spec fn is_operator(ch: char) -> bool {
    ch == '+' || ch == '-' || ch == '*' || ch == '/'
}

/// The boundary marker that a scan may place around an expression.
pub open spec fn is_sentinel(ch: char) -> bool {
    ch == '#'
}

pub open spec fn category_of(ch: char) -> CharCategory {
    if is_letter(ch) {
        CharCategory::Letter
    } else if is_operator(ch) {
        CharCategory::Operator
    } else if ch == '(' {
        CharCategory::OpenParen
    } else if ch == ')' {
        CharCategory::CloseParen
    } else if is_sentinel(ch) {
        CharCategory::Sentinel
    } else {
        CharCategory::Invalid
    }
}

/// The numeric code of a category: 1 letter, 2 operator, 3 '(', 4 ')', 5 sentinel, 0 anything else.
pub open spec fn code_of(c: CharCategory) -> u8 {
    match c {
        CharCategory::Letter => 1,
        CharCategory::Operator => 2,
        CharCategory::OpenParen => 3,
        CharCategory::CloseParen => 4,
        CharCategory::Sentinel => 5,
        CharCategory::Invalid => 0,
    }
}

/// Base priority of an operator symbol: additive operators bind looser than multiplicative ones.
pub open spec fn base_priority(op: char) -> int {
    if op == '+' || op == '-' {
        1
    } else if op == '*' || op == '/' {
        2
    } else {
        0
    }
}

/// Priority of an operator found at the given parenthesis offset (ten per nesting level).
pub open spec fn priority_of(op: char, offset: int) -> int {
    if is_operator(op) {
        base_priority(op) + offset
    } else {
        0
    }
}

/// Classifies a character, as a numeric category code.
pub fn char_type(ch: char) -> (r: u8)
    ensures
        r == code_of(category_of(ch)),
{
    if (ch >= 'a' && ch <= 'z') || (ch >= 'A' && ch <= 'Z') {
        return 1;
    }
    if ch == '+' || ch == '-' || ch == '*' || ch == '/' {
        return 2;
    }
    if ch == '(' {
        return 3;
    }
    if ch == ')' {
        return 4;
    }
    if ch == '#' {
        return 5;
    }
    0
}

/// Classifies a character.
pub fn category(ch: char) -> (r: CharCategory)
    ensures
        r == category_of(ch),
{
    match char_type(ch) {
        1 => CharCategory::Letter,
        2 => CharCategory::Operator,
        3 => CharCategory::OpenParen,
        4 => CharCategory::CloseParen,
        5 => CharCategory::Sentinel,
        _ => CharCategory::Invalid,
    }
}

/// Priority of the operator `op` at parenthesis offset `offset`; 0 for a non-operator.
pub fn operator_priority(op: char, offset: i128) -> (r: i128)
    requires
        offset <= i128::MAX - 2,
    ensures
        r == priority_of(op, offset as int),
{
    match op {
        '+' => 1 + offset,
        '-' => 1 + offset,
        '*' => 2 + offset,
        '/' => 2 + offset,
        _ => 0,
    }
}

/// Classification depends on the character alone: equal characters always get equal categories.
pub proof fn lemma_category_deterministic(a: char, b: char)
    requires
        a == b,
    ensures
        category_of(a) == category_of(b),
        code_of(category_of(a)) == code_of(category_of(b)),
{
}

} // verus!
