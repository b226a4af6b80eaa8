use vstd::prelude::*;

use crate::Config;
use crate::grammar::{validate, validate_spec, GrammarError};
use crate::utils::{
    category, category_of, is_operator, operator_priority, priority_of, CharCategory,
};

verus! {

/// A pending operator: its symbol and the priority it was given when read.
#[derive(Clone, Copy, Debug, PartialEq, Eq, Structural)]
pub struct Operator {
    pub symbol: char,
    pub priority: i128,
}

/// Why a reduction failed.
#[derive(Clone, Copy, Debug, PartialEq, Eq, Structural)]
pub enum ReduceError {
    UnbalancedParens,
    MissingOperand,
    MissingOperator,
    ExtraOperands,
    ExtraOperators,
    InvalidCharacter,
}

/// Why an expression was not accepted as it stands.
#[derive(Clone, Copy, Debug, PartialEq, Eq, Structural)]
pub enum RunError {
    Grammar(GrammarError),
    Reduce(ReduceError),
}

/// Operand stack, operator stack (symbol, priority) and parenthesis offset.
pub type ScanState = (Seq<Seq<char>>, Seq<(char, int)>, int);

pub type Stacks = (Seq<Seq<char>>, Seq<(char, int)>);

pub open spec fn operands_view(v: Seq<String>) -> Seq<Seq<char>> {
    v.map_values(|s: String| s@)
}

pub open spec fn operators_view(v: Seq<Operator>) -> Seq<(char, int)> {
    v.map_values(|o: Operator| (o.symbol, o.priority as int))
}

/// The largest priority any operator can get from an expression whose length fits in `usize`.
pub open spec fn max_priority() -> int {
    10 * (usize::MAX as int) + 2
}

/// Every operator on the stack is one of the four symbols, with a priority in range.
pub open spec fn operators_ok(v: Seq<Operator>) -> bool {
    forall|i: int|
        0 <= i < v.len() ==> is_operator(#[trigger] v[i].symbol) && 0 <= v[i].priority
            <= max_priority()
}

pub open spec fn wrap(s: Seq<char>) -> Seq<char> {
    seq!['('] + s + seq![')']
}

/// One reduction: the two topmost operands are joined by the topmost operator, and the result
/// is parenthesised when that operator outranks the next one on the stack by more than 1.
pub open spec fn evaluate_spec(operands: Seq<Seq<char>>, operators: Seq<(char, int)>) -> Result<
    Stacks,
    ReduceError,
> {
    if operands.len() < 2 {
        Err(ReduceError::MissingOperand)
    } else if operators.len() == 0 {
        Err(ReduceError::MissingOperator)
    } else {
        let n = operands.len();
        let op = operators.last();
        let rest = operators.drop_last();
        let joined = operands[n - 2] + seq![op.0] + operands[n - 1];
        let combined = if rest.len() > 0 && op.1 - rest.last().1 > 1 {
            wrap(joined)
        } else {
            joined
        };
        Ok((operands.subrange(0, n - 2).push(combined), rest))
    }
}

/// Places an operator: reduces while the top of the stack has at least its priority.
pub open spec fn push_spec(operands: Seq<Seq<char>>, operators: Seq<(char, int)>, op: (char, int)) -> Result<
    Stacks,
    ReduceError,
>
    decreases operators.len(),
{
    if operators.len() == 0 || operators.last().1 < op.1 {
        Ok((operands, operators.push(op)))
    } else {
        match evaluate_spec(operands, operators) {
            Ok(next) => push_spec(next.0, next.1, op),
            Err(e) => Err(e),
        }
    }
}

/// Reading one character.
pub open spec fn step_spec(st: ScanState, ch: char) -> Result<ScanState, ReduceError> {
    match category_of(ch) {
        CharCategory::Letter => Ok((st.0.push(seq![ch]), st.1, st.2)),
        CharCategory::Operator => match push_spec(st.0, st.1, (ch, priority_of(ch, st.2))) {
            Ok(p) => Ok((p.0, p.1, st.2)),
            Err(e) => Err(e),
        },
        CharCategory::OpenParen => Ok((st.0, st.1, st.2 + 10)),
        CharCategory::CloseParen => if st.2 - 10 < 0 {
            Err(ReduceError::UnbalancedParens)
        } else {
            Ok((st.0, st.1, st.2 - 10))
        },
        CharCategory::Sentinel => Ok(st),
        CharCategory::Invalid => Err(ReduceError::InvalidCharacter),
    }
}

/// The state after reading the first `n` characters of `s`.
pub open spec fn scan_spec(s: Seq<char>, n: nat) -> Result<ScanState, ReduceError>
    decreases n,
{
    if n == 0 {
        Ok((Seq::empty(), Seq::empty(), 0))
    } else {
        match scan_spec(s, (n - 1) as nat) {
            Ok(st) => if n <= s.len() {
                step_spec(st, s[n - 1])
            } else {
                Ok(st)
            },
            Err(e) => Err(e),
        }
    }
}

/// Reduces until the operator stack is empty.
pub open spec fn drain_spec(operands: Seq<Seq<char>>, operators: Seq<(char, int)>) -> Result<
    Stacks,
    ReduceError,
>
    decreases operators.len(),
{
    if operators.len() == 0 {
        Ok((operands, operators))
    } else {
        match evaluate_spec(operands, operators) {
            Ok(next) => drain_spec(next.0, next.1),
            Err(e) => Err(e),
        }
    }
}

/// The checks made once the operator stack is drained.
pub open spec fn finish_spec(operands: Seq<Seq<char>>, operators: Seq<(char, int)>, offset: int) -> Result<
    Seq<char>,
    ReduceError,
> {
    if offset != 0 {
        Err(ReduceError::UnbalancedParens)
    } else if operands.len() > 1 {
        Err(ReduceError::ExtraOperands)
    } else if operands.len() == 0 {
        Err(ReduceError::MissingOperator)
    } else if operators.len() > 0 {
        Err(ReduceError::ExtraOperators)
    } else {
        Ok(operands[0])
    }
}

/// The outcome of the whole pipeline on `s`: the grammar check, then the reduction.
pub open spec fn run_spec(s: Seq<char>) -> Result<Seq<char>, RunError> {
    match validate_spec(s) {
        Err(e) => Err(RunError::Grammar(e)),
        Ok(()) => match reduce_spec(s) {
            Err(e) => Err(RunError::Reduce(e)),
            Ok(t) => Ok(t),
        },
    }
}

/// The outcome of reducing the expression `s`.
pub open spec fn reduce_spec(s: Seq<char>) -> Result<Seq<char>, ReduceError> {
    match scan_spec(s, s.len()) {
        Ok(st) => match drain_spec(st.0, st.1) {
            Ok(d) => finish_spec(d.0, d.1, st.2),
            Err(e) => Err(e),
        },
        Err(e) => Err(e),
    }
}

/// Once the scan fails, reading further characters keeps the same error.
pub(crate) proof fn lemma_scan_error_stays(s: Seq<char>, k: nat, m: nat)
    requires
        scan_spec(s, k) is Err,
        k <= m,
    ensures
        scan_spec(s, m) == scan_spec(s, k),
    decreases m - k,
{
    if k < m {
        lemma_scan_error_stays(s, k, (m - 1) as nat);
    }
}

/// The one-character text of an operator symbol.
fn symbol_text(symbol: char) -> (r: &'static str)
    requires
        is_operator(symbol),
    ensures
        r@ == seq![symbol],
{
    if symbol == '+' {
        proof {
            reveal_strlit("+");
        }
        assert("+"@ =~= seq!['+']);
        "+"
    } else if symbol == '-' {
        proof {
            reveal_strlit("-");
        }
        assert("-"@ =~= seq!['-']);
        "-"
    } else if symbol == '*' {
        proof {
            reveal_strlit("*");
        }
        assert("*"@ =~= seq!['*']);
        "*"
    } else {
        proof {
            reveal_strlit("/");
        }
        assert("/"@ =~= seq!['/']);
        "/"
    }
}

/// Pops two operands and one operator and pushes back their combination.
fn evaluate(operand_stack: &mut Vec<String>, operator_stack: &mut Vec<Operator>) -> (r: Result<
    (),
    ReduceError,
>)
    requires
        operators_ok(old(operator_stack)@),
    ensures
        operators_ok(final(operator_stack)@),
        match evaluate_spec(operands_view(old(operand_stack)@), operators_view(old(operator_stack)@)) {
            Ok(next) => r is Ok && operands_view(final(operand_stack)@) == next.0 && operators_view(
                final(operator_stack)@,
            ) == next.1,
            Err(e) => r == Err::<(), ReduceError>(e),
        },
{
    if operand_stack.len() < 2 {
        return Err(ReduceError::MissingOperand);
    }
    if operator_stack.len() == 0 {
        return Err(ReduceError::MissingOperator);
    }
    let ghost operands0 = operands_view(operand_stack@);
    let ghost operators0 = operators_view(operator_stack@);
    let ghost n = operand_stack@.len() as int;
    let last = operand_stack.pop().unwrap();
    let mut combined = operand_stack.pop().unwrap();
    let operator = operator_stack.pop().unwrap();
    assert(operators_view(operator_stack@) =~= operators0.drop_last());
    assert(operator_stack@.len() > 0 ==> operators0.drop_last().last() == (
        operator_stack@.last().symbol,
        operator_stack@.last().priority as int,
    ));
    assert(operator_stack@ =~= old(operator_stack)@.drop_last());
    combined.append(symbol_text(operator.symbol));
    combined.append(last.as_str());
    let ghost joined = combined@;
    assert(joined =~= operands0[n - 2] + seq![operator.symbol] + operands0[n - 1]);
    if operator_stack.len() > 0 {
        let top = operator_stack[operator_stack.len() - 1];
        if operator.priority - top.priority > 1 {
            let mut wrapped = String::from_str("(");
            proof {
                reveal_strlit("(");
                reveal_strlit(")");
            }
            wrapped.append(combined.as_str());
            wrapped.append(")");
            assert(wrapped@ =~= wrap(joined));
            combined = wrapped;
        }
    }
    operand_stack.push(combined);
    assert(operands_view(operand_stack@) =~= operands0.subrange(0, n - 2).push(combined@));
    Ok(())
}

/// Places the operator `symbol`, read at parenthesis offset `offset`, on the operator stack,
/// first reducing every pending operator that binds at least as tightly.
fn push_operator(
    operand_stack: &mut Vec<String>,
    operator_stack: &mut Vec<Operator>,
    symbol: char,
    offset: i128,
) -> (r: Result<(), ReduceError>)
    requires
        is_operator(symbol),
        0 <= offset <= max_priority() - 2,
        operators_ok(old(operator_stack)@),
    ensures
        operators_ok(final(operator_stack)@),
        match push_spec(
            operands_view(old(operand_stack)@),
            operators_view(old(operator_stack)@),
            (symbol, priority_of(symbol, offset as int)),
        ) {
            Ok(next) => r is Ok && operands_view(final(operand_stack)@) == next.0 && operators_view(
                final(operator_stack)@,
            ) == next.1,
            Err(e) => r == Err::<(), ReduceError>(e),
        },
{
    let operator = Operator { symbol, priority: operator_priority(symbol, offset) };
    let ghost tok = (symbol, priority_of(symbol, offset as int));
    let ghost goal = push_spec(
        operands_view(operand_stack@),
        operators_view(operator_stack@),
        tok,
    );
    loop
        invariant
            operators_ok(operator_stack@),
            is_operator(symbol),
            tok == (symbol, priority_of(symbol, offset as int)),
            operator.symbol == symbol,
            operator.priority as int == tok.1,
            0 <= operator.priority <= max_priority(),
            goal == push_spec(operands_view(operand_stack@), operators_view(operator_stack@), tok),
            goal == push_spec(
                operands_view(old(operand_stack)@),
                operators_view(old(operator_stack)@),
                tok,
            ),
        decreases operator_stack@.len(),
    {
        if operator_stack.len() == 0 || operator_stack[operator_stack.len() - 1].priority
            < operator.priority {
            let ghost before = operator_stack@;
            operator_stack.push(operator);
            assert(operator_stack@ == before.push(operator));
            assert(operators_view(operator_stack@) =~= operators_view(before).push(tok));
            assert(operators_ok(operator_stack@)) by {
                assert forall|j: int| 0 <= j < operator_stack@.len() implies is_operator(
                    #[trigger] operator_stack@[j].symbol,
                ) && 0 <= operator_stack@[j].priority <= max_priority() by {
                    if j < before.len() {
                        assert(operator_stack@[j] == before[j]);
                    } else {
                        assert(operator_stack@[j] == operator);
                    }
                }
            }
            return Ok(());
        }
        match evaluate(operand_stack, operator_stack) {
            Ok(()) => {},
            Err(e) => {
                return Err(e);
            },
        }
    }
}

/// Reduces the expression with an operand stack and an operator stack, giving the
/// linearised expression.
pub fn reduce(expression: &str) -> (r: Result<String, ReduceError>)
    ensures
        match reduce_spec(expression@) {
            Ok(t) => r is Ok && r->Ok_0@ == t,
            Err(e) => r == Err::<String, ReduceError>(e),
        },
{
    let mut operand_stack: Vec<String> = Vec::new();
    let mut operator_stack: Vec<Operator> = Vec::new();
    let mut offset: i128 = 0;
    let n = expression.unicode_len();
    let mut i: usize = 0;
    assert(operands_view(operand_stack@) =~= Seq::empty());
    assert(operators_view(operator_stack@) =~= Seq::empty());
    while i < n
        invariant
            n == expression@.len(),
            i <= n,
            0 <= offset <= 10 * i,
            operators_ok(operator_stack@),
            scan_spec(expression@, i as nat) == Ok::<ScanState, ReduceError>(
                (operands_view(operand_stack@), operators_view(operator_stack@), offset as int),
            ),
        decreases n - i,
    {
        let ch = expression.get_char(i);
        proof {
            if step_spec(
                (operands_view(operand_stack@), operators_view(operator_stack@), offset as int),
                ch,
            ) is Err {
                lemma_scan_error_stays(expression@, (i + 1) as nat, n as nat);
            }
        }
        let ghost st = (operands_view(operand_stack@), operators_view(operator_stack@), offset as int);
        assert(scan_spec(expression@, (i + 1) as nat) == step_spec(st, ch));
        match category(ch) {
            CharCategory::Letter => {
                let ghost before = operands_view(operand_stack@);
                let text = String::from_str(expression.substring_char(i, i + 1));
                assert(text@ =~= seq![ch]);
                operand_stack.push(text);
                assert(operands_view(operand_stack@) =~= before.push(seq![ch]));
            },
            CharCategory::Operator => {
                match push_operator(&mut operand_stack, &mut operator_stack, ch, offset) {
                    Ok(()) => {},
                    Err(e) => {
                        return Err(e);
                    },
                }
            },
            CharCategory::OpenParen => {
                offset = offset + 10;
            },
            CharCategory::CloseParen => {
                if offset < 10 {
                    return Err(ReduceError::UnbalancedParens);
                }
                offset = offset - 10;
            },
            CharCategory::Sentinel => {},
            CharCategory::Invalid => {
                return Err(ReduceError::InvalidCharacter);
            },
        }
        i = i + 1;
    }
    assert(expression@.len() as nat == n as nat);
    let ghost scanned = (operands_view(operand_stack@), operators_view(operator_stack@));
    while operator_stack.len() > 0
        invariant
            operators_ok(operator_stack@),
            scan_spec(expression@, expression@.len()) == Ok::<ScanState, ReduceError>(
                (scanned.0, scanned.1, offset as int),
            ),
            drain_spec(scanned.0, scanned.1) == drain_spec(
                operands_view(operand_stack@),
                operators_view(operator_stack@),
            ),
        decreases operator_stack@.len(),
    {
        let ghost before = (operands_view(operand_stack@), operators_view(operator_stack@));
        match evaluate(&mut operand_stack, &mut operator_stack) {
            Ok(()) => {},
            Err(e) => {
                assert(drain_spec(before.0, before.1) == Err::<Stacks, ReduceError>(e));
                return Err(e);
            },
        }
    }
    if offset != 0 {
        return Err(ReduceError::UnbalancedParens);
    }
    if operand_stack.len() > 1 {
        return Err(ReduceError::ExtraOperands);
    }
    if operand_stack.len() == 0 {
        return Err(ReduceError::MissingOperator);
    }
    Ok(operand_stack.pop().unwrap())
}

/// Checks the configured expression against the grammar, then reduces it, giving its
/// linearised form.
pub fn run(config: &Config) -> (r: Result<String, RunError>)
    ensures
        match run_spec(config@.0) {
            Ok(t) => r is Ok && r->Ok_0@ == t,
            Err(e) => r == Err::<String, RunError>(e),
        },
{
    let expression = config.expression();
    match validate(expression) {
        Err(e) => {
            return Err(RunError::Grammar(e));
        },
        Ok(()) => {},
    }
    match reduce(expression) {
        Err(e) => Err(RunError::Reduce(e)),
        Ok(canonical) => Ok(canonical),
    }
}

} // verus!
