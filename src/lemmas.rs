use vstd::prelude::*;

use crate::grammar::{in_alphabet, pair_ok, validate_spec};
use crate::two_stacks::{
    drain_spec, evaluate_spec, lemma_scan_error_stays, push_spec, reduce_spec, run_spec, scan_spec,
    step_spec, wrap,
};
use crate::utils::{category_of, is_letter, is_operator, priority_of, CharCategory};

verus! {

/// How often `c` occurs in `s`.
pub open spec fn count_char(s: Seq<char>, c: char) -> nat
    decreases s.len(),
{
    if s.len() == 0 {
        0
    } else {
        count_char(s.drop_last(), c) + if s.last() == c {
            1nat
        } else {
            0nat
        }
    }
}

/// As many '(' as ')', and no prefix closes more parentheses than it opens.
pub open spec fn parens_balanced(s: Seq<char>) -> bool {
    &&& count_char(s, '(') == count_char(s, ')')
    &&& forall|k: int| 0 <= k <= s.len() ==> count_char(#[trigger] s.take(k), ')') <= count_char(s.take(k), '(')
}

proof fn lemma_scan_offset(s: Seq<char>, k: nat)
    requires
        k <= s.len(),
        scan_spec(s, k) is Ok,
    ensures
        scan_spec(s, k)->Ok_0.2 == 10 * (count_char(s.take(k as int), '(') - count_char(
            s.take(k as int),
            ')',
        )),
        forall|j: int| 0 <= j <= k ==> count_char(#[trigger] s.take(j), ')') <= count_char(s.take(j), '('),
    decreases k,
{
    if k > 0 {
        let j = (k - 1) as nat;
        if scan_spec(s, j) is Err {
            lemma_scan_error_stays(s, j, k);
        }
        lemma_scan_offset(s, j);
        assert(s.take(k as int).drop_last() =~= s.take(j as int));
        let st = scan_spec(s, j)->Ok_0;
        assert(scan_spec(s, k) == step_spec(st, s[j as int]));
        let ch = s[j as int];
        assert(category_of(ch) == CharCategory::OpenParen <==> ch == '(');
        assert(category_of(ch) == CharCategory::CloseParen <==> ch == ')');
    } else {
        assert(s.take(0) =~= Seq::<char>::empty());
    }
}

/// An expression that reduces has balanced parentheses.
pub proof fn lemma_reduced_is_balanced(s: Seq<char>)
    requires
        reduce_spec(s) is Ok,
    ensures
        parens_balanced(s),
{
    lemma_scan_offset(s, s.len());
    assert(s.take(s.len() as int) =~= s);
}

pub open spec fn is_paren(c: char) -> bool {
    c == '(' || c == ')'
}

/// `s` with its parentheses removed: its operands and operators, in order.
pub open spec fn strip_parens(s: Seq<char>) -> Seq<char>
    decreases s.len(),
{
    if s.len() == 0 {
        Seq::empty()
    } else if is_paren(s.last()) {
        strip_parens(s.drop_last())
    } else {
        strip_parens(s.drop_last()).push(s.last())
    }
}

/// An expression written as the grammar wants it, with balanced parentheses, that neither
/// starts nor ends with an operator.
pub open spec fn well_formed(s: Seq<char>) -> bool {
    &&& validate_spec(s) is Ok
    &&& parens_balanced(s)
    &&& !is_operator(s[0])
    &&& !is_operator(s.last())
}

proof fn lemma_strip_add(a: Seq<char>, b: Seq<char>)
    ensures
        strip_parens(a + b) == strip_parens(a) + strip_parens(b),
    decreases b.len(),
{
    if b.len() == 0 {
        assert(a + b =~= a);
        assert(strip_parens(a) + strip_parens(b) =~= strip_parens(a));
    } else {
        assert((a + b).drop_last() =~= a + b.drop_last());
        lemma_strip_add(a, b.drop_last());
        assert(strip_parens(a + b) =~= strip_parens(a) + strip_parens(b));
    }
}

proof fn lemma_strip_one(c: char)
    ensures
        strip_parens(seq![c]) == if is_paren(c) {
            Seq::<char>::empty()
        } else {
            seq![c]
        },
{
    assert(seq![c].drop_last() =~= Seq::<char>::empty());
    assert(strip_parens(Seq::<char>::empty()) == Seq::<char>::empty());
    assert(seq![c].last() == c);
    assert(Seq::<char>::empty().push(c) =~= seq![c]);
}

/// Operands and operators interleaved, parentheses dropped, for stacks of equal height:
/// each operand is followed by the operator above it.
spec fn layout_pending(operands: Seq<Seq<char>>, operators: Seq<(char, int)>) -> Seq<char>
    decreases operators.len(),
{
    if operators.len() == 0 || operands.len() == 0 {
        Seq::empty()
    } else {
        layout_pending(operands.drop_last(), operators.drop_last()) + strip_parens(operands.last())
            + seq![operators.last().0]
    }
}

/// The same for an operand stack one higher than the operator stack.
spec fn layout_complete(operands: Seq<Seq<char>>, operators: Seq<(char, int)>) -> Seq<char> {
    layout_pending(operands.drop_last(), operators) + strip_parens(operands.last())
}

spec fn symbols_ok(operators: Seq<(char, int)>) -> bool {
    forall|i: int| 0 <= i < operators.len() ==> !is_paren(#[trigger] operators[i].0)
}

proof fn lemma_evaluate_keeps_layout(operands: Seq<Seq<char>>, operators: Seq<(char, int)>)
    requires
        operands.len() == operators.len() + 1,
        operators.len() >= 1,
        symbols_ok(operators),
    ensures
        evaluate_spec(operands, operators) is Ok,
        ({
            let next = evaluate_spec(operands, operators)->Ok_0;
            &&& next.0.len() == next.1.len() + 1
            &&& next.1 == operators.drop_last()
            &&& layout_complete(next.0, next.1) == layout_complete(operands, operators)
        }),
{
    let n = operands.len() as int;
    let next = evaluate_spec(operands, operators)->Ok_0;
    let op = operators.last();
    let joined = operands[n - 2] + seq![op.0] + operands[n - 1];
    lemma_strip_add(operands[n - 2] + seq![op.0], operands[n - 1]);
    lemma_strip_add(operands[n - 2], seq![op.0]);
    lemma_strip_one(op.0);
    lemma_strip_one('(');
    lemma_strip_one(')');
    lemma_strip_add(seq!['('] + joined, seq![')']);
    lemma_strip_add(seq!['('], joined);
    assert(strip_parens(wrap(joined)) =~= strip_parens(joined));
    assert(next.0.drop_last() =~= operands.drop_last().drop_last());
    assert(operands.drop_last().last() == operands[n - 2]);
    assert(layout_complete(next.0, next.1) =~= layout_complete(operands, operators));
}

proof fn lemma_push_keeps_layout(
    operands: Seq<Seq<char>>,
    operators: Seq<(char, int)>,
    op: (char, int),
)
    requires
        operands.len() == operators.len() + 1,
        symbols_ok(operators),
        !is_paren(op.0),
    ensures
        push_spec(operands, operators, op) is Ok,
        ({
            let next = push_spec(operands, operators, op)->Ok_0;
            &&& next.0.len() == next.1.len()
            &&& symbols_ok(next.1)
            &&& layout_pending(next.0, next.1) == layout_complete(operands, operators) + seq![op.0]
        }),
    decreases operators.len(),
{
    if operators.len() == 0 || operators.last().1 < op.1 {
        let pushed = operators.push(op);
        assert(pushed.drop_last() =~= operators);
        assert(symbols_ok(pushed)) by {
            assert forall|i: int| 0 <= i < pushed.len() implies !is_paren(#[trigger] pushed[i].0) by {
                if i < operators.len() {
                    assert(pushed[i] == operators[i]);
                }
            }
        }
    } else {
        lemma_evaluate_keeps_layout(operands, operators);
        let next = evaluate_spec(operands, operators)->Ok_0;
        assert(symbols_ok(next.1)) by {
            assert forall|i: int| 0 <= i < next.1.len() implies !is_paren(#[trigger] next.1[i].0) by {
                assert(next.1[i] == operators[i]);
            }
        }
        lemma_push_keeps_layout(next.0, next.1, op);
    }
}

proof fn lemma_drain_keeps_layout(operands: Seq<Seq<char>>, operators: Seq<(char, int)>)
    requires
        operands.len() == operators.len() + 1,
        symbols_ok(operators),
    ensures
        drain_spec(operands, operators) is Ok,
        ({
            let d = drain_spec(operands, operators)->Ok_0;
            &&& d.0.len() == 1
            &&& d.1.len() == 0
            &&& strip_parens(d.0[0]) == layout_complete(operands, operators)
        }),
    decreases operators.len(),
{
    if operators.len() == 0 {
        assert(operands.drop_last().len() == 0);
        assert(layout_pending(operands.drop_last(), operators) =~= Seq::<char>::empty());
        assert(layout_complete(operands, operators) =~= strip_parens(operands[0]));
    } else {
        lemma_evaluate_keeps_layout(operands, operators);
        let next = evaluate_spec(operands, operators)->Ok_0;
        assert(symbols_ok(next.1)) by {
            assert forall|i: int| 0 <= i < next.1.len() implies !is_paren(#[trigger] next.1[i].0) by {
                assert(next.1[i] == operators[i]);
            }
        }
        lemma_drain_keeps_layout(next.0, next.1);
    }
}

/// Whether the last character of `p` that is not a parenthesis is a letter.
spec fn last_is_letter(p: Seq<char>) -> bool
    decreases p.len(),
{
    if p.len() == 0 {
        false
    } else if is_paren(p.last()) {
        last_is_letter(p.drop_last())
    } else {
        is_letter(p.last())
    }
}

proof fn lemma_last_kind(s: Seq<char>, k: int)
    requires
        well_formed(s),
        1 <= k <= s.len(),
    ensures
        category_of(s[k - 1]) == CharCategory::Letter || category_of(s[k - 1])
            == CharCategory::CloseParen ==> last_is_letter(s.take(k)),
        category_of(s[k - 1]) == CharCategory::Operator || category_of(s[k - 1])
            == CharCategory::OpenParen ==> !last_is_letter(s.take(k)),
    decreases k,
{
    let t = s.take(k);
    assert(t.drop_last() =~= s.take(k - 1));
    assert(t.last() == s[k - 1]);
    let ch = s[k - 1];
    if is_paren(ch) {
        assert(last_is_letter(t) == last_is_letter(s.take(k - 1)));
    }
    if k == 1 {
        assert(s.take(0) =~= Seq::<char>::empty());
        assert(!last_is_letter(s.take(0)));
        if ch == ')' {
            assert(count_char(t, ')') == 1);
            assert(count_char(t, '(') == 0);
            assert(count_char(s.take(1), ')') <= count_char(s.take(1), '('));
        }
    } else {
        assert(pair_ok(s, k - 2));
        lemma_last_kind(s, k - 1);
    }
}

proof fn lemma_scan_shape(s: Seq<char>, k: nat)
    requires
        well_formed(s),
        k <= s.len(),
    ensures
        scan_spec(s, k) is Ok,
        ({
            let st = scan_spec(s, k)->Ok_0;
            &&& symbols_ok(st.1)
            &&& if last_is_letter(s.take(k as int)) {
                &&& st.0.len() == st.1.len() + 1
                &&& layout_complete(st.0, st.1) == strip_parens(s.take(k as int))
            } else {
                &&& st.0.len() == st.1.len()
                &&& layout_pending(st.0, st.1) == strip_parens(s.take(k as int))
            }
        }),
    decreases k,
{
    if k == 0 {
        assert(s.take(0) =~= Seq::<char>::empty());
        assert(strip_parens(Seq::<char>::empty()) == Seq::<char>::empty());
    } else {
        let j = (k - 1) as nat;
        lemma_scan_shape(s, j);
        let st = scan_spec(s, j)->Ok_0;
        let ch = s[j as int];
        assert(scan_spec(s, k) == step_spec(st, ch));
        assert(in_alphabet(ch));
        let t = s.take(k as int);
        assert(t.drop_last() =~= s.take(j as int));
        assert(t.last() == ch);
        lemma_strip_one(ch);
        if is_letter(ch) {
            if j == 0 {
                assert(s.take(0) =~= Seq::<char>::empty());
            } else {
                assert(pair_ok(s, j - 1));
                lemma_last_kind(s, j as int);
            }
            let next = st.0.push(seq![ch]);
            assert(next.drop_last() =~= st.0);
            assert(layout_complete(next, st.1) =~= strip_parens(t));
        } else if is_operator(ch) {
            assert(j >= 1);
            assert(pair_ok(s, j - 1));
            lemma_last_kind(s, j as int);
            lemma_push_keeps_layout(st.0, st.1, (ch, priority_of(ch, st.2)));
            let next = push_spec(st.0, st.1, (ch, priority_of(ch, st.2)))->Ok_0;
            assert(layout_pending(next.0, next.1) =~= strip_parens(t));
        } else if ch == ')' {
            lemma_scan_offset(s, j);
            assert(count_char(t, ')') == count_char(s.take(j as int), ')') + 1);
            assert(count_char(t, '(') == count_char(s.take(j as int), '('));
            assert(count_char(s.take(k as int), ')') <= count_char(s.take(k as int), '('));
        }
    }
}

/// A well-formed expression always reduces, and its linearised form holds the same operands
/// and operators in the same order: only parentheses may differ.
pub proof fn lemma_reduce_keeps_order(s: Seq<char>)
    requires
        well_formed(s),
    ensures
        reduce_spec(s) is Ok,
        strip_parens(reduce_spec(s)->Ok_0) == strip_parens(s),
{
    let n = s.len();
    lemma_scan_shape(s, n);
    lemma_scan_offset(s, n);
    assert(s.take(n as int) =~= s);
    let last = s[n - 1];
    assert(in_alphabet(last));
    if last == '(' {
        let p = s.take(n - 1);
        assert(s.drop_last() =~= p);
        assert(count_char(s, '(') == count_char(p, '(') + 1);
        assert(count_char(s, ')') == count_char(p, ')'));
        assert(count_char(s.take(n - 1), ')') <= count_char(s.take(n - 1), '('));
    }
    lemma_last_kind(s, n as int);
    let st = scan_spec(s, n)->Ok_0;
    lemma_drain_keeps_layout(st.0, st.1);
}

/// The whole pipeline accepts a well-formed expression, and hands back its linearised form,
/// which holds the same operands and operators in the same order.
pub proof fn lemma_run_keeps_order(s: Seq<char>)
    requires
        well_formed(s),
    ensures
        run_spec(s) is Ok,
        run_spec(s)->Ok_0 == reduce_spec(s)->Ok_0,
        strip_parens(run_spec(s)->Ok_0) == strip_parens(s),
{
    lemma_reduce_keeps_order(s);
}

} // verus!
