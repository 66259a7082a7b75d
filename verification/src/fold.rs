//! Evaluation order: the tree of a chain `n0 op0 n1 op1 ... nk` evaluates
//! from the right, as `n0 op0 (n1 op1 (... nk))`, whatever the operators are.

use vstd::prelude::*;
use crate::ast::{branch, evaluable, evaluates, leaf, reads_as, SpecNode};
use crate::parser::{chain, parse_text, SpecParseError};
use crate::token::{Literal, Operator, SpecToken};
use crate::tokenizer::tokens;

verus! {

/// The token that spells the given operator.
pub open spec fn operator_token(op: Operator) -> SpecToken {
    match op {
        Operator::Add => SpecToken::Add,
        Operator::Sub => SpecToken::Sub,
        Operator::Mul => SpecToken::Mul,
        Operator::Div => SpecToken::Div,
    }
}

/// Whether the numbers and operators make a chain: one number more than
/// there are operators.
pub open spec fn is_chain(operands: Seq<Seq<char>>, operators: Seq<Operator>) -> bool {
    operands.len() == operators.len() + 1
}

/// The tokens of the chain `n0 op0 n1 op1 ... nk`.
pub open spec fn chain_tokens(operands: Seq<Seq<char>>, operators: Seq<Operator>) -> Seq<SpecToken>
    decreases operands.len(),
{
    if operands.len() == 0 {
        Seq::empty()
    } else if operands.len() == 1 || operators.len() == 0 {
        seq![SpecToken::Num(operands[0])]
    } else {
        seq![SpecToken::Num(operands[0]), operator_token(operators[0])] + chain_tokens(
            operands.drop_first(),
            operators.drop_first(),
        )
    }
}

/// Whether `n0 op0 (n1 op1 (... nk))` may come to `value` under the given
/// arithmetic.
pub open spec fn folds_right<N, C: Fn(&Literal) -> N, A: Fn(Operator, N, N) -> N>(
    operands: Seq<Seq<char>>,
    operators: Seq<Operator>,
    number: C,
    apply: A,
    value: N,
) -> bool
    decreases operands.len(),
{
    if operands.len() == 0 {
        false
    } else if operands.len() == 1 || operators.len() == 0 {
        reads_as(operands[0], number, value)
    } else {
        exists|a: N, b: N|
            {
                &&& reads_as(operands[0], number, a)
                &&& folds_right(operands.drop_first(), operators.drop_first(), number, apply, b)
                &&& call_ensures(apply, (operators[0], a, b), value)
            }
    }
}

/// The tokens of a chain build a tree, and that tree evaluates to a value
/// exactly if the right-to-left fold of the chain comes to it.
pub proof fn lemma_chain_folds_right<N, C: Fn(&Literal) -> N, A: Fn(Operator, N, N) -> N>(
    operands: Seq<Seq<char>>,
    operators: Seq<Operator>,
    number: C,
    apply: A,
    value: N,
)
    requires
        is_chain(operands, operators),
    ensures
        chain(chain_tokens(operands, operators)) matches Ok(tree) && evaluable(tree) && (evaluates(
            tree,
            number,
            apply,
            value,
        ) <==> folds_right(operands, operators, number, apply, value)),
    decreases operands.len(),
{
    let ts = chain_tokens(operands, operators);
    if operands.len() > 1 {
        let rest_operands = operands.drop_first();
        let rest_operators = operators.drop_first();
        let rest = chain_tokens(rest_operands, rest_operators);
        assert(ts.skip(2) =~= rest);
        lemma_chain_folds_right(rest_operands, rest_operators, number, apply, value);
        let right = chain(rest)->Ok_0;
        let tree = chain(ts)->Ok_0;
        assert(tree == branch(ts[1], leaf(ts[0]), right));
        assert(evaluable(leaf(ts[0])));
        assert(evaluable(tree));
        if evaluates(tree, number, apply, value) {
            let (a, b) = choose|a: N, b: N|
                {
                    &&& evaluates(leaf(ts[0]), number, apply, a)
                    &&& evaluates(right, number, apply, b)
                    &&& call_ensures(apply, (operators[0], a, b), value)
                };
            lemma_chain_folds_right(rest_operands, rest_operators, number, apply, b);
            assert(folds_right(operands, operators, number, apply, value));
        }
        if folds_right(operands, operators, number, apply, value) {
            let (a, b) = choose|a: N, b: N|
                {
                    &&& reads_as(operands[0], number, a)
                    &&& folds_right(rest_operands, rest_operators, number, apply, b)
                    &&& call_ensures(apply, (operators[0], a, b), value)
                };
            lemma_chain_folds_right(rest_operands, rest_operators, number, apply, b);
            assert(evaluates(leaf(ts[0]), number, apply, a));
            assert(evaluates(right, number, apply, b));
            assert(evaluates(tree, number, apply, value));
        }
    } else {
        assert(chain(ts) == Ok::<SpecNode, SpecParseError>(leaf(ts[0])));
    }
}

/// A text that spells a chain with at least one operator builds a tree, and
/// that tree evaluates to a value exactly if the right-to-left fold
/// `n0 op0 (n1 op1 (... nk))` comes to it.
pub proof fn lemma_expression_folds_right<N, C: Fn(&Literal) -> N, A: Fn(Operator, N, N) -> N>(
    text: Seq<char>,
    operands: Seq<Seq<char>>,
    operators: Seq<Operator>,
    number: C,
    apply: A,
    value: N,
)
    requires
        is_chain(operands, operators),
        operators.len() >= 1,
        tokens(text) == chain_tokens(operands, operators),
    ensures
        parse_text(text) matches Ok(tree) && evaluable(tree) && (evaluates(
            tree,
            number,
            apply,
            value,
        ) <==> folds_right(operands, operators, number, apply, value)),
{
    let ts = tokens(text);
    let rest_operands = operands.drop_first();
    let rest_operators = operators.drop_first();
    let rest = chain_tokens(rest_operands, rest_operators);
    assert(ts.drop_first().drop_first() =~= rest);
    lemma_chain_folds_right(rest_operands, rest_operators, number, apply, value);
    let right = chain(rest)->Ok_0;
    let tree = parse_text(text)->Ok_0;
    assert(tree == branch(ts[1], leaf(ts[0]), right));
    assert(evaluable(leaf(ts[0])));
    assert(evaluable(tree));
    if evaluates(tree, number, apply, value) {
        let (a, b) = choose|a: N, b: N|
            {
                &&& evaluates(leaf(ts[0]), number, apply, a)
                &&& evaluates(right, number, apply, b)
                &&& call_ensures(apply, (operators[0], a, b), value)
            };
        lemma_chain_folds_right(rest_operands, rest_operators, number, apply, b);
        assert(folds_right(operands, operators, number, apply, value));
    }
    if folds_right(operands, operators, number, apply, value) {
        let (a, b) = choose|a: N, b: N|
            {
                &&& reads_as(operands[0], number, a)
                &&& folds_right(rest_operands, rest_operators, number, apply, b)
                &&& call_ensures(apply, (operators[0], a, b), value)
            };
        lemma_chain_folds_right(rest_operands, rest_operators, number, apply, b);
        assert(evaluates(leaf(ts[0]), number, apply, a));
        assert(evaluates(right, number, apply, b));
        assert(evaluates(tree, number, apply, value));
    }
}

/// The value of `n0 op0 (n1 op1 (... nk))` under an arithmetic that is given
/// as two functions: what a literal reads as, and what an operator makes of
/// two values.
pub open spec fn right_fold<N>(
    operands: Seq<Seq<char>>,
    operators: Seq<Operator>,
    number_of: spec_fn(Seq<char>) -> N,
    result_of: spec_fn(Operator, N, N) -> N,
) -> N
    recommends
        is_chain(operands, operators),
    decreases operands.len(),
{
    if operands.len() <= 1 || operators.len() == 0 {
        number_of(operands[0])
    } else {
        result_of(
            operators[0],
            number_of(operands[0]),
            right_fold(operands.drop_first(), operators.drop_first(), number_of, result_of),
        )
    }
}

/// Where `number` and `apply` compute the functions `number_of` and
/// `result_of`, the right-to-left fold of a chain comes to one value only:
/// `n0 op0 (n1 op1 (... nk))` under these functions.
pub proof fn lemma_fold_value<N, C: Fn(&Literal) -> N, A: Fn(Operator, N, N) -> N>(
    operands: Seq<Seq<char>>,
    operators: Seq<Operator>,
    number: C,
    apply: A,
    number_of: spec_fn(Seq<char>) -> N,
    result_of: spec_fn(Operator, N, N) -> N,
    value: N,
)
    requires
        is_chain(operands, operators),
        forall|literal: Literal, v: N|
            call_ensures(number, (&literal,), v) ==> v == number_of(literal@),
        forall|op: Operator, a: N, b: N, v: N|
            call_ensures(apply, (op, a, b), v) ==> v == result_of(op, a, b),
        folds_right(operands, operators, number, apply, value),
    ensures
        value == right_fold(operands, operators, number_of, result_of),
    decreases operands.len(),
{
    if operands.len() > 1 {
        let rest_operands = operands.drop_first();
        let rest_operators = operators.drop_first();
        let (a, b) = choose|a: N, b: N|
            {
                &&& reads_as(operands[0], number, a)
                &&& folds_right(rest_operands, rest_operators, number, apply, b)
                &&& call_ensures(apply, (operators[0], a, b), value)
            };
        lemma_fold_value(rest_operands, rest_operators, number, apply, number_of, result_of, b);
    }
}

} // verus!
