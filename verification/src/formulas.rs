//! Formulas: arithmetic expressions with parentheses.
//!
//! A formula is a chain whose operands are single tokens or formulas in parentheses.
//! This module gives a formula its tokens and its term, and proves that evaluating the
//! tokens yields the term: parentheses group, and inside and outside of them operators
//! are applied by precedence, those of one strength from left to right. It also shows
//! that a function name before a formula in parentheses applies to that formula.

use vstd::prelude::*;
use crate::chains::{
    chain_value, lemma_chain_follows_precedence, lemma_reads_group, lemma_reads_plain, operand,
    operand_in_place, operator_in_place, reads_as,
};
use crate::error::EvalErrorView;
use crate::evaluator::{parse_from, parse_scope, value_of};
use crate::expr::{EvalResultView, ExprView, Function, Operator};
use crate::token::TokenView;

verus! {

/// An operand as it is written: a single token, or operands joined by operator
/// symbols and put in parentheses.
pub enum Operand {
    Plain(TokenView),
    Group(Seq<Operand>, Seq<char>),
}

/// Whether `o` is well formed: a token that is an operand, or a formula in
/// parentheses.
pub open spec fn is_operand(o: Operand) -> bool
    decreases o,
{
    match o {
        Operand::Plain(token) => operand(token) is Some,
        Operand::Group(items, symbols) => is_formula(items, symbols),
    }
}

/// Whether the operands `items` joined by the operators `symbols` are a formula: there
/// is one operand more than operators, every symbol is one of `+ - * / ^`, and every
/// operand is well formed.
pub open spec fn is_formula(items: Seq<Operand>, symbols: Seq<char>) -> bool
    decreases items,
{
    &&& items.len() == symbols.len() + 1
    &&& forall|q: int|
        0 <= q < symbols.len() ==> Operator::for_symbol(#[trigger] symbols[q]) is Some
    &&& forall|j: int| 0 <= j < items.len() ==> is_operand(#[trigger] items[j])
}

/// The tokens of an operand: the token itself, or the tokens of the formula between
/// an opening and a closing parenthesis.
pub open spec fn operand_tokens(o: Operand) -> Seq<TokenView>
    decreases o, 0int,
{
    match o {
        Operand::Plain(token) => seq![token],
        Operand::Group(items, symbols) => seq![TokenView::LeftParen] + tokens_upto(
            items,
            symbols,
            items.len() as int,
        ) + seq![TokenView::RightParen],
    }
}

/// The token of operator `q` of a formula. Beyond the operators that there are it is
/// a token that is no operator.
pub open spec fn operator_token(symbols: Seq<char>, q: int) -> TokenView {
    if 0 <= q < symbols.len() {
        TokenView::Operator(symbols[q])
    } else {
        TokenView::RightParen
    }
}

/// The tokens of the first `k` operands of a formula and of the operators between
/// them.
pub open spec fn tokens_upto(items: Seq<Operand>, symbols: Seq<char>, k: int) -> Seq<TokenView>
    decreases items, k,
{
    if k <= 0 || k > items.len() {
        Seq::empty()
    } else if k == 1 {
        operand_tokens(items[0])
    } else {
        tokens_upto(items, symbols, k - 1) + seq![operator_token(symbols, k - 2)] + operand_tokens(
            items[k - 1],
        )
    }
}

/// The tokens of a formula: those of its operands, in order, with the operators
/// between them.
pub open spec fn formula_tokens(items: Seq<Operand>, symbols: Seq<char>) -> Seq<TokenView> {
    tokens_upto(items, symbols, items.len() as int)
}

/// The term of an operand: what the token stands for, or the term of the formula in
/// the parentheses.
pub open spec fn operand_term(o: Operand) -> ExprView
    decreases o, 0int,
{
    match o {
        Operand::Plain(token) => operand(token).unwrap(),
        Operand::Group(items, symbols) => chain_value(formula_terms(items), symbols),
    }
}

/// The terms of the operands of a formula.
pub open spec fn formula_terms(items: Seq<Operand>) -> Seq<ExprView>
    decreases items, 1int,
{
    Seq::new(
        items.len(),
        |j: int|
            if 0 <= j < items.len() {
                operand_term(items[j])
            } else {
                arbitrary()
            },
    )
}

/// The term of a formula: the terms of its operands joined by precedence, operators
/// of one strength from left to right.
pub open spec fn formula_term(items: Seq<Operand>, symbols: Seq<char>) -> ExprView {
    chain_value(formula_terms(items), symbols)
}

/// Where operand `j` starts among the tokens of a formula.
pub open spec fn start_of(items: Seq<Operand>, symbols: Seq<char>, j: int) -> int {
    if j <= 0 {
        0
    } else {
        tokens_upto(items, symbols, j).len() as int + 1
    }
}

/// Where operand `j` ends among the tokens of a formula: the position after its last
/// token.
pub open spec fn end_of(items: Seq<Operand>, symbols: Seq<char>, j: int) -> int {
    tokens_upto(items, symbols, j + 1).len() as int
}

/// An operand has at least one token.
proof fn lemma_operand_has_tokens(o: Operand)
    ensures
        operand_tokens(o).len() >= 1,
{
}

/// The tokens of the first `k` operands are the start of the tokens of the formula.
proof fn lemma_tokens_prefix(items: Seq<Operand>, symbols: Seq<char>, k: int)
    requires
        1 <= k <= items.len(),
    ensures
        tokens_upto(items, symbols, k).len() <= formula_tokens(items, symbols).len(),
        formula_tokens(items, symbols).subrange(0, tokens_upto(items, symbols, k).len() as int)
            == tokens_upto(items, symbols, k),
    decreases items.len() - k,
{
    if k < items.len() {
        lemma_tokens_prefix(items, symbols, k + 1);
    }
}

/// Among the tokens of a formula, operand `j` stands from its start up to its end,
/// the operator after it stands at its end, and the next operand starts right after
/// that operator; the last operand ends where the tokens end.
proof fn lemma_layout(items: Seq<Operand>, symbols: Seq<char>, j: int)
    requires
        items.len() == symbols.len() + 1,
        0 <= j < items.len(),
    ensures
        0 <= start_of(items, symbols, j) < end_of(items, symbols, j) <= formula_tokens(
            items,
            symbols,
        ).len(),
        formula_tokens(items, symbols).subrange(
            start_of(items, symbols, j),
            end_of(items, symbols, j),
        ) == operand_tokens(items[j]),
        j + 1 == items.len() ==> end_of(items, symbols, j) == formula_tokens(items, symbols).len(),
        j + 1 < items.len() ==> {
            &&& end_of(items, symbols, j) < formula_tokens(items, symbols).len()
            &&& formula_tokens(items, symbols)[end_of(items, symbols, j)] == TokenView::Operator(
                symbols[j],
            )
            &&& start_of(items, symbols, j + 1) == end_of(items, symbols, j) + 1
        },
{
    let all = formula_tokens(items, symbols);
    let upto = tokens_upto(items, symbols, j + 1);
    lemma_tokens_prefix(items, symbols, j + 1);
    lemma_operand_has_tokens(items[j]);
    let own = operand_tokens(items[j]);
    if j > 0 {
        let before = tokens_upto(items, symbols, j);
        assert(upto.subrange(before.len() as int + 1, upto.len() as int) =~= own);
    }
    if j + 1 < items.len() {
        lemma_tokens_prefix(items, symbols, j + 2);
        lemma_operand_has_tokens(items[j + 1]);
        let further = tokens_upto(items, symbols, j + 2);
        assert(further[upto.len() as int] == TokenView::Operator(symbols[j]));
    }
}

/// The tokens of an operand, wherever they stand, are read as one operand with the
/// term of the operand.
proof fn lemma_operand_reads(tokens: Seq<TokenView>, at: int, o: Operand)
    requires
        is_operand(o),
        0 <= at,
        at + operand_tokens(o).len() <= tokens.len(),
        tokens.subrange(at, at + operand_tokens(o).len()) == operand_tokens(o),
    ensures
        reads_as(tokens, at, at + operand_tokens(o).len(), operand_term(o)),
    decreases o,
{
    let own = operand_tokens(o);
    match o {
        Operand::Plain(token) => {
            assert(own[0] == token);
            lemma_reads_plain(tokens, at);
        },
        Operand::Group(items, symbols) => {
            let inner = formula_tokens(items, symbols);
            assert(own[inner.len() as int + 1] == TokenView::RightParen);
            let inside = tokens.subrange(at + 1, at + 1 + inner.len());
            assert(inside =~= inner) by {
                assert forall|x: int| 0 <= x < inner.len() implies #[trigger] inside[x]
                    == inner[x] by {
                    assert(own[x + 1] == inner[x]);
                }
            }
            lemma_formula_in_place(tokens, at + 1, items, symbols);
            lemma_reads_group(tokens, at);
        },
    }
}

/// The tokens of a formula, wherever they stand, evaluate to the term of the formula
/// if a closing parenthesis or nothing follows them, and the scope ends after that
/// parenthesis or at the end.
proof fn lemma_formula_in_place(
    tokens: Seq<TokenView>,
    base: int,
    items: Seq<Operand>,
    symbols: Seq<char>,
)
    requires
        is_formula(items, symbols),
        0 <= base,
        base + formula_tokens(items, symbols).len() <= tokens.len(),
        tokens.subrange(base, base + formula_tokens(items, symbols).len()) == formula_tokens(
            items,
            symbols,
        ),
        base + formula_tokens(items, symbols).len() == tokens.len() || tokens[base
            + formula_tokens(items, symbols).len()] == TokenView::RightParen,
    ensures
        parse_from(tokens, base) == Ok::<(ExprView, int), EvalErrorView>(
            (
                formula_term(items, symbols),
                if base + formula_tokens(items, symbols).len() == tokens.len() {
                    tokens.len() as int
                } else {
                    base + formula_tokens(items, symbols).len() + 1
                },
            ),
        ),
    decreases items,
{
    let all = formula_tokens(items, symbols);
    let starts = Seq::new(items.len(), |j: int| base + start_of(items, symbols, j));
    let ends = Seq::new(items.len(), |j: int| base + end_of(items, symbols, j));
    let leaves = formula_terms(items);
    assert forall|j: int| 0 <= j < leaves.len() implies #[trigger] operand_in_place(
        tokens,
        starts,
        ends,
        leaves,
        j,
    ) by {
        lemma_layout(items, symbols, j);
        let from = start_of(items, symbols, j);
        let to = end_of(items, symbols, j);
        let here = tokens.subrange(base + from, base + to);
        assert(here =~= all.subrange(from, to));
        lemma_operand_reads(tokens, base + from, items[j]);
    }
    assert forall|q: int| 0 <= q < symbols.len() implies #[trigger] operator_in_place(
        tokens,
        starts,
        ends,
        symbols,
        q,
    ) by {
        lemma_layout(items, symbols, q);
    }
    lemma_layout(items, symbols, items.len() - 1);
    lemma_chain_follows_precedence(tokens, starts, ends, leaves, symbols);
    lemma_layout(items, symbols, 0);
}

/// The tokens of a formula evaluate to the term of the formula, and the evaluation
/// reads them to their end.
///
/// So parentheses group, to any depth, and inside and outside of them operators are
/// applied by precedence, those of one strength from left to right. For the formula
/// with the tokens of `(2+3)*4` the term is the product of the sum of `2` and `3`
/// with `4`.
pub proof fn lemma_formula_follows_precedence(items: Seq<Operand>, symbols: Seq<char>)
    requires
        is_formula(items, symbols),
    ensures
        parse_from(formula_tokens(items, symbols), 0) == Ok::<(ExprView, int), EvalErrorView>(
            (formula_term(items, symbols), formula_tokens(items, symbols).len() as int),
        ),
        value_of(formula_tokens(items, symbols)) == Ok::<EvalResultView, EvalErrorView>(
            EvalResultView::Num(formula_term(items, symbols)),
        ),
{
    let all = formula_tokens(items, symbols);
    assert(all.subrange(0, all.len() as int) =~= all);
    lemma_formula_in_place(all, 0, items, symbols);
}

/// The tokens of a function applied to a formula in parentheses: the name, then the
/// formula between an opening and a closing parenthesis.
pub open spec fn call_tokens(name: Seq<char>, items: Seq<Operand>, symbols: Seq<char>) -> Seq<
    TokenView,
> {
    seq![TokenView::Function(name)] + operand_tokens(Operand::Group(items, symbols))
}

/// A known function applied to a formula in parentheses evaluates to the function of
/// the term of the formula, where nothing follows the closing parenthesis.
///
/// For the tokens of `sqrt(16)` the term is the square root of `16`, for those of
/// `sin(2*pi)` the sine of the product of `2` and `pi`.
pub proof fn lemma_call_applies_to_formula(
    name: Seq<char>,
    items: Seq<Operand>,
    symbols: Seq<char>,
)
    requires
        Function::named(name) is Some,
        is_formula(items, symbols),
    ensures
        parse_from(call_tokens(name, items, symbols), 0) == Ok::<(ExprView, int), EvalErrorView>(
            (
                ExprView::Apply(
                    Function::named(name).unwrap(),
                    Box::new(formula_term(items, symbols)),
                ),
                call_tokens(name, items, symbols).len() as int,
            ),
        ),
{
    let group = Operand::Group(items, symbols);
    let tokens = call_tokens(name, items, symbols);
    let end = tokens.len() as int;
    let term = formula_term(items, symbols);
    assert(tokens.subrange(1, end) =~= operand_tokens(group));
    lemma_operand_reads(tokens, 1, group);
    let argument = Seq::<ExprView>::empty().push(term);
    assert(parse_from(tokens, 1) == parse_scope(tokens, end, argument, Seq::empty()));
    let applied = Seq::<ExprView>::empty().push(
        ExprView::Apply(Function::named(name).unwrap(), Box::new(term)),
    );
    assert(parse_from(tokens, 0) == parse_scope(tokens, end, applied, Seq::empty()));
}

} // verus!
