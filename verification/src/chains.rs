//! Infix chains: operands joined by binary operators.
//!
//! For a chain the usual reading is fixed by precedence and associativity alone: the
//! operator applied last is the rightmost of those that bind most weakly, and its
//! operands are the chains to its left and to its right. This module states that
//! reading and proves that the evaluator computes it, whatever the operands are, as
//! long as the evaluator reads each of them as one operand.

use vstd::prelude::*;
use crate::error::EvalErrorView;
use crate::evaluator::{
    applied, lemma_scope_advances, parse_from, parse_scope, precedence_of, unwound, value_of,
};
use crate::expr::{Constant, EvalResultView, ExprView, Operator};
use crate::token::TokenView;

verus! {

/// The term that a token stands for as an operand: a number, or a constant of a known
/// name. Other tokens are no operands.
pub open spec fn operand(token: TokenView) -> Option<ExprView> {
    match token {
        TokenView::Number(n) => Some(ExprView::Number(n)),
        TokenView::Constant(name) => match Constant::named(name) {
            Some(c) => Some(ExprView::Constant(c)),
            None => None,
        },
        _ => None,
    }
}

/// Whether a token is one of the operators `+ - * / ^`.
pub open spec fn is_operator(token: TokenView) -> bool {
    token matches TokenView::Operator(op) && Operator::for_symbol(op) is Some
}

/// The binding strength of operator `q` of a chain with the operator symbols
/// `symbols`. Operator `q` stands between the operands `q` and `q + 1`.
pub open spec fn strength(symbols: Seq<char>, q: int) -> int {
    precedence_of(symbols[q])
}

/// The operator that is applied last among the operators `lo` up to `hi - 1`: the
/// rightmost of those that bind most weakly.
pub open spec fn split_index(symbols: Seq<char>, lo: int, hi: int) -> int
    decreases hi - lo,
{
    if hi - lo <= 1 {
        lo
    } else {
        let earlier = split_index(symbols, lo, hi - 1);
        if strength(symbols, hi - 1) <= strength(symbols, earlier) {
            hi - 1
        } else {
            earlier
        }
    }
}

/// `split_index` lies in its range; no operator of the range binds more weakly, and
/// those to its right bind more tightly.
pub proof fn lemma_split_index(symbols: Seq<char>, lo: int, hi: int)
    requires
        lo < hi,
    ensures
        lo <= split_index(symbols, lo, hi) < hi,
        forall|q: int|
            lo <= q < split_index(symbols, lo, hi) ==> #[trigger] strength(symbols, q) >= strength(
                symbols,
                split_index(symbols, lo, hi),
            ),
        forall|q: int|
            split_index(symbols, lo, hi) < q < hi ==> #[trigger] strength(symbols, q) > strength(
                symbols,
                split_index(symbols, lo, hi),
            ),
    decreases hi - lo,
{
    if hi - lo > 1 {
        lemma_split_index(symbols, lo, hi - 1);
    }
}

/// The operator described by [`lemma_split_index`] is the only one of its kind.
pub proof fn lemma_split_index_unique(symbols: Seq<char>, lo: int, hi: int, p: int)
    requires
        lo <= p < hi,
        forall|q: int| lo <= q < p ==> #[trigger] strength(symbols, q) >= strength(symbols, p),
        forall|q: int| p < q < hi ==> #[trigger] strength(symbols, q) > strength(symbols, p),
    ensures
        split_index(symbols, lo, hi) == p,
    decreases hi - lo,
{
    if hi - lo > 1 {
        if p == hi - 1 {
            lemma_split_index(symbols, lo, hi - 1);
        } else {
            lemma_split_index_unique(symbols, lo, hi - 1, p);
        }
    }
}

/// The term that the operands `lo` up to `hi` of a chain denote together with the
/// operators between them, where `leaves` are the terms of the operands: a single
/// operand is itself; otherwise the operator applied last joins the term to its left
/// and the term to its right.
pub open spec fn chain_term(leaves: Seq<ExprView>, symbols: Seq<char>, lo: int, hi: int) -> ExprView
    decreases hi - lo,
{
    if hi <= lo {
        leaves[lo]
    } else {
        let k = split_index(symbols, lo, hi);
        proof {
            lemma_split_index(symbols, lo, hi);
        }
        ExprView::Binary(
            Operator::for_symbol(symbols[k]).unwrap(),
            Box::new(chain_term(leaves, symbols, lo, k)),
            Box::new(chain_term(leaves, symbols, k + 1, hi)),
        )
    }
}

/// The term that a whole chain denotes: operands with the terms `leaves`, joined by
/// the operators `symbols`.
pub open spec fn chain_value(leaves: Seq<ExprView>, symbols: Seq<char>) -> ExprView {
    chain_term(leaves, symbols, 0, symbols.len() as int)
}

/// Whether `leaves` and `symbols` are the operands and operators of a chain: one
/// operand more than operators, and every symbol one of `+ - * / ^`.
pub open spec fn is_chain(leaves: Seq<ExprView>, symbols: Seq<char>) -> bool {
    &&& leaves.len() == symbols.len() + 1
    &&& forall|q: int|
        0 <= q < symbols.len() ==> Operator::for_symbol(#[trigger] symbols[q]) is Some
}

/// The first operand of the piece of the chain that entry `j` of the operand stack
/// stands for, where `cuts` are the pending operators: the piece starts after the
/// pending operator below it.
#[verifier::opaque]
spec fn piece_lo(cuts: Seq<int>, j: int) -> int {
    if j <= 0 {
        0
    } else {
        cuts[j - 1] + 1
    }
}

/// The last operand of the piece that entry `j` of the operand stack stands for, where
/// `t` is the last operand that was read: the piece ends before the pending operator
/// above it.
spec fn piece_hi(cuts: Seq<int>, j: int, t: int) -> int {
    if j < cuts.len() {
        cuts[j]
    } else {
        t
    }
}

/// Where piece `j` starts.
proof fn lemma_piece_lo(cuts: Seq<int>, j: int)
    ensures
        j <= 0 ==> piece_lo(cuts, j) == 0,
        j > 0 ==> piece_lo(cuts, j) == cuts[j - 1] + 1,
{
    reveal(piece_lo);
}

/// Pieces below a pending operator do not depend on the operators above it.
proof fn lemma_piece_lo_below(cuts: Seq<int>, other: Seq<int>, j: int)
    requires
        j <= cuts.len(),
        j <= other.len(),
        forall|i: int| 0 <= i < j ==> cuts[i] == other[i],
    ensures
        piece_lo(cuts, j) == piece_lo(other, j),
{
    reveal(piece_lo);
}

/// Every operator that was read to the right of a pending one binds more tightly
/// than it.
spec fn tighter_to_the_right(symbols: Seq<char>, t: int, cuts: Seq<int>) -> bool {
    forall|j: int, q: int|
        #![trigger cuts[j], strength(symbols, q)]
        0 <= j < cuts.len() && cuts[j] < q < t ==> strength(symbols, q) > strength(symbols, cuts[j])
}

/// Every operator between a pending one and the pending one before it binds at least
/// as tightly as it.
spec fn as_tight_to_the_left(symbols: Seq<char>, cuts: Seq<int>) -> bool {
    forall|j: int, q: int|
        #![trigger cuts[j], strength(symbols, q)]
        0 <= j < cuts.len() && piece_lo(cuts, j) <= q < cuts[j] ==> strength(symbols, q)
            >= strength(symbols, cuts[j])
}

/// The pending operators `cuts` lie inside the chain read so far, each after the start
/// of its piece, and `ops` holds their symbols.
spec fn cuts_fit(symbols: Seq<char>, t: int, cuts: Seq<int>, ops: Seq<char>) -> bool {
    &&& ops.len() == cuts.len()
    &&& forall|j: int|
        0 <= j < cuts.len() ==> 0 <= #[trigger] cuts[j] < t && piece_lo(cuts, j) <= cuts[j]
            && ops[j] == symbols[cuts[j]]
}

/// Each entry of the operand stack is the term of its piece.
spec fn values_fit(
    leaves: Seq<ExprView>,
    symbols: Seq<char>,
    t: int,
    cuts: Seq<int>,
    values: Seq<ExprView>,
) -> bool {
    &&& values.len() == cuts.len() + 1
    &&& forall|j: int|
        0 <= j <= cuts.len() ==> #[trigger] values[j] == chain_term(
            leaves,
            symbols,
            piece_lo(cuts, j),
            piece_hi(cuts, j, t),
        )
}

/// What holds of the two stacks while a chain is evaluated, after operand `t` has been
/// read: the pending operators `cuts` cut the chain read so far into pieces, and each
/// entry of the operand stack is the term of its piece.
spec fn stacks_hold(
    leaves: Seq<ExprView>,
    symbols: Seq<char>,
    t: int,
    cuts: Seq<int>,
    values: Seq<ExprView>,
    ops: Seq<char>,
) -> bool {
    &&& 0 <= t <= symbols.len()
    &&& cuts_fit(symbols, t, cuts, ops)
    &&& values_fit(leaves, symbols, t, cuts, values)
    &&& tighter_to_the_right(symbols, t, cuts)
    &&& as_tight_to_the_left(symbols, cuts)
}

/// Every operator from `lo` up to `t - 1` binds at least as tightly as `floor`.
spec fn at_least(symbols: Seq<char>, lo: int, t: int, floor: int) -> bool {
    forall|q: int| lo <= q < t ==> #[trigger] strength(symbols, q) >= floor
}

/// The pending operator on top is the one applied last in the two pieces around it.
proof fn lemma_top_splits(
    leaves: Seq<ExprView>,
    symbols: Seq<char>,
    t: int,
    cuts: Seq<int>,
    values: Seq<ExprView>,
    ops: Seq<char>,
)
    requires
        is_chain(leaves, symbols),
        stacks_hold(leaves, symbols, t, cuts, values, ops),
        cuts.len() > 0,
    ensures
        piece_lo(cuts, cuts.len() - 1) <= cuts.last() < t,
        split_index(symbols, piece_lo(cuts, cuts.len() - 1), t) == cuts.last(),
        Operator::for_symbol(ops.last()) is Some,
        ops.last() == symbols[cuts.last()],
        values[cuts.len() - 1] == chain_term(
            leaves,
            symbols,
            piece_lo(cuts, cuts.len() - 1),
            cuts.last(),
        ),
        values[cuts.len() as int] == chain_term(leaves, symbols, cuts.last() + 1, t),
{
    let m = cuts.len() as int;
    let p = cuts[m - 1];
    let lo = piece_lo(cuts, m - 1);
    lemma_split_index_unique(symbols, lo, t, p);
    lemma_piece_lo(cuts, m);
}

/// Taking the pending operator on top off and joining the two pieces around it
/// leaves stacks of the same kind.
proof fn lemma_stacks_hold_below(
    leaves: Seq<ExprView>,
    symbols: Seq<char>,
    t: int,
    cuts: Seq<int>,
    values: Seq<ExprView>,
    ops: Seq<char>,
)
    requires
        is_chain(leaves, symbols),
        stacks_hold(leaves, symbols, t, cuts, values, ops),
        cuts.len() > 0,
    ensures
        stacks_hold(
            leaves,
            symbols,
            t,
            cuts.drop_last(),
            values.take(cuts.len() - 1).push(
                chain_term(leaves, symbols, piece_lo(cuts, cuts.len() - 1), t),
            ),
            ops.drop_last(),
        ),
{
    let cuts1 = cuts.drop_last();
    assert forall|j: int| 0 <= j <= cuts1.len() implies piece_lo(cuts1, j) == piece_lo(
        cuts,
        j,
    ) by {
        lemma_piece_lo_below(cuts1, cuts, j);
    }
}

/// Where the pending operator on top binds at least as tightly as `floor`, and so do
/// the operators to its right, so do all operators of the piece below it.
proof fn lemma_at_least_below(
    leaves: Seq<ExprView>,
    symbols: Seq<char>,
    t: int,
    cuts: Seq<int>,
    values: Seq<ExprView>,
    ops: Seq<char>,
    floor: int,
)
    requires
        stacks_hold(leaves, symbols, t, cuts, values, ops),
        cuts.len() > 0,
        strength(symbols, cuts.last()) >= floor,
    ensures
        at_least(symbols, piece_lo(cuts, cuts.len() - 1), t, floor),
{
}

/// Unwinding the stacks of a chain down to `floor` leaves the first `k` pending
/// operators, for some `k`, and joins the pieces above them into one.
proof fn lemma_unwound_chain(
    leaves: Seq<ExprView>,
    symbols: Seq<char>,
    t: int,
    cuts: Seq<int>,
    values: Seq<ExprView>,
    ops: Seq<char>,
    floor: int,
) -> (k: int)
    requires
        is_chain(leaves, symbols),
        stacks_hold(leaves, symbols, t, cuts, values, ops),
        at_least(symbols, piece_lo(cuts, cuts.len() as int), t, floor),
    ensures
        0 <= k <= cuts.len(),
        unwound(values, ops, floor) == Ok::<(Seq<ExprView>, Seq<char>), EvalErrorView>(
            (values.take(k).push(chain_term(leaves, symbols, piece_lo(cuts, k), t)), ops.take(k)),
        ),
        stacks_hold(
            leaves,
            symbols,
            t,
            cuts.take(k),
            values.take(k).push(chain_term(leaves, symbols, piece_lo(cuts, k), t)),
            ops.take(k),
        ),
        k > 0 ==> strength(symbols, cuts[k - 1]) < floor,
        at_least(symbols, piece_lo(cuts, k), t, floor),
    decreases cuts.len(),
{
    let m = cuts.len() as int;
    if m > 0 && precedence_of(ops.last()) >= floor {
        let lo = piece_lo(cuts, m - 1);
        let values1 = values.take(m - 1).push(chain_term(leaves, symbols, lo, t));
        let ops1 = ops.drop_last();
        let cuts1 = cuts.drop_last();
        lemma_top_splits(leaves, symbols, t, cuts, values, ops);
        lemma_stacks_hold_below(leaves, symbols, t, cuts, values, ops);
        lemma_at_least_below(leaves, symbols, t, cuts, values, ops, floor);
        lemma_piece_lo_below(cuts1, cuts, m - 1);
        let k = lemma_unwound_chain(leaves, symbols, t, cuts1, values1, ops1, floor);
        lemma_piece_lo_below(cuts1, cuts, k);
        assert(values1.take(k) =~= values.take(k));
        assert(ops1.take(k) =~= ops.take(k));
        assert(cuts1.take(k) =~= cuts.take(k));
        k
    } else {
        assert(values.take(m).push(chain_term(leaves, symbols, piece_lo(cuts, m), t)) =~= values);
        assert(ops.take(m) =~= ops);
        assert(cuts.take(m) =~= cuts);
        m
    }
}

/// Putting operator `t` and operand `t + 1` on stacks that were unwound for that
/// operator leaves stacks of the same kind.
proof fn lemma_stacks_hold_above(
    leaves: Seq<ExprView>,
    symbols: Seq<char>,
    t: int,
    cuts: Seq<int>,
    values: Seq<ExprView>,
    ops: Seq<char>,
)
    requires
        is_chain(leaves, symbols),
        t < symbols.len(),
        stacks_hold(leaves, symbols, t, cuts, values, ops),
        cuts.len() > 0 ==> strength(symbols, cuts.last()) < strength(symbols, t),
        at_least(symbols, piece_lo(cuts, cuts.len() as int), t, strength(symbols, t)),
    ensures
        stacks_hold(
            leaves,
            symbols,
            t + 1,
            cuts.push(t),
            values.push(leaves[t + 1]),
            ops.push(symbols[t]),
        ),
        piece_lo(cuts.push(t), cuts.len() as int + 1) == t + 1,
{
    let m = cuts.len() as int;
    let cuts2 = cuts.push(t);
    assert forall|j: int| 0 <= j <= m implies piece_lo(cuts2, j) == piece_lo(cuts, j) by {
        lemma_piece_lo_below(cuts2, cuts, j);
    }
    lemma_piece_lo(cuts2, m + 1);
    lemma_piece_lo(cuts, m);
    assert(tighter_to_the_right(symbols, t + 1, cuts2)) by {
        assert forall|j: int, q: int|
            #![trigger cuts2[j], strength(symbols, q)]
            0 <= j < cuts2.len() && cuts2[j] < q < t + 1 implies strength(symbols, q) > strength(
            symbols,
            cuts2[j],
        ) by {
            if q == t && j < m - 1 {
                assert(cuts[j] < cuts[m - 1]) by {
                    lemma_cuts_ascend(symbols, t, cuts, ops, j, m - 1);
                }
            }
        }
    }
}

/// Pending operators stand in the chain in the order of the stack.
proof fn lemma_cuts_ascend(
    symbols: Seq<char>,
    t: int,
    cuts: Seq<int>,
    ops: Seq<char>,
    i: int,
    j: int,
)
    requires
        cuts_fit(symbols, t, cuts, ops),
        0 <= i < j < cuts.len(),
    ensures
        cuts[i] < cuts[j],
    decreases j - i,
{
    lemma_piece_lo(cuts, j);
    if i < j - 1 {
        lemma_cuts_ascend(symbols, t, cuts, ops, i, j - 1);
    }
}

/// Whether the evaluator reads the tokens from `from` up to `to` as one operand with
/// the term `term`: whatever the stacks are when it comes to `from`, it goes on at `to`
/// with `term` on top of the operand stack and everything else as it was.
pub open spec fn reads_as(tokens: Seq<TokenView>, from: int, to: int, term: ExprView) -> bool {
    &&& 0 <= from < to <= tokens.len()
    &&& forall|values: Seq<ExprView>, ops: Seq<char>| #[trigger]
        parse_scope(tokens, from, values, ops) == parse_scope(tokens, to, values.push(term), ops)
}

/// A number or a known constant is read as one operand.
pub proof fn lemma_reads_plain(tokens: Seq<TokenView>, at: int)
    requires
        0 <= at < tokens.len(),
        operand(tokens[at]) is Some,
    ensures
        reads_as(tokens, at, at + 1, operand(tokens[at]).unwrap()),
{
}

/// An opening parenthesis together with the scope that starts after it is read as one
/// operand, whose term is the value of that scope.
pub proof fn lemma_reads_group(tokens: Seq<TokenView>, at: int)
    requires
        0 <= at < tokens.len(),
        tokens[at] == TokenView::LeftParen,
        parse_from(tokens, at + 1) is Ok,
    ensures
        reads_as(
            tokens,
            at,
            parse_from(tokens, at + 1)->Ok_0.1,
            parse_from(tokens, at + 1)->Ok_0.0,
        ),
{
    lemma_scope_advances(tokens, at + 1, Seq::empty(), Seq::empty());
}

/// Operand `j` of a chain stands in `tokens` from `starts[j]` up to `ends[j]` and is
/// read as one operand with the term `leaves[j]`.
pub open spec fn operand_in_place(
    tokens: Seq<TokenView>,
    starts: Seq<int>,
    ends: Seq<int>,
    leaves: Seq<ExprView>,
    j: int,
) -> bool {
    reads_as(tokens, starts[j], ends[j], leaves[j])
}

/// Operator `q` of a chain stands in `tokens` right after operand `q` and right before
/// operand `q + 1`.
pub open spec fn operator_in_place(
    tokens: Seq<TokenView>,
    starts: Seq<int>,
    ends: Seq<int>,
    symbols: Seq<char>,
    q: int,
) -> bool {
    &&& 0 <= ends[q] < tokens.len()
    &&& tokens[ends[q]] == TokenView::Operator(symbols[q])
    &&& starts[q + 1] == ends[q] + 1
}

/// Whether a chain stands in `tokens`: its operands from `starts` up to `ends`, each
/// read as one operand, its operators between them, and after the last operand a
/// closing parenthesis or nothing.
pub open spec fn chain_in_place(
    tokens: Seq<TokenView>,
    starts: Seq<int>,
    ends: Seq<int>,
    leaves: Seq<ExprView>,
    symbols: Seq<char>,
) -> bool {
    &&& is_chain(leaves, symbols)
    &&& starts.len() == leaves.len()
    &&& ends.len() == leaves.len()
    &&& forall|j: int|
        0 <= j < leaves.len() ==> #[trigger] operand_in_place(tokens, starts, ends, leaves, j)
    &&& forall|q: int|
        0 <= q < symbols.len() ==> #[trigger] operator_in_place(tokens, starts, ends, symbols, q)
    &&& ends.last() == tokens.len() || tokens[ends.last()] == TokenView::RightParen
}

/// Where the scope of a chain in place ends: after the closing parenthesis that
/// follows the last operand, or at the end of the tokens.
pub open spec fn chain_end(tokens: Seq<TokenView>, ends: Seq<int>) -> int {
    if ends.last() == tokens.len() {
        ends.last()
    } else {
        ends.last() + 1
    }
}

/// From any point of a chain that the evaluator reaches after an operand, it goes on
/// to the term of the whole chain and the end of its scope.
proof fn lemma_chain_from(
    tokens: Seq<TokenView>,
    starts: Seq<int>,
    ends: Seq<int>,
    leaves: Seq<ExprView>,
    symbols: Seq<char>,
    t: int,
    cuts: Seq<int>,
    values: Seq<ExprView>,
    ops: Seq<char>,
)
    requires
        chain_in_place(tokens, starts, ends, leaves, symbols),
        stacks_hold(leaves, symbols, t, cuts, values, ops),
        piece_lo(cuts, cuts.len() as int) == t,
    ensures
        parse_scope(tokens, ends[t], values, ops) == Ok::<(ExprView, int), EvalErrorView>(
            (chain_value(leaves, symbols), chain_end(tokens, ends)),
        ),
    decreases symbols.len() - t,
{
    let n = symbols.len() as int;
    assert(operand_in_place(tokens, starts, ends, leaves, t));
    if t == n {
        let k = lemma_unwound_chain(leaves, symbols, t, cuts, values, ops, 0);
        lemma_piece_lo(cuts, 0);
    } else {
        let i = ends[t];
        let op = symbols[t];
        assert(operator_in_place(tokens, starts, ends, symbols, t));
        assert(operand_in_place(tokens, starts, ends, leaves, t + 1));
        let k = lemma_unwound_chain(leaves, symbols, t, cuts, values, ops, precedence_of(op));
        let values1 = values.take(k).push(chain_term(leaves, symbols, piece_lo(cuts, k), t));
        let ops1 = ops.take(k);
        let cuts1 = cuts.take(k);
        let values2 = values1.push(leaves[t + 1]);
        let ops2 = ops1.push(op);
        let cuts2 = cuts1.push(t);
        assert(parse_scope(tokens, i, values, ops) == parse_scope(tokens, i + 1, values1, ops2));
        lemma_piece_lo_below(cuts1, cuts, k);
        lemma_stacks_hold_above(leaves, symbols, t, cuts1, values1, ops1);
        lemma_chain_from(tokens, starts, ends, leaves, symbols, t + 1, cuts2, values2, ops2);
    }
}

/// A chain in place evaluates to its term by precedence, operators of one strength
/// taken from left to right, and its scope ends where the chain ends.
///
/// This holds for all five operators; for `^` it means that `a ^ b ^ c` is read as
/// `(a ^ b) ^ c`.
pub proof fn lemma_chain_follows_precedence(
    tokens: Seq<TokenView>,
    starts: Seq<int>,
    ends: Seq<int>,
    leaves: Seq<ExprView>,
    symbols: Seq<char>,
)
    requires
        chain_in_place(tokens, starts, ends, leaves, symbols),
    ensures
        parse_from(tokens, starts[0]) == Ok::<(ExprView, int), EvalErrorView>(
            (chain_value(leaves, symbols), chain_end(tokens, ends)),
        ),
{
    let values = Seq::<ExprView>::empty().push(leaves[0]);
    let ops = Seq::<char>::empty();
    let cuts = Seq::<int>::empty();
    assert(operand_in_place(tokens, starts, ends, leaves, 0));
    lemma_piece_lo(cuts, 0);
    lemma_chain_from(tokens, starts, ends, leaves, symbols, 0, cuts, values, ops);
}

/// Whether `tokens` are a chain of plain operands: numbers and known constants at the
/// even positions, operators at the odd ones, an operand first and last.
pub open spec fn is_plain_chain(tokens: Seq<TokenView>) -> bool {
    &&& tokens.len() % 2 == 1
    &&& forall|i: int|
        0 <= i < tokens.len() && i % 2 == 0 ==> operand(#[trigger] tokens[i]) is Some
    &&& forall|i: int| 0 <= i < tokens.len() && i % 2 == 1 ==> is_operator(#[trigger] tokens[i])
}

/// The terms of the operands of a chain of plain operands.
pub open spec fn plain_leaves(tokens: Seq<TokenView>) -> Seq<ExprView> {
    Seq::new(((tokens.len() + 1) / 2) as nat, |j: int| operand(tokens[2 * j]).unwrap())
}

/// The operator symbols of a chain of plain operands.
pub open spec fn plain_symbols(tokens: Seq<TokenView>) -> Seq<char> {
    Seq::new(((tokens.len() - 1) / 2) as nat, |q: int| tokens[2 * q + 1]->Operator_0)
}

/// A chain of plain operands evaluates to its term by precedence, operators of one
/// strength taken from left to right, and the evaluation reads all of its tokens.
///
/// With the tokens of `2+3*4` the term is the sum of `2` and the product of `3` and
/// `4`; with those of `10-2-3` it is the difference of `10 - 2` and `3`; with those
/// of `2^3^2` it is the power of `2 ^ 3` to `2`.
pub proof fn lemma_plain_chain_follows_precedence(tokens: Seq<TokenView>)
    requires
        is_plain_chain(tokens),
    ensures
        parse_from(tokens, 0) == Ok::<(ExprView, int), EvalErrorView>(
            (chain_value(plain_leaves(tokens), plain_symbols(tokens)), tokens.len() as int),
        ),
        value_of(tokens) == Ok::<EvalResultView, EvalErrorView>(
            EvalResultView::Num(chain_value(plain_leaves(tokens), plain_symbols(tokens))),
        ),
{
    let leaves = plain_leaves(tokens);
    let symbols = plain_symbols(tokens);
    let starts = Seq::new(leaves.len(), |j: int| 2 * j);
    let ends = Seq::new(leaves.len(), |j: int| 2 * j + 1);
    assert forall|j: int| 0 <= j < leaves.len() implies #[trigger] operand_in_place(
        tokens,
        starts,
        ends,
        leaves,
        j,
    ) by {
        lemma_reads_plain(tokens, 2 * j);
    }
    lemma_chain_follows_precedence(tokens, starts, ends, leaves, symbols);
}

} // verus!
