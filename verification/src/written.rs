//! Expressions as text.
//!
//! Tokens can be written down one after the other. This module shows that the scanner
//! reads the text of well-placed tokens back as those tokens, and draws the
//! conclusion for formulas: the text of a formula made of literals, the word `ans`,
//! the named constants, operators and parentheses evaluates to the term of the
//! formula.

use vstd::prelude::*;
use crate::dispatch::{evaluation, FRESH_ANSWER};
use crate::error::EvalErrorView;
use crate::expr::{Constant, EvalResultView, Operator, Relation};
use crate::formulas::{
    formula_term, formula_tokens, is_formula, is_operand, lemma_formula_follows_precedence,
    operand_tokens, operator_token, tokens_upto, Operand,
};
use crate::text::{
    has_prefix_at, is_comparator, is_numeric, leading_comparator, lemma_run_end_unique, segments,
    segments_from, CharClass,
};
use crate::token::{NumberView, TokenView};
use crate::tokenizer::{is_literal, literal_digits, sign_expected, token_at, tokens_from, tokens_of};

verus! {

/// Whether a token is an operand that can be written down and read back when `ans` is
/// the last answer: a literal, the last answer itself, or a known constant.
pub open spec fn is_written_operand(token: TokenView, ans: u64) -> bool {
    match token {
        TokenView::Number(NumberView::Literal(text)) => is_literal(text),
        TokenView::Number(NumberView::Bits(bits)) => bits == ans,
        TokenView::Constant(name) => Constant::named(name) is Some,
        _ => false,
    }
}

/// Whether an operand is due after `token`: it is after an operator and after an
/// opening parenthesis.
pub open spec fn opens(token: TokenView) -> bool {
    token is Operator || token is LeftParen
}

/// Whether `token` can stand where an operand is due, or where none is: an operand
/// and an opening parenthesis stand where an operand is due, an operator and a
/// closing parenthesis where none is.
pub open spec fn fits(token: TokenView, ans: u64, due: bool) -> bool {
    match token {
        TokenView::Number(_) => is_written_operand(token, ans) && due,
        TokenView::Constant(_) => is_written_operand(token, ans) && due,
        TokenView::LeftParen => due,
        TokenView::Operator(op) => Operator::for_symbol(op) is Some && !due,
        TokenView::RightParen => !due,
        TokenView::Function(_) => false,
    }
}

/// Whether token `i` of `tokens` stands well, where `first` says whether an operand
/// is due at the start of the tokens.
pub open spec fn fits_at(tokens: Seq<TokenView>, ans: u64, first: bool, i: int) -> bool {
    fits(
        tokens[i],
        ans,
        if i == 0 {
            first
        } else {
            opens(tokens[i - 1])
        },
    )
}

/// Whether all of `tokens` stand well, where `first` says whether an operand is due
/// at their start.
pub open spec fn well_placed(tokens: Seq<TokenView>, ans: u64, first: bool) -> bool {
    forall|i: int| 0 <= i < tokens.len() ==> #[trigger] fits_at(tokens, ans, first, i)
}

/// Whether `tokens` can be written down and read back when `ans` is the last answer:
/// they are written operands, operators and parentheses, and operands and operators
/// take turns as in an expression.
pub open spec fn is_written(tokens: Seq<TokenView>, ans: u64) -> bool {
    well_placed(tokens, ans, true)
}

/// The characters with which a token is written: a literal by its text, a stored
/// number as the word `ans`, an operator by its symbol, a constant or a function by
/// its name.
pub open spec fn written(token: TokenView) -> Seq<char> {
    match token {
        TokenView::Number(NumberView::Literal(text)) => text,
        TokenView::Number(NumberView::Bits(_)) => "ans"@,
        TokenView::Operator(op) => seq![op],
        TokenView::LeftParen => seq!['('],
        TokenView::RightParen => seq![')'],
        TokenView::Constant(name) => name,
        TokenView::Function(name) => name,
    }
}

/// The text of a sequence of tokens: what they are written with, one after the other.
pub open spec fn text_of(tokens: Seq<TokenView>) -> Seq<char>
    decreases tokens.len(),
{
    if tokens.len() == 0 {
        Seq::empty()
    } else {
        text_of(tokens.drop_last()) + written(tokens.last())
    }
}

/// Where token `i` starts in the text of `tokens`.
pub open spec fn offset(tokens: Seq<TokenView>, i: int) -> int {
    text_of(tokens.take(i)).len() as int
}

/// A character with which written tokens are written: a digit, the point, a letter
/// of `ans`, `pi` and `e`, an operator symbol or a parenthesis.
spec fn is_written_char(c: char) -> bool {
    is_numeric(c) || c == '+' || c == '-' || c == '*' || c == '/' || c == '^' || c == '(' || c
        == ')' || c == 'a' || c == 'n' || c == 's' || c == 'p' || c == 'i' || c == 'e'
}

/// Whether a token is an operand token: a number or a constant.
spec fn is_operand_token(token: TokenView) -> bool {
    token is Number || token is Constant
}

/// Whether an operand is due at token `i` of written tokens.
proof fn lemma_sign_expected(tokens: Seq<TokenView>, ans: u64, i: int)
    requires
        is_written(tokens, ans),
        0 <= i < tokens.len(),
    ensures
        fits(tokens[i], ans, sign_expected(tokens.take(i))),
        sign_expected(tokens.take(i)) == (is_operand_token(tokens[i]) || tokens[i] is LeftParen),
{
    assert(fits_at(tokens, ans, true, i));
}

/// A written token is written with at least one character, all of them characters
/// of written tokens; an operator and a parenthesis with one character, which is no
/// digit, no point and no letter.
proof fn lemma_written(tokens: Seq<TokenView>, ans: u64, i: int)
    requires
        is_written(tokens, ans),
        0 <= i < tokens.len(),
    ensures
        written(tokens[i]).len() >= 1,
        forall|j: int|
            0 <= j < written(tokens[i]).len() ==> is_written_char(#[trigger] written(tokens[i])[j]),
        !is_operand_token(tokens[i]) ==> {
            &&& written(tokens[i]).len() == 1
            &&& !is_numeric(written(tokens[i])[0])
            &&& written(tokens[i])[0] != 'x'
            &&& written(tokens[i])[0] != 'a'
            &&& written(tokens[i])[0] != 'p'
            &&& written(tokens[i])[0] != 'e'
        },
{
    reveal_strlit("ans");
    reveal_strlit("pi");
    reveal_strlit("e");
    assert(fits_at(tokens, ans, true, i));
    match tokens[i] {
        TokenView::Number(NumberView::Literal(text)) => {
            let digits = literal_digits(text);
            assert forall|j: int| 0 <= j < text.len() implies is_written_char(
                #[trigger] text[j],
            ) by {
                if text[0] == '-' && j > 0 {
                    assert(digits[j - 1] == text[j]);
                }
            }
        },
        _ => {},
    }
}

/// The text of the first `i + 1` tokens is that of the first `i` followed by what
/// token `i` is written with.
proof fn lemma_offset_step(tokens: Seq<TokenView>, i: int)
    requires
        0 <= i < tokens.len(),
    ensures
        text_of(tokens.take(i + 1)) == text_of(tokens.take(i)) + written(tokens[i]),
        offset(tokens, i + 1) == offset(tokens, i) + written(tokens[i]).len(),
{
    let longer = tokens.take(i + 1);
    assert(longer.drop_last() =~= tokens.take(i));
}

/// The text of the first `i` tokens is the start of the text of all of them.
proof fn lemma_text_prefix(tokens: Seq<TokenView>, i: int)
    requires
        0 <= i <= tokens.len(),
    ensures
        0 <= offset(tokens, i) <= text_of(tokens).len(),
        text_of(tokens).subrange(0, offset(tokens, i)) == text_of(tokens.take(i)),
    decreases tokens.len() - i,
{
    if i == tokens.len() {
        assert(tokens.take(i) =~= tokens);
    } else {
        lemma_text_prefix(tokens, i + 1);
        lemma_offset_step(tokens, i);
    }
}

/// Token `i` stands in the text of `tokens` from its offset on, character by
/// character.
proof fn lemma_written_at(tokens: Seq<TokenView>, i: int)
    requires
        0 <= i < tokens.len(),
    ensures
        0 <= offset(tokens, i),
        offset(tokens, i + 1) == offset(tokens, i) + written(tokens[i]).len(),
        offset(tokens, i + 1) <= text_of(tokens).len(),
        forall|j: int|
            0 <= j < written(tokens[i]).len() ==> #[trigger] text_of(tokens)[offset(tokens, i) + j]
                == written(tokens[i])[j],
        i + 1 == tokens.len() ==> offset(tokens, i + 1) == text_of(tokens).len(),
{
    lemma_text_prefix(tokens, i + 1);
    lemma_text_prefix(tokens, i);
    lemma_offset_step(tokens, i);
    let text = text_of(tokens);
    let upto = text.subrange(0, offset(tokens, i + 1));
    assert forall|j: int| 0 <= j < written(tokens[i]).len() implies #[trigger] text[offset(
        tokens,
        i,
    ) + j] == written(tokens[i])[j] by {
        assert(upto[offset(tokens, i) + j] == text[offset(tokens, i) + j]);
    }
}

/// What follows an operand token in the text of written tokens: nothing, or an
/// operator symbol or a closing parenthesis, and so no digit, no point and no `x`.
proof fn lemma_follower(tokens: Seq<TokenView>, ans: u64, i: int)
    requires
        is_written(tokens, ans),
        0 <= i < tokens.len(),
        is_operand_token(tokens[i]),
    ensures
        offset(tokens, i + 1) <= text_of(tokens).len(),
        offset(tokens, i + 1) < text_of(tokens).len() ==> {
            &&& !is_numeric(text_of(tokens)[offset(tokens, i + 1)])
            &&& text_of(tokens)[offset(tokens, i + 1)] != 'x'
        },
{
    lemma_written_at(tokens, i);
    if i + 1 < tokens.len() {
        lemma_written_at(tokens, i + 1);
        lemma_written(tokens, ans, i + 1);
        assert(fits_at(tokens, ans, true, i + 1));
        assert(text_of(tokens)[offset(tokens, i + 1) + 0] == written(tokens[i + 1])[0]);
    }
}

/// The scanner reads a literal among written tokens back.
proof fn lemma_reads_literal(tokens: Seq<TokenView>, ans: u64, i: int)
    requires
        is_written(tokens, ans),
        0 <= i < tokens.len(),
        tokens[i] matches TokenView::Number(NumberView::Literal(_)),
    ensures
        token_at(text_of(tokens), ans, offset(tokens, i), true) == Ok::<
            (TokenView, int),
            EvalErrorView,
        >((tokens[i], offset(tokens, i + 1))),
{
    let text = text_of(tokens);
    let at = offset(tokens, i);
    let lit = tokens[i]->Number_0->Literal_0;
    let digits = literal_digits(lit);
    let end = offset(tokens, i + 1);
    assert(fits_at(tokens, ans, true, i));
    lemma_written_at(tokens, i);
    lemma_written(tokens, ans, i);
    lemma_follower(tokens, ans, i);
    let from = if lit[0] == '-' {
        at + 1
    } else {
        at
    };
    assert forall|x: int| from <= x < end implies CharClass::Numeric.holds(#[trigger] text[x]) by {
        assert(text[at + (x - at)] == lit[x - at]);
        assert(digits[x - from] == lit[x - at]);
    }
    lemma_run_end_unique(text, from, end, CharClass::Numeric);
    assert(text.subrange(from, end) =~= digits) by {
        assert forall|x: int| 0 <= x < digits.len() implies text.subrange(from, end)[x]
            == digits[x] by {
            assert(text[at + (x + from - at)] == lit[x + from - at]);
        }
    }
    assert(text.subrange(at, end) =~= lit) by {
        assert forall|x: int| 0 <= x < lit.len() implies text.subrange(at, end)[x] == lit[x] by {
            assert(text[at + x] == lit[x]);
        }
    }
}

/// The scanner reads a word among written tokens back: `ans`, `pi` or `e`.
proof fn lemma_reads_word(tokens: Seq<TokenView>, ans: u64, i: int, sign: bool)
    requires
        is_written(tokens, ans),
        0 <= i < tokens.len(),
        is_operand_token(tokens[i]),
        !(tokens[i] matches TokenView::Number(NumberView::Literal(_))),
    ensures
        token_at(text_of(tokens), ans, offset(tokens, i), sign) == Ok::<
            (TokenView, int),
            EvalErrorView,
        >((tokens[i], offset(tokens, i + 1))),
{
    reveal_strlit("ans");
    reveal_strlit("pi");
    reveal_strlit("e");
    reveal_strlit("exp");
    let text = text_of(tokens);
    let at = offset(tokens, i);
    let w = written(tokens[i]);
    assert(fits_at(tokens, ans, true, i));
    lemma_written_at(tokens, i);
    lemma_follower(tokens, ans, i);
    assert(text[at + 0] == w[0]);
    assert(text.subrange(at, at + w.len()) =~= w) by {
        assert forall|x: int| 0 <= x < w.len() implies text.subrange(at, at + w.len())[x]
            == w[x] by {
            assert(text[at + x] == w[x]);
        }
    }
    if has_prefix_at(text, at, "exp"@) {
        assert(text.subrange(at, at + 3)[1] == 'x');
    }
}

/// The scanner reads an operator or a parenthesis among written tokens back.
proof fn lemma_reads_symbol(tokens: Seq<TokenView>, ans: u64, i: int)
    requires
        is_written(tokens, ans),
        0 <= i < tokens.len(),
        !is_operand_token(tokens[i]),
    ensures
        token_at(text_of(tokens), ans, offset(tokens, i), tokens[i] is LeftParen) == Ok::<
            (TokenView, int),
            EvalErrorView,
        >((tokens[i], offset(tokens, i + 1))),
{
    let text = text_of(tokens);
    let at = offset(tokens, i);
    assert(fits_at(tokens, ans, true, i));
    lemma_written_at(tokens, i);
    lemma_written(tokens, ans, i);
    assert(text[at + 0] == written(tokens[i])[0]);
}

/// The scanner reads every one of the written tokens back where it was written, and
/// ends where the next one starts.
pub proof fn lemma_reads_token(tokens: Seq<TokenView>, ans: u64, i: int)
    requires
        is_written(tokens, ans),
        0 <= i < tokens.len(),
    ensures
        0 <= offset(tokens, i) < text_of(tokens).len(),
        token_at(text_of(tokens), ans, offset(tokens, i), sign_expected(tokens.take(i))) == Ok::<
            (TokenView, int),
            EvalErrorView,
        >((tokens[i], offset(tokens, i + 1))),
{
    lemma_sign_expected(tokens, ans, i);
    lemma_written_at(tokens, i);
    lemma_written(tokens, ans, i);
    if !is_operand_token(tokens[i]) {
        lemma_reads_symbol(tokens, ans, i);
    } else if tokens[i] matches TokenView::Number(NumberView::Literal(_)) {
        lemma_reads_literal(tokens, ans, i);
    } else {
        lemma_reads_word(tokens, ans, i, true);
    }
}

/// Scanning the text of written tokens from the start of token `i`, with the tokens
/// before it at hand, yields all of them.
proof fn lemma_reads_from(tokens: Seq<TokenView>, ans: u64, i: int)
    requires
        is_written(tokens, ans),
        0 <= i <= tokens.len(),
    ensures
        tokens_from(text_of(tokens), ans, offset(tokens, i), tokens.take(i)) == Ok::<
            Seq<TokenView>,
            EvalErrorView,
        >(tokens),
    decreases tokens.len() - i,
{
    if i == tokens.len() {
        lemma_text_prefix(tokens, i);
        assert(tokens.take(i) =~= tokens);
    } else {
        lemma_reads_token(tokens, ans, i);
        assert(tokens.take(i).push(tokens[i]) =~= tokens.take(i + 1));
        lemma_reads_from(tokens, ans, i + 1);
    }
}

/// The scanner reads the text of written tokens back as those tokens.
pub proof fn lemma_written_is_read_back(tokens: Seq<TokenView>, ans: u64)
    requires
        is_written(tokens, ans),
    ensures
        tokens_of(text_of(tokens), ans) == Ok::<Seq<TokenView>, EvalErrorView>(tokens),
{
    lemma_reads_from(tokens, ans, 0);
    assert(tokens.take(0) =~= Seq::<TokenView>::empty());
}

/// The text of written tokens holds no comparator before the start of token `i`.
proof fn lemma_no_comparator_before(tokens: Seq<TokenView>, ans: u64, i: int)
    requires
        is_written(tokens, ans),
        0 <= i <= tokens.len(),
    ensures
        0 <= offset(tokens, i) <= text_of(tokens).len(),
        forall|x: int| 0 <= x < offset(tokens, i) ==> !is_comparator(#[trigger] text_of(tokens)[x]),
    decreases i,
{
    lemma_text_prefix(tokens, i);
    if i > 0 {
        lemma_no_comparator_before(tokens, ans, i - 1);
        lemma_written_at(tokens, i - 1);
        lemma_written(tokens, ans, i - 1);
        let text = text_of(tokens);
        let at = offset(tokens, i - 1);
        assert forall|x: int| at <= x < offset(tokens, i) implies !is_comparator(
            #[trigger] text[x],
        ) by {
            assert(text[at + (x - at)] == written(tokens[i - 1])[x - at]);
        }
    }
}

/// The text of written tokens holds no comparator, and at least one character if
/// there is a token.
pub proof fn lemma_written_has_no_comparator(tokens: Seq<TokenView>, ans: u64)
    requires
        is_written(tokens, ans),
    ensures
        forall|x: int|
            0 <= x < text_of(tokens).len() ==> !is_comparator(#[trigger] text_of(tokens)[x]),
        leading_comparator(text_of(tokens)) is None,
        tokens.len() > 0 ==> text_of(tokens).len() > 0,
{
    let text = text_of(tokens);
    lemma_no_comparator_before(tokens, ans, tokens.len() as int);
    assert(tokens.take(tokens.len() as int) =~= tokens);
    lemma_run_end_unique(text, 0, text.len() as int, CharClass::Plain);
    if tokens.len() > 0 {
        lemma_written_at(tokens, 0);
        lemma_written(tokens, ans, 0);
    }
}

/// Whether every single token of an operand can be written down and read back, and
/// the operand is well formed.
pub open spec fn is_written_operand_tree(o: Operand, ans: u64) -> bool
    decreases o,
{
    match o {
        Operand::Plain(token) => is_written_operand(token, ans),
        Operand::Group(items, symbols) => is_written_formula(items, symbols, ans),
    }
}

/// Whether the operands `items` joined by the operators `symbols` are a formula that
/// can be written down and read back when `ans` is the last answer: its single
/// operands are literals, the last answer and known constants.
pub open spec fn is_written_formula(items: Seq<Operand>, symbols: Seq<char>, ans: u64) -> bool
    decreases items,
{
    &&& items.len() == symbols.len() + 1
    &&& forall|q: int|
        0 <= q < symbols.len() ==> Operator::for_symbol(#[trigger] symbols[q]) is Some
    &&& forall|j: int| 0 <= j < items.len() ==> is_written_operand_tree(#[trigger] items[j], ans)
}

/// A formula that can be written down is a formula.
pub proof fn lemma_written_formula_is_formula(items: Seq<Operand>, symbols: Seq<char>, ans: u64)
    requires
        is_written_formula(items, symbols, ans),
    ensures
        is_formula(items, symbols),
    decreases items,
{
    assert forall|j: int| 0 <= j < items.len() implies is_operand(#[trigger] items[j]) by {
        match items[j] {
            Operand::Plain(_) => {},
            Operand::Group(inner, inner_symbols) => {
                lemma_written_formula_is_formula(inner, inner_symbols, ans);
            },
        }
    }
}

/// Tokens that stand well, followed by tokens that stand well after them, stand well
/// together.
proof fn lemma_placed_joined(a: Seq<TokenView>, b: Seq<TokenView>, ans: u64, first: bool)
    requires
        well_placed(a, ans, first),
        well_placed(
            b,
            ans,
            if a.len() == 0 {
                first
            } else {
                opens(a.last())
            },
        ),
    ensures
        well_placed(a + b, ans, first),
{
    let joined = a + b;
    let between = if a.len() == 0 {
        first
    } else {
        opens(a.last())
    };
    assert forall|i: int| 0 <= i < joined.len() implies #[trigger] fits_at(
        joined,
        ans,
        first,
        i,
    ) by {
        if i < a.len() {
            assert(fits_at(a, ans, first, i));
        } else {
            assert(fits_at(b, ans, between, i - a.len()));
        }
    }
}

/// The tokens of an operand that can be written down stand well where an operand is
/// due, and no operand is due after them.
proof fn lemma_operand_is_placed(o: Operand, ans: u64)
    requires
        is_written_operand_tree(o, ans),
    ensures
        well_placed(operand_tokens(o), ans, true),
        operand_tokens(o).len() >= 1,
        !opens(operand_tokens(o).last()),
    decreases o, 0int,
{
    match o {
        Operand::Plain(_) => {},
        Operand::Group(items, symbols) => {
            let inner = tokens_upto(items, symbols, items.len() as int);
            lemma_formula_is_placed(items, symbols, ans, items.len() as int);
            let open = seq![TokenView::LeftParen];
            let close = seq![TokenView::RightParen];
            lemma_placed_joined(open, inner, ans, true);
            lemma_placed_joined(open + inner, close, ans, true);
        },
    }
}

/// The tokens of the first `k` operands of a formula that can be written down stand
/// well where an operand is due, and no operand is due after them.
proof fn lemma_formula_is_placed(items: Seq<Operand>, symbols: Seq<char>, ans: u64, k: int)
    requires
        is_written_formula(items, symbols, ans),
        1 <= k <= items.len(),
    ensures
        well_placed(tokens_upto(items, symbols, k), ans, true),
        tokens_upto(items, symbols, k).len() >= 1,
        !opens(tokens_upto(items, symbols, k).last()),
    decreases items, k,
{
    lemma_operand_is_placed(items[k - 1], ans);
    if k > 1 {
        lemma_formula_is_placed(items, symbols, ans, k - 1);
        let before = tokens_upto(items, symbols, k - 1);
        let sign = seq![operator_token(symbols, k - 2)];
        let own = operand_tokens(items[k - 1]);
        lemma_placed_joined(before, sign, ans, true);
        lemma_placed_joined(before + sign, own, ans, true);
    }
}

/// The text of a formula that can be written down evaluates to the term of the
/// formula.
///
/// So a text made of literals, `ans`, `pi` and `e`, joined by the operators
/// `+ - * / ^` and grouped by parentheses, always evaluates, and to the number that
/// the usual rules give: operators are applied by precedence, those of one strength
/// from left to right, and what stands in parentheses is one operand. For the formula
/// with the text `2+3*4` the term is the sum of `2` and the product of `3` and `4`;
/// for the one with the text `10-2-3` it is the difference of `10 - 2` and `3`.
pub proof fn lemma_written_formula_follows_precedence(
    items: Seq<Operand>,
    symbols: Seq<char>,
    ans: u64,
)
    requires
        is_written_formula(items, symbols, ans),
    ensures
        is_formula(items, symbols),
        is_written(formula_tokens(items, symbols), ans),
        evaluation(text_of(formula_tokens(items, symbols)), ans) == Ok::<
            EvalResultView,
            EvalErrorView,
        >(EvalResultView::Num(formula_term(items, symbols))),
{
    let tokens = formula_tokens(items, symbols);
    lemma_written_formula_is_formula(items, symbols, ans);
    lemma_formula_is_placed(items, symbols, ans, items.len() as int);
    lemma_written_has_no_comparator(tokens, ans);
    lemma_written_is_read_back(tokens, ans);
    lemma_formula_follows_precedence(items, symbols);
}

/// Two texts without comparators, joined by a comparator, are cut by it into the two
/// of them, and it is the first comparator of the whole.
proof fn lemma_two_sides(left: Seq<char>, right: Seq<char>, separator: char)
    requires
        is_comparator(separator),
        left.len() > 0,
        right.len() > 0,
        forall|x: int| 0 <= x < left.len() ==> !is_comparator(#[trigger] left[x]),
        forall|x: int| 0 <= x < right.len() ==> !is_comparator(#[trigger] right[x]),
    ensures
        leading_comparator(left + seq![separator] + right) == Some(separator),
        segments(left + seq![separator] + right, separator) == seq![left, right],
{
    let text = left + seq![separator] + right;
    let cut = left.len() as int;
    let class = CharClass::Except(separator);
    lemma_run_end_unique(text, 0, cut, CharClass::Plain);
    lemma_run_end_unique(text, 0, cut, class);
    lemma_run_end_unique(text, cut, cut, class);
    lemma_run_end_unique(text, cut + 1, text.len() as int, class);
    assert(text.subrange(0, cut) =~= left);
    assert(text.subrange(cut + 1, text.len() as int) =~= right);
    assert(segments_from(text, text.len() as int, separator) =~= Seq::<Seq<char>>::empty());
    assert(segments_from(text, cut, separator) == segments_from(text, cut + 1, separator));
}

/// Two formulas that can be written down, written one after the other with a
/// comparator between them, evaluate to the comparison of their terms, whatever the
/// last answer is: the relation that the comparator denotes is tested between the term
/// of the left formula and the term of the right one.
///
/// On either side the word `ans` stands for 0, so the formulas must be such as can be
/// written down with 0 as the last answer.
pub proof fn lemma_written_comparison(
    left: Seq<Operand>,
    left_symbols: Seq<char>,
    right: Seq<Operand>,
    right_symbols: Seq<char>,
    separator: char,
    ans: u64,
)
    requires
        is_written_formula(left, left_symbols, FRESH_ANSWER),
        is_written_formula(right, right_symbols, FRESH_ANSWER),
        is_comparator(separator),
    ensures
        evaluation(
            text_of(formula_tokens(left, left_symbols)) + seq![separator] + text_of(
                formula_tokens(right, right_symbols),
            ),
            ans,
        ) == Ok::<EvalResultView, EvalErrorView>(
            EvalResultView::Comp(
                Relation::for_symbol(separator).unwrap(),
                Box::new(EvalResultView::Num(formula_term(left, left_symbols))),
                Box::new(EvalResultView::Num(formula_term(right, right_symbols))),
            ),
        ),
{
    let left_text = text_of(formula_tokens(left, left_symbols));
    let right_text = text_of(formula_tokens(right, right_symbols));
    lemma_written_formula_follows_precedence(left, left_symbols, FRESH_ANSWER);
    lemma_written_formula_follows_precedence(right, right_symbols, FRESH_ANSWER);
    lemma_formula_is_placed(left, left_symbols, FRESH_ANSWER, left.len() as int);
    lemma_formula_is_placed(right, right_symbols, FRESH_ANSWER, right.len() as int);
    lemma_written_has_no_comparator(formula_tokens(left, left_symbols), FRESH_ANSWER);
    lemma_written_has_no_comparator(formula_tokens(right, right_symbols), FRESH_ANSWER);
    lemma_two_sides(left_text, right_text, separator);
}

} // verus!
