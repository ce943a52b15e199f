//! The scanner: from the characters of an expression to its tokens.
//!
//! The input is read from left to right, one token at a time. Which token starts at a
//! position depends on the characters from that position on and, for `-` alone, on
//! whether an operand or an operator is expected there.

use vstd::prelude::*;
use crate::error::{EvalError, EvalErrorView};
use crate::expr::{Constant, Operator};
use crate::text::{
    chars_of, has_prefix_at, is_digit, is_letter, is_numeric, lemma_run_end, run_end, scan_run,
    starts_with_at, text_between, CharClass,
};
use crate::token::{scanned, scanned_one, token_views, Number, NumberView, Token, TokenView};

verus! {

/// Whether a run of digits and points is the digits of a decimal literal: it holds at
/// least one digit and at most one point.
pub open spec fn well_formed_digits(run: Seq<char>) -> bool {
    &&& exists|i: int| 0 <= i < run.len() && is_digit(#[trigger] run[i])
    &&& forall|i: int, j: int|
        0 <= i < j < run.len() ==> !(#[trigger] run[i] == '.' && #[trigger] run[j] == '.')
}

/// The digits of a literal: its text without the sign, if it has one.
pub open spec fn literal_digits(text: Seq<char>) -> Seq<char> {
    if text.len() > 0 && text[0] == '-' {
        text.skip(1)
    } else {
        text
    }
}

/// Whether `text` is the text of a decimal literal: after an optional `-`, digits and
/// at most one point, with at least one digit.
pub open spec fn is_literal(text: Seq<char>) -> bool {
    &&& forall|i: int|
        0 <= i < literal_digits(text).len() ==> is_numeric(#[trigger] literal_digits(text)[i])
    &&& well_formed_digits(literal_digits(text))
}

/// Whether a `-` that follows the tokens `emitted` is the sign of a literal: it is
/// when no token precedes it, or the last one is an operator or an opening parenthesis.
pub open spec fn sign_expected(emitted: Seq<TokenView>) -> bool {
    emitted.len() == 0 || emitted.last() is Operator || emitted.last() is LeftParen
}

/// The literal whose text starts at `start` and whose digits start at `digits`
/// (`start` itself, or one further when a sign precedes them), with the position
/// after it.
pub open spec fn literal_at(text: Seq<char>, start: int, digits: int) -> Result<
    (TokenView, int),
    EvalErrorView,
> {
    let end = run_end(text, digits, CharClass::Numeric);
    if well_formed_digits(text.subrange(digits, end)) {
        Ok((TokenView::Number(NumberView::Literal(text.subrange(start, end))), end))
    } else {
        Err(EvalErrorView::InvalidNumber)
    }
}

/// The token that starts at position `at` of `text`, with the position after it, or
/// the reason why none starts there. `ans` is the number that the word `ans` stands
/// for; `sign` says whether a `-` here is the sign of a literal.
pub open spec fn token_at(text: Seq<char>, ans: u64, at: int, sign: bool) -> Result<
    (TokenView, int),
    EvalErrorView,
>
    recommends
        0 <= at < text.len(),
{
    let c = text[at];
    if is_numeric(c) {
        literal_at(text, at, at)
    } else if c == 'a' && has_prefix_at(text, at, "ans"@) {
        Ok((TokenView::Number(NumberView::Bits(ans)), at + 3))
    } else if c == '+' || c == '*' || c == '/' || c == '^' {
        Ok((TokenView::Operator(c), at + 1))
    } else if c == '-' {
        if !sign {
            Ok((TokenView::Operator('-'), at + 1))
        } else if at + 1 >= text.len() {
            Err(EvalErrorView::UnexpectedEndOfInput)
        } else if !is_numeric(text[at + 1]) {
            Err(EvalErrorView::UnexpectedCharacterAfterMinus(text[at + 1]))
        } else {
            literal_at(text, at, at + 1)
        }
    } else if c == '(' {
        Ok((TokenView::LeftParen, at + 1))
    } else if c == ')' {
        Ok((TokenView::RightParen, at + 1))
    } else if c == 'p' && has_prefix_at(text, at, "pi"@) {
        Ok((TokenView::Constant("pi"@), at + 2))
    } else if c == 'e' && !has_prefix_at(text, at, "exp"@) {
        Ok((TokenView::Constant("e"@), at + 1))
    } else if is_letter(c) {
        let end = run_end(text, at, CharClass::Letter);
        Ok((TokenView::Function(text.subrange(at, end)), end))
    } else {
        Err(EvalErrorView::UnexpectedCharacter(c))
    }
}

/// A token covers at least one character and ends inside the text.
pub proof fn lemma_token_advances(text: Seq<char>, ans: u64, at: int, sign: bool)
    requires
        0 <= at < text.len(),
    ensures
        token_at(text, ans, at, sign) matches Ok((_, next)) ==> at < next <= text.len(),
{
    reveal_strlit("ans");
    reveal_strlit("pi");
    lemma_run_end(text, at, CharClass::Numeric);
    lemma_run_end(text, at, CharClass::Letter);
    if at + 1 < text.len() {
        lemma_run_end(text, at + 1, CharClass::Numeric);
    }
}

/// The tokens of `text` from position `at` on, appended to `emitted`, the tokens
/// before that position.
pub open spec fn tokens_from(text: Seq<char>, ans: u64, at: int, emitted: Seq<TokenView>) -> Result<
    Seq<TokenView>,
    EvalErrorView,
>
    decreases text.len() - at,
{
    if 0 <= at < text.len() {
        match token_at(text, ans, at, sign_expected(emitted)) {
            Ok((token, next)) => {
                proof {
                    lemma_token_advances(text, ans, at, sign_expected(emitted));
                }
                tokens_from(text, ans, next, emitted.push(token))
            },
            Err(e) => Err(e),
        }
    } else {
        Ok(emitted)
    }
}

/// The tokens of `text`, or the first reason why it cannot be split into tokens.
pub open spec fn tokens_of(text: Seq<char>, ans: u64) -> Result<Seq<TokenView>, EvalErrorView> {
    tokens_from(text, ans, 0, Seq::empty())
}

/// Whether a token is one that the scanner emits when `ans` is the last answer: a
/// literal with the text of a literal, the last answer, one of the five operators, a
/// parenthesis, one of the two constants, or a word of letters.
pub open spec fn is_scanned(token: TokenView, ans: u64) -> bool {
    match token {
        TokenView::Number(NumberView::Literal(text)) => is_literal(text),
        TokenView::Number(NumberView::Bits(bits)) => bits == ans,
        TokenView::Operator(op) => Operator::for_symbol(op) is Some,
        TokenView::LeftParen => true,
        TokenView::RightParen => true,
        TokenView::Constant(name) => Constant::named(name) is Some,
        TokenView::Function(name) => name.len() > 0 && forall|i: int|
            0 <= i < name.len() ==> is_letter(#[trigger] name[i]),
    }
}

/// A literal that the scanner reads has the text of a literal.
proof fn lemma_literal_is_scanned(text: Seq<char>, start: int, digits: int, ans: u64)
    requires
        0 <= start <= digits < text.len(),
        is_numeric(text[digits]),
        start == digits || (start + 1 == digits && text[start] == '-'),
    ensures
        literal_at(text, start, digits) matches Ok((token, _)) ==> is_scanned(token, ans),
{
    let end = run_end(text, digits, CharClass::Numeric);
    lemma_run_end(text, digits, CharClass::Numeric);
    let lit = text.subrange(start, end);
    let run = text.subrange(digits, end);
    if well_formed_digits(run) {
        assert(literal_digits(lit) =~= run);
    }
}

/// Every token that the scanner reads is one that it emits.
pub proof fn lemma_token_is_scanned(text: Seq<char>, ans: u64, at: int, sign: bool)
    requires
        0 <= at < text.len(),
    ensures
        token_at(text, ans, at, sign) matches Ok((token, _)) ==> is_scanned(token, ans),
{
    reveal_strlit("pi");
    reveal_strlit("e");
    let c = text[at];
    if is_numeric(c) {
        lemma_literal_is_scanned(text, at, at, ans);
    } else if c == '-' && sign && at + 1 < text.len() && is_numeric(text[at + 1]) {
        lemma_literal_is_scanned(text, at, at + 1, ans);
    } else if is_letter(c) {
        lemma_run_end(text, at, CharClass::Letter);
    }
}

/// Where the tokens before a position are such as the scanner emits, so are all
/// tokens of the text.
proof fn lemma_tokens_are_scanned_from(
    text: Seq<char>,
    ans: u64,
    at: int,
    emitted: Seq<TokenView>,
)
    requires
        forall|i: int| 0 <= i < emitted.len() ==> is_scanned(#[trigger] emitted[i], ans),
    ensures
        tokens_from(text, ans, at, emitted) matches Ok(tokens) ==> forall|i: int|
            0 <= i < tokens.len() ==> is_scanned(#[trigger] tokens[i], ans),
    decreases text.len() - at,
{
    if 0 <= at < text.len() {
        let sign = sign_expected(emitted);
        lemma_token_is_scanned(text, ans, at, sign);
        lemma_token_advances(text, ans, at, sign);
        if let Ok((token, next)) = token_at(text, ans, at, sign) {
            lemma_tokens_are_scanned_from(text, ans, next, emitted.push(token));
        }
    }
}

/// The tokens of a text are such as the scanner emits: every operator is one of
/// `+ - * / ^`, every constant is `pi` or `e`, every literal has a digit and at most
/// one point, and every function name is a word of letters.
pub proof fn lemma_tokens_are_scanned(text: Seq<char>, ans: u64)
    ensures
        tokens_of(text, ans) matches Ok(tokens) ==> forall|i: int|
            0 <= i < tokens.len() ==> is_scanned(#[trigger] tokens[i], ans),
{
    lemma_tokens_are_scanned_from(text, ans, 0, Seq::empty());
}

/// Decides whether the characters of `text` from `from` up to `to` are the digits of a
/// decimal literal.
pub fn check_digits(text: &Vec<char>, from: usize, to: usize) -> (r: bool)
    requires
        from <= to <= text.len(),
    ensures
        r == well_formed_digits(text@.subrange(from as int, to as int)),
{
    let ghost run = text@.subrange(from as int, to as int);
    let mut digit_seen = false;
    let mut points: usize = 0;
    let ghost mut digit_at: int = 0;
    let ghost mut point_at: int = 0;
    let mut i: usize = from;
    while i < to
        invariant
            from <= i <= to <= text.len(),
            run == text@.subrange(from as int, to as int),
            digit_seen ==> 0 <= digit_at < i - from && is_digit(run[digit_at]),
            !digit_seen ==> forall|k: int| 0 <= k < i - from ==> !is_digit(#[trigger] run[k]),
            points <= 1,
            points == 0 ==> forall|k: int| 0 <= k < i - from ==> #[trigger] run[k] != '.',
            points == 1 ==> 0 <= point_at < i - from && run[point_at] == '.',
            points == 1 ==> forall|k: int|
                0 <= k < i - from && k != point_at ==> #[trigger] run[k] != '.',
        decreases to - i,
    {
        let c = text[i];
        assert(run[i - from] == c);
        if c >= '0' && c <= '9' {
            digit_seen = true;
            proof {
                digit_at = i - from;
            }
        } else if c == '.' {
            if points == 1 {
                return false;
            }
            points = 1;
            proof {
                point_at = i - from;
            }
        }
        i += 1;
    }
    digit_seen
}

/// Reads the literal whose text starts at `start` and whose digits start at `digits`.
fn read_literal(text: &Vec<char>, start: usize, digits: usize) -> (r: Result<
    (Token, usize),
    EvalError,
>)
    requires
        start <= digits <= text.len(),
    ensures
        scanned_one(r) == literal_at(text@, start as int, digits as int),
        r matches Ok((_, next)) ==> digits <= next <= text.len(),
{
    let end = scan_run(text, digits, CharClass::Numeric);
    if check_digits(text, digits, end) {
        Ok((Token::Number(Number::Literal(text_between(text, start, end))), end))
    } else {
        Err(EvalError::InvalidNumber)
    }
}

/// Reads the token that starts at position `at`. `sign` says whether a `-` at this
/// position is the sign of a literal.
pub fn next_token(text: &Vec<char>, ans: u64, at: usize, sign: bool) -> (r: Result<
    (Token, usize),
    EvalError,
>)
    requires
        at < text.len(),
    ensures
        scanned_one(r) == token_at(text@, ans, at as int, sign),
        r matches Ok((_, next)) ==> at < next <= text.len(),
{
    proof {
        lemma_token_advances(text@, ans, at as int, sign);
        reveal_strlit("ans");
        reveal_strlit("pi");
    }
    let c = text[at];
    if (c >= '0' && c <= '9') || c == '.' {
        read_literal(text, at, at)
    } else if c == 'a' && starts_with_at(text, at, "ans") {
        Ok((Token::Number(Number::Bits(ans)), at + 3))
    } else if c == '+' || c == '*' || c == '/' || c == '^' {
        Ok((Token::Operator(c), at + 1))
    } else if c == '-' {
        if !sign {
            Ok((Token::Operator('-'), at + 1))
        } else if at + 1 >= text.len() {
            Err(EvalError::UnexpectedEndOfInput)
        } else {
            let d = text[at + 1];
            if (d >= '0' && d <= '9') || d == '.' {
                read_literal(text, at, at + 1)
            } else {
                Err(EvalError::UnexpectedCharacterAfterMinus(d))
            }
        }
    } else if c == '(' {
        Ok((Token::LeftParen, at + 1))
    } else if c == ')' {
        Ok((Token::RightParen, at + 1))
    } else if c == 'p' && starts_with_at(text, at, "pi") {
        Ok((Token::Constant(String::from_str("pi")), at + 2))
    } else if c == 'e' && !starts_with_at(text, at, "exp") {
        Ok((Token::Constant(String::from_str("e")), at + 1))
    } else if CharClass::Letter.contains(c) {
        let end = scan_run(text, at, CharClass::Letter);
        Ok((Token::Function(text_between(text, at, end)), end))
    } else {
        Err(EvalError::UnexpectedCharacter(c))
    }
}

/// Decides whether a `-` that follows `tokens` is the sign of a literal.
pub fn expects_sign(tokens: &Vec<Token>) -> (r: bool)
    ensures
        r == sign_expected(token_views(tokens@)),
{
    if tokens.len() == 0 {
        true
    } else {
        match &tokens[tokens.len() - 1] {
            Token::Operator(_) => true,
            Token::LeftParen => true,
            _ => false,
        }
    }
}

/// Splits an expression into its tokens.
///
/// `txt` is the expression with all white space removed, and `ans` the bit pattern of
/// the number that the word `ans` stands for. The result is the sequence of tokens in
/// the order of the input, or the failure at the first position, from the left, at
/// which no token can be read.
pub fn tokenize(txt: &str, ans: u64) -> (r: Result<Vec<Token>, EvalError>)
    ensures
        scanned(r) == tokens_of(txt@, ans),
{
    let text = chars_of(txt);
    let mut tokens: Vec<Token> = Vec::new();
    let mut at: usize = 0;
    assert(token_views(tokens@) =~= Seq::empty());
    while at < text.len()
        invariant
            at <= text.len(),
            text@ == txt@,
            tokens_from(text@, ans, at as int, token_views(tokens@)) == tokens_of(txt@, ans),
        decreases text.len() - at,
    {
        let sign = expects_sign(&tokens);
        match next_token(&text, ans, at, sign) {
            Ok((token, next)) => {
                assert(token_views(tokens@.push(token)) =~= token_views(tokens@).push(token@));
                tokens.push(token);
                at = next;
            },
            Err(e) => {
                return Err(e);
            },
        }
    }
    Ok(tokens)
}

} // verus!
