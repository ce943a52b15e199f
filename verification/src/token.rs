//! Numbers and lexical tokens.

use vstd::prelude::*;
use crate::error::{EvalError, EvalErrorView};

verus! {

/// A 64-bit floating-point number, held as what determines it. The calculator never
/// computes with numbers itself; it only passes them through to whoever evaluates an
/// [`Expr`](crate::expr::Expr).
#[derive(Debug, PartialEq, Eq)]
pub enum Number {
    /// A decimal literal by its text: an optional leading `-`, then digits with at most
    /// one decimal point among them and at least one digit.
    Literal(String),
    /// A value by its IEEE 754 binary64 bit pattern.
    Bits(u64),
}

/// Mathematical model of a [`Number`].
pub enum NumberView {
    Literal(Seq<char>),
    Bits(u64),
}

impl View for Number {
    type V = NumberView;

    open spec fn view(&self) -> NumberView {
        match self {
            Number::Literal(text) => NumberView::Literal(text@),
            Number::Bits(bits) => NumberView::Bits(*bits),
        }
    }
}

impl Clone for Number {
    fn clone(&self) -> (copy: Number)
        ensures
            copy@ == self@,
    {
        match self {
            Number::Literal(text) => Number::Literal(text.clone()),
            Number::Bits(bits) => Number::Bits(*bits),
        }
    }
}

/// One lexical unit of an expression.
#[derive(Debug, PartialEq, Eq)]
pub enum Token {
    /// A number: a literal, or the stored last answer.
    Number(Number),
    /// A binary operator symbol.
    Operator(char),
    /// `(`
    LeftParen,
    /// `)`
    RightParen,
    /// A named constant.
    Constant(String),
    /// The name of a function, applied to what follows it.
    Function(String),
}

/// Mathematical model of a [`Token`].
pub enum TokenView {
    Number(NumberView),
    Operator(char),
    LeftParen,
    RightParen,
    Constant(Seq<char>),
    Function(Seq<char>),
}

impl View for Token {
    type V = TokenView;

    open spec fn view(&self) -> TokenView {
        match self {
            Token::Number(n) => TokenView::Number(n@),
            Token::Operator(op) => TokenView::Operator(*op),
            Token::LeftParen => TokenView::LeftParen,
            Token::RightParen => TokenView::RightParen,
            Token::Constant(name) => TokenView::Constant(name@),
            Token::Function(name) => TokenView::Function(name@),
        }
    }
}

impl Clone for Token {
    fn clone(&self) -> (copy: Token)
        ensures
            copy@ == self@,
    {
        match self {
            Token::Number(n) => Token::Number(n.clone()),
            Token::Operator(op) => Token::Operator(*op),
            Token::LeftParen => Token::LeftParen,
            Token::RightParen => Token::RightParen,
            Token::Constant(name) => Token::Constant(name.clone()),
            Token::Function(name) => Token::Function(name.clone()),
        }
    }
}

/// The models of a sequence of tokens, in order.
pub open spec fn token_views(tokens: Seq<Token>) -> Seq<TokenView> {
    tokens.map_values(|t: Token| t@)
}

/// The model of the outcome of scanning: of the tokens where the input could be
/// split, of the failure where it could not.
pub open spec fn scanned(r: Result<Vec<Token>, EvalError>) -> Result<
    Seq<TokenView>,
    EvalErrorView,
> {
    match r {
        Ok(tokens) => Ok(token_views(tokens@)),
        Err(e) => Err(e@),
    }
}

/// The model of the outcome of reading one token: of the token and the position
/// after it, or of the failure.
pub open spec fn scanned_one(r: Result<(Token, usize), EvalError>) -> Result<
    (TokenView, int),
    EvalErrorView,
> {
    match r {
        Ok((token, next)) => Ok((token@, next as int)),
        Err(e) => Err(e@),
    }
}

} // verus!
