//! The verified core of a calculator for arithmetic expressions.
//!
//! An input such as `2+3*4`, `sqrt(ans)/pi` or `2^10>1000` is split into tokens
//! ([`tokenizer`]) and evaluated with an operand stack and an operator stack
//! ([`evaluator`]); an input that holds one of `=`, `<` and `>` is evaluated side by
//! side as a comparison ([`dispatch`]). [`dispatch::parse_txt`] is the entry point.
//!
//! The core decides everything about an input except its arithmetic: whether it is
//! accepted, with which failure it is rejected, which operator is applied to which
//! operands and in which order. It holds no floating-point numbers. A number is kept
//! as the text of its literal or as a bit pattern ([`token::Number`]), and what an
//! input evaluates to is handed out as a term ([`expr::Expr`]) or as a comparison of
//! results ([`expr::EvalResult`]), for the caller to compute.
//!
//! Every function here is verified against a mathematical model of what it returns.
//! On top of that, [`chains`], [`formulas`] and [`written`] prove that expressions
//! made of numbers, constants, operators and parentheses are read by the usual rules
//! of precedence.

pub mod chains;
pub mod dispatch;
pub mod error;
pub mod evaluator;
pub mod expr;
pub mod formulas;
pub mod text;
pub mod token;
pub mod tokenizer;
pub mod written;
