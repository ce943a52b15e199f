//! The ways in which an input can fail to evaluate.

use vstd::prelude::*;

verus! {

/// Why an input was rejected. Every failure is returned as a value; none aborts.
#[derive(Debug, PartialEq, Eq)]
pub enum EvalError {
    /// A numeric literal has no digit or more than one decimal point.
    InvalidNumber,
    /// A sign `-` in operand position is followed by this character, which cannot
    /// start a literal.
    UnexpectedCharacterAfterMinus(char),
    /// A sign `-` in operand position is the last character of the input.
    UnexpectedEndOfInput,
    /// This character starts no token.
    UnexpectedCharacter(char),
    /// A constant token carries a name other than `pi` and `e`.
    UnknownConstant(String),
    /// A function token carries a name that is none of the known functions.
    UnknownFunction(String),
    /// A closing parenthesis ends a scope that holds no value.
    MismatchedParentheses,
    /// The input ends in a scope that holds no value.
    InvalidExpression,
    /// An operator is applied with fewer than two operands at hand.
    InsufficientValues,
    /// An operator token carries a symbol other than `+ - * / ^`.
    UnexpectedOperator(char),
    /// A comparison does not have exactly two non-empty sides.
    TooManyOperands,
    /// The separator of a comparison is none of `= < >`.
    ComparisonFailed,
}

/// Mathematical model of an [`EvalError`].
pub enum EvalErrorView {
    InvalidNumber,
    UnexpectedCharacterAfterMinus(char),
    UnexpectedEndOfInput,
    UnexpectedCharacter(char),
    UnknownConstant(Seq<char>),
    UnknownFunction(Seq<char>),
    MismatchedParentheses,
    InvalidExpression,
    InsufficientValues,
    UnexpectedOperator(char),
    TooManyOperands,
    ComparisonFailed,
}

impl View for EvalError {
    type V = EvalErrorView;

    open spec fn view(&self) -> EvalErrorView {
        match self {
            EvalError::InvalidNumber => EvalErrorView::InvalidNumber,
            EvalError::UnexpectedCharacterAfterMinus(c) => {
                EvalErrorView::UnexpectedCharacterAfterMinus(*c)
            },
            EvalError::UnexpectedEndOfInput => EvalErrorView::UnexpectedEndOfInput,
            EvalError::UnexpectedCharacter(c) => EvalErrorView::UnexpectedCharacter(*c),
            EvalError::UnknownConstant(name) => EvalErrorView::UnknownConstant(name@),
            EvalError::UnknownFunction(name) => EvalErrorView::UnknownFunction(name@),
            EvalError::MismatchedParentheses => EvalErrorView::MismatchedParentheses,
            EvalError::InvalidExpression => EvalErrorView::InvalidExpression,
            EvalError::InsufficientValues => EvalErrorView::InsufficientValues,
            EvalError::UnexpectedOperator(c) => EvalErrorView::UnexpectedOperator(*c),
            EvalError::TooManyOperands => EvalErrorView::TooManyOperands,
            EvalError::ComparisonFailed => EvalErrorView::ComparisonFailed,
        }
    }
}

impl EvalError {
    /// The text of the message that describes the failure.
    pub open spec fn message_text(self) -> Seq<char> {
        match self {
            EvalError::InvalidNumber => "Invalid number format"@,
            EvalError::UnexpectedCharacterAfterMinus(_) => "Unexpected character after '-'"@,
            EvalError::UnexpectedEndOfInput => "Unexpected end of input after '-'"@,
            EvalError::UnexpectedCharacter(c) => "Unexpected character: "@.push(c),
            EvalError::UnknownConstant(name) => "Unknown constant: "@ + name@,
            EvalError::UnknownFunction(name) => "Unknown function: "@ + name@,
            EvalError::MismatchedParentheses => "Mismatched parentheses"@,
            EvalError::InvalidExpression => "Invalid expression"@,
            EvalError::InsufficientValues => "Insufficient values in expression"@,
            EvalError::UnexpectedOperator(op) => "Unexpected operator: "@.push(op),
            EvalError::TooManyOperands => "Can only compare 2 equations"@,
            EvalError::ComparisonFailed => "Comparison Failed"@,
        }
    }

    /// Describes the failure in a line of text for the user.
    pub fn message(&self) -> (text: String)
        ensures
            text@ == self.message_text(),
    {
        match self {
            EvalError::InvalidNumber => String::from_str("Invalid number format"),
            EvalError::UnexpectedCharacterAfterMinus(_) => String::from_str(
                "Unexpected character after '-'",
            ),
            EvalError::UnexpectedEndOfInput => String::from_str(
                "Unexpected end of input after '-'",
            ),
            EvalError::UnexpectedCharacter(c) => {
                let mut text = String::from_str("Unexpected character: ");
                text.push(*c);
                text
            },
            EvalError::UnknownConstant(name) => String::from_str("Unknown constant: ").concat(
                name.as_str(),
            ),
            EvalError::UnknownFunction(name) => String::from_str("Unknown function: ").concat(
                name.as_str(),
            ),
            EvalError::MismatchedParentheses => String::from_str("Mismatched parentheses"),
            EvalError::InvalidExpression => String::from_str("Invalid expression"),
            EvalError::InsufficientValues => String::from_str("Insufficient values in expression"),
            EvalError::UnexpectedOperator(op) => {
                let mut text = String::from_str("Unexpected operator: ");
                text.push(*op);
                text
            },
            EvalError::TooManyOperands => String::from_str("Can only compare 2 equations"),
            EvalError::ComparisonFailed => String::from_str("Comparison Failed"),
        }
    }
}

} // verus!
