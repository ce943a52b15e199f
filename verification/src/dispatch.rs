//! The entry point: plain expressions and comparisons.
//!
//! An input that holds one of the comparators `=`, `<` and `>` is a comparison of two
//! inputs; any other input is an expression.

use vstd::prelude::*;
use vstd::utf8::encode_utf8;
use crate::error::{EvalError, EvalErrorView};
use crate::evaluator::{evaluate_expression, value_of};
use crate::expr::{outcome, EvalResult, EvalResultView, Relation};
use crate::text::{
    chars_of, find_comparator, leading_comparator, lemma_segments_fit, segments, split_segments,
};
use crate::tokenizer::{tokenize, tokens_of};

verus! {

/// The bit pattern of the number 0, which the word `ans` stands for on either side of
/// a comparison.
pub const FRESH_ANSWER: u64 = 0;

/// What `text` evaluates to when `ans` is the bit pattern of the last answer.
///
/// If `text` holds a comparator, the first one decides how it is compared; else it is
/// split into tokens and these are evaluated.
pub open spec fn evaluation(text: Seq<char>, ans: u64) -> Result<EvalResultView, EvalErrorView>
    decreases text.len(), 1int,
{
    match leading_comparator(text) {
        Some(separator) => comparison(text, separator),
        None => match tokens_of(text, ans) {
            Ok(tokens) => value_of(tokens),
            Err(e) => Err(e),
        },
    }
}

/// What `text` evaluates to as a comparison on `separator`.
///
/// The occurrences of `separator` must cut `text` into exactly two non-empty sides.
/// Each side is evaluated by itself, the left one first, with 0 as its last answer;
/// the result is the relation that `separator` denotes between the two.
pub open spec fn comparison(text: Seq<char>, separator: char) -> Result<
    EvalResultView,
    EvalErrorView,
>
    decreases text.len(), 0int,
{
    let sides = segments(text, separator);
    if sides.len() != 2 {
        Err(EvalErrorView::TooManyOperands)
    } else {
        proof {
            lemma_segments_fit(text, 0, separator);
        }
        match evaluation(sides[0], FRESH_ANSWER) {
            Ok(left) => match evaluation(sides[1], FRESH_ANSWER) {
                Ok(right) => match Relation::for_symbol(separator) {
                    Some(relation) => Ok(
                        EvalResultView::Comp(relation, Box::new(left), Box::new(right)),
                    ),
                    None => Err(EvalErrorView::ComparisonFailed),
                },
                Err(e) => Err(e),
            },
            Err(e) => Err(e),
        }
    }
}

/// Evaluates a comparison.
///
/// `comp_index` is the position of a byte in the UTF-8 encoding of `txt`; that byte,
/// taken as a character, is the separator. `txt` is cut at every occurrence of the
/// separator, and there must be exactly two non-empty sides, else the comparison fails
/// with `TooManyOperands`. Each side is evaluated as an input of its own, with 0 as
/// its last answer. A separator other than `=`, `<` and `>` fails with
/// `ComparisonFailed` once both sides have been evaluated.
pub fn equation_comparison(txt: &str, comp_index: usize) -> (r: Result<EvalResult, EvalError>)
    requires
        comp_index < encode_utf8(txt@).len(),
    ensures
        outcome(r) == comparison(txt@, encode_utf8(txt@)[comp_index as int] as char),
    decreases txt@.len(), 0int,
{
    let separator = txt.as_bytes()[comp_index] as char;
    let text = chars_of(txt);
    let sides = split_segments(&text, separator);
    if sides.len() != 2 {
        return Err(EvalError::TooManyOperands);
    }
    proof {
        lemma_segments_fit(txt@, 0, separator);
    }
    let left = match parse_txt(sides[0].as_str(), FRESH_ANSWER) {
        Ok(result) => result,
        Err(e) => {
            return Err(e);
        },
    };
    let right = match parse_txt(sides[1].as_str(), FRESH_ANSWER) {
        Ok(result) => result,
        Err(e) => {
            return Err(e);
        },
    };
    match Relation::lookup(separator) {
        Some(relation) => Ok(EvalResult::Comp(relation, Box::new(left), Box::new(right))),
        None => Err(EvalError::ComparisonFailed),
    }
}

/// Evaluates an input.
///
/// `txt` is the input with all white space removed, and `ans` the bit pattern of the
/// last answer. An input that holds none of `=`, `<` and `>` is split into tokens and
/// evaluated as an expression; any other input is a comparison on the first of these
/// characters that it holds.
pub fn parse_txt(txt: &str, ans: u64) -> (r: Result<EvalResult, EvalError>)
    ensures
        outcome(r) == evaluation(txt@, ans),
    decreases txt@.len(), 1int,
{
    match find_comparator(txt) {
        Some(comp_index) => equation_comparison(txt, comp_index),
        None => match tokenize(txt, ans) {
            Ok(tokens) => evaluate_expression(tokens.as_slice()),
            Err(e) => Err(e),
        },
    }
}

/// Evaluating an input once more, with the same last answer, comes out the same:
/// nothing but the characters of the input and the last answer enters into what
/// `parse_txt` returns.
pub proof fn lemma_evaluation_is_repeatable(
    text: Seq<char>,
    ans: u64,
    first: Result<EvalResult, EvalError>,
    second: Result<EvalResult, EvalError>,
)
    requires
        outcome(first) == evaluation(text, ans),
        outcome(second) == evaluation(text, ans),
    ensures
        outcome(first) == outcome(second),
        first is Ok <==> second is Ok,
{
}

} // verus!
