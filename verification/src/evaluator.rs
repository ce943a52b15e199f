//! The evaluator: from tokens to the term they denote.
//!
//! Tokens are read from left to right with two stacks, one of operands and one of
//! pending operators. An operator waits on its stack until one that binds no tighter
//! arrives, or until its scope ends; it is then applied to the two operands on top.
//! An opening parenthesis and a function name each open a scope of their own, which a
//! closing parenthesis or the end of the input ends.

use vstd::prelude::*;
use crate::error::{EvalError, EvalErrorView};
use crate::expr::{
    expr_views, outcome, Constant, EvalResult, EvalResultView, Expr, ExprView, Function, Operator,
};
use crate::token::{token_views, Token, TokenView};

verus! {

/// Binding strength of an operator symbol: 3 for `^`, 2 for `*` and `/`, 1 for `+` and
/// `-`, and 0 for every other character.
pub open spec fn precedence_of(op: char) -> int {
    if op == '^' {
        3
    } else if op == '*' || op == '/' {
        2
    } else if op == '+' || op == '-' {
        1
    } else {
        0
    }
}

/// The binding strength of an operator symbol.
pub fn precedence(op: &char) -> (level: i32)
    ensures
        level == precedence_of(*op),
{
    match *op {
        '+' | '-' => 1,
        '*' | '/' => 2,
        '^' => 3,
        _ => 0,
    }
}

/// The operand stack after `op` has been applied to its two topmost entries: they
/// are replaced by the term that joins them, the lower one as the left operand.
pub open spec fn applied(values: Seq<ExprView>, op: char) -> Result<Seq<ExprView>, EvalErrorView> {
    if values.len() < 2 {
        Err(EvalErrorView::InsufficientValues)
    } else {
        match Operator::for_symbol(op) {
            Some(operator) => Ok(
                values.take(values.len() - 2).push(
                    ExprView::Binary(
                        operator,
                        Box::new(values[values.len() - 2]),
                        Box::new(values[values.len() - 1]),
                    ),
                ),
            ),
            None => Err(EvalErrorView::UnexpectedOperator(op)),
        }
    }
}

/// The two stacks after every pending operator that binds at least as tightly as
/// `floor` has been applied, topmost first. With a floor of 0 no operator stays.
pub open spec fn unwound(values: Seq<ExprView>, ops: Seq<char>, floor: int) -> Result<
    (Seq<ExprView>, Seq<char>),
    EvalErrorView,
>
    decreases ops.len(),
{
    if ops.len() > 0 && precedence_of(ops.last()) >= floor {
        match applied(values, ops.last()) {
            Ok(rest) => unwound(rest, ops.drop_last(), floor),
            Err(e) => Err(e),
        }
    } else {
        Ok((values, ops))
    }
}

/// The value of a scope that ends with the given stacks: every pending operator is
/// applied, and the operand then on top is the value. `empty` is the failure that
/// results when no operand is left.
pub open spec fn scope_value(values: Seq<ExprView>, ops: Seq<char>, empty: EvalErrorView) -> Result<
    ExprView,
    EvalErrorView,
> {
    match unwound(values, ops, 0) {
        Ok((rest, _)) => if rest.len() > 0 {
            Ok(rest.last())
        } else {
            Err(empty)
        },
        Err(e) => Err(e),
    }
}

/// The value of the scope that is being read at token `index` with the given stacks,
/// and the position after the token that ends it.
///
/// A nested scope that yields a value ends after the token that opened it; the test
/// `index < next <= tokens.len()` says so where the definition needs it to be
/// well-founded, and [`lemma_scope_advances`] shows that it never fails.
pub open spec fn parse_scope(
    tokens: Seq<TokenView>,
    index: int,
    values: Seq<ExprView>,
    ops: Seq<char>,
) -> Result<(ExprView, int), EvalErrorView>
    decreases tokens.len() - index,
{
    if 0 <= index < tokens.len() {
        match tokens[index] {
            TokenView::Number(n) => parse_scope(
                tokens,
                index + 1,
                values.push(ExprView::Number(n)),
                ops,
            ),
            TokenView::Constant(name) => match Constant::named(name) {
                Some(c) => parse_scope(tokens, index + 1, values.push(ExprView::Constant(c)), ops),
                None => Err(EvalErrorView::UnknownConstant(name)),
            },
            TokenView::Function(name) => match parse_scope(
                tokens,
                index + 1,
                Seq::empty(),
                Seq::empty(),
            ) {
                Ok((arg, next)) => match Function::named(name) {
                    Some(f) => if index < next <= tokens.len() {
                        parse_scope(
                            tokens,
                            next,
                            values.push(ExprView::Apply(f, Box::new(arg))),
                            ops,
                        )
                    } else {
                        Err(EvalErrorView::InvalidExpression)
                    },
                    None => Err(EvalErrorView::UnknownFunction(name)),
                },
                Err(e) => Err(e),
            },
            TokenView::Operator(op) => match unwound(values, ops, precedence_of(op)) {
                Ok((rest, pending)) => parse_scope(tokens, index + 1, rest, pending.push(op)),
                Err(e) => Err(e),
            },
            TokenView::LeftParen => match parse_scope(
                tokens,
                index + 1,
                Seq::empty(),
                Seq::empty(),
            ) {
                Ok((inner, next)) => if index < next <= tokens.len() {
                    parse_scope(tokens, next, values.push(inner), ops)
                } else {
                    Err(EvalErrorView::InvalidExpression)
                },
                Err(e) => Err(e),
            },
            TokenView::RightParen => match scope_value(
                values,
                ops,
                EvalErrorView::MismatchedParentheses,
            ) {
                Ok(value) => Ok((value, index + 1)),
                Err(e) => Err(e),
            },
        }
    } else {
        match scope_value(values, ops, EvalErrorView::InvalidExpression) {
            Ok(value) => Ok((value, index)),
            Err(e) => Err(e),
        }
    }
}

/// The value of the scope that starts at token `index`, and the position after the
/// token that ends it.
pub open spec fn parse_from(tokens: Seq<TokenView>, index: int) -> Result<
    (ExprView, int),
    EvalErrorView,
> {
    parse_scope(tokens, index, Seq::empty(), Seq::empty())
}

/// What a sequence of tokens evaluates to: the value of the scope that starts at its
/// first token. Tokens after the end of that scope are not looked at.
pub open spec fn value_of(tokens: Seq<TokenView>) -> Result<EvalResultView, EvalErrorView> {
    match parse_from(tokens, 0) {
        Ok((term, _)) => Ok(EvalResultView::Num(term)),
        Err(e) => Err(e),
    }
}

/// The model of the outcome of evaluating a scope: of its value and the position
/// after it, or of the failure.
pub open spec fn scope_outcome(r: Result<(Expr, usize), EvalError>) -> Result<
    (ExprView, int),
    EvalErrorView,
> {
    match r {
        Ok((value, next)) => Ok((value@, next as int)),
        Err(e) => Err(e@),
    }
}

/// Unwinding leaves an operand on the operand stack if there was one, and none if
/// there was none.
pub proof fn lemma_unwound_keeps_operand(values: Seq<ExprView>, ops: Seq<char>, floor: int)
    ensures
        unwound(values, ops, floor) matches Ok((rest, _)) ==> (values.len() == 0 ==> rest.len()
            == 0) && (values.len() > 0 ==> rest.len() > 0),
    decreases ops.len(),
{
    if ops.len() > 0 && precedence_of(ops.last()) >= floor {
        if let Ok(rest) = applied(values, ops.last()) {
            lemma_unwound_keeps_operand(rest, ops.drop_last(), floor);
        }
    }
}

/// A scope ends at or after the position it is read from and not after the end of the
/// tokens; one that starts without an operand and yields a value ends after at least
/// one token.
pub proof fn lemma_scope_advances(
    tokens: Seq<TokenView>,
    index: int,
    values: Seq<ExprView>,
    ops: Seq<char>,
)
    requires
        0 <= index <= tokens.len(),
    ensures
        parse_scope(tokens, index, values, ops) matches Ok((_, next)) ==> index <= next
            <= tokens.len() && (values.len() == 0 ==> index < next),
    decreases tokens.len() - index,
{
    if index < tokens.len() {
        match tokens[index] {
            TokenView::Number(n) => {
                lemma_scope_advances(tokens, index + 1, values.push(ExprView::Number(n)), ops);
            },
            TokenView::Constant(name) => {
                if let Some(c) = Constant::named(name) {
                    lemma_scope_advances(
                        tokens,
                        index + 1,
                        values.push(ExprView::Constant(c)),
                        ops,
                    );
                }
            },
            TokenView::Function(name) => {
                lemma_scope_advances(tokens, index + 1, Seq::empty(), Seq::empty());
                if let Ok((arg, next)) = parse_scope(
                    tokens,
                    index + 1,
                    Seq::empty(),
                    Seq::empty(),
                ) {
                    if let Some(f) = Function::named(name) {
                        lemma_scope_advances(
                            tokens,
                            next,
                            values.push(ExprView::Apply(f, Box::new(arg))),
                            ops,
                        );
                    }
                }
            },
            TokenView::Operator(op) => {
                lemma_unwound_keeps_operand(values, ops, precedence_of(op));
                if let Ok((rest, pending)) = unwound(values, ops, precedence_of(op)) {
                    lemma_scope_advances(tokens, index + 1, rest, pending.push(op));
                }
            },
            TokenView::LeftParen => {
                lemma_scope_advances(tokens, index + 1, Seq::empty(), Seq::empty());
                if let Ok((inner, next)) = parse_scope(
                    tokens,
                    index + 1,
                    Seq::empty(),
                    Seq::empty(),
                ) {
                    lemma_scope_advances(tokens, next, values.push(inner), ops);
                }
            },
            TokenView::RightParen => {
                lemma_unwound_keeps_operand(values, ops, 0);
            },
        }
    } else {
        lemma_unwound_keeps_operand(values, ops, 0);
    }
}

/// Applies the operator `op` to the two operands on top of `values`: both are taken
/// off, the upper one first, and the term that joins them is put in their place.
///
/// Fails with `InsufficientValues` when fewer than two operands are there, and with
/// `UnexpectedOperator` when `op` is no operator symbol. The operands that were taken
/// off before the failure showed are gone in either case.
pub fn apply_operator(values: &mut Vec<Expr>, op: char) -> (r: Result<(), EvalError>)
    ensures
        match r {
            Ok(()) => applied(expr_views(old(values)@), op) == Ok::<Seq<ExprView>, EvalErrorView>(
                expr_views(final(values)@),
            ),
            Err(e) => {
                &&& applied(expr_views(old(values)@), op) == Err::<Seq<ExprView>, EvalErrorView>(
                    e@,
                )
                &&& final(values)@ == old(values)@.take(
                    if old(values)@.len() >= 2 {
                        old(values)@.len() - 2
                    } else {
                        0
                    },
                )
            },
        },
{
    let ghost before = values@;
    let right = match values.pop() {
        Some(term) => term,
        None => {
            return Err(EvalError::InsufficientValues);
        },
    };
    let left = match values.pop() {
        Some(term) => term,
        None => {
            return Err(EvalError::InsufficientValues);
        },
    };
    match Operator::lookup(op) {
        Some(operator) => {
            values.push(Expr::Binary(operator, Box::new(left), Box::new(right)));
            assert(expr_views(values@) =~= expr_views(before).take(before.len() - 2).push(
                ExprView::Binary(operator, Box::new(left@), Box::new(right@)),
            ));
            Ok(())
        },
        None => Err(EvalError::UnexpectedOperator(op)),
    }
}

/// The model of the two stacks where unwinding them succeeded, or of the failure.
pub open spec fn stacks_outcome(r: Result<(Vec<Expr>, Vec<char>), EvalError>) -> Result<
    (Seq<ExprView>, Seq<char>),
    EvalErrorView,
> {
    match r {
        Ok((values, ops)) => Ok((expr_views(values@), ops@)),
        Err(e) => Err(e@),
    }
}

/// Applies the pending operators that bind at least as tightly as `floor`, topmost
/// first, and hands back the two stacks as they are when the first operator that
/// binds less tightly is on top, or none is left. Fails where an operator cannot be
/// applied.
pub fn unwind(values: Vec<Expr>, ops: Vec<char>, floor: i32) -> (r: Result<
    (Vec<Expr>, Vec<char>),
    EvalError,
>)
    ensures
        stacks_outcome(r) == unwound(expr_views(values@), ops@, floor as int),
{
    let mut operands = values;
    let mut pending = ops;
    while pending.len() > 0 && precedence(&pending[pending.len() - 1]) >= floor
        invariant
            unwound(expr_views(operands@), pending@, floor as int) == unwound(
                expr_views(values@),
                ops@,
                floor as int,
            ),
        decreases pending.len(),
    {
        let top = pending.pop().unwrap();
        match apply_operator(&mut operands, top) {
            Ok(()) => {},
            Err(e) => {
                return Err(e);
            },
        }
    }
    Ok((operands, pending))
}

/// Ends a scope: applies every pending operator and takes the operand then on top as
/// the scope's value. Fails with `empty` when no operand is left.
fn close_scope(values: Vec<Expr>, ops: Vec<char>, empty: EvalError) -> (r: Result<
    Expr,
    EvalError,
>)
    ensures
        match r {
            Ok(value) => scope_value(expr_views(values@), ops@, empty@) == Ok::<
                ExprView,
                EvalErrorView,
            >(value@),
            Err(e) => scope_value(expr_views(values@), ops@, empty@) == Err::<
                ExprView,
                EvalErrorView,
            >(e@),
        },
{
    let (mut rest, _) = match unwind(values, ops, 0) {
        Ok(stacks) => stacks,
        Err(e) => {
            return Err(e);
        },
    };
    let ghost left = rest@;
    match rest.pop() {
        Some(value) => {
            Ok(value)
        },
        None => Err(empty),
    }
}

/// Evaluates the scope that starts at token `index`.
///
/// Returns the term that the scope denotes together with the position after the token
/// that ends the scope: a closing parenthesis, or else the end of `tokens`. A number
/// or a constant is an operand; a function name is applied to the value of the scope
/// that starts after it; an opening parenthesis stands for the value of the scope that
/// starts after it; an operator first has every pending operator applied that binds
/// at least as tightly, so operators of one strength associate to the left.
pub fn parse_tokens(tokens: &[Token], index: usize) -> (r: Result<(Expr, usize), EvalError>)
    ensures
        scope_outcome(r) == parse_from(token_views(tokens@), index as int),
        r matches Ok((_, next)) ==> index < next <= tokens.len(),
    decreases tokens.len() - index,
{
    let ghost model = token_views(tokens@);
    let mut at: usize = index;
    let mut values: Vec<Expr> = Vec::new();
    let mut ops: Vec<char> = Vec::new();
    assert(expr_views(values@) =~= Seq::empty());
    proof {
        if index <= tokens.len() {
            lemma_scope_advances(model, index as int, Seq::empty(), Seq::empty());
        }
    }
    while at < tokens.len()
        invariant
            index <= at,
            model == token_views(tokens@),
            parse_scope(model, at as int, expr_views(values@), ops@) == parse_from(
                model,
                index as int,
            ),
            parse_from(model, index as int) matches Ok((_, next)) ==> index < next <= tokens.len(),
        decreases tokens.len() - at,
    {
        match &tokens[at] {
            Token::Number(n) => {
                let term = Expr::Number(n.clone());
                assert(expr_views(values@.push(term)) =~= expr_views(values@).push(term@));
                values.push(term);
                at += 1;
            },
            Token::Constant(name) => {
                match Constant::lookup(name.as_str()) {
                    Some(c) => {
                        let term = Expr::Constant(c);
                        assert(expr_views(values@.push(term)) =~= expr_views(values@).push(term@));
                        values.push(term);
                        at += 1;
                    },
                    None => {
                        return Err(EvalError::UnknownConstant(name.clone()));
                    },
                }
            },
            Token::Function(name) => {
                let (arg, next) = match parse_tokens(tokens, at + 1) {
                    Ok(found) => found,
                    Err(e) => {
                        return Err(e);
                    },
                };
                match Function::lookup(name.as_str()) {
                    Some(f) => {
                        let term = Expr::Apply(f, Box::new(arg));
                        assert(expr_views(values@.push(term)) =~= expr_views(values@).push(term@));
                        values.push(term);
                        at = next;
                    },
                    None => {
                        return Err(EvalError::UnknownFunction(name.clone()));
                    },
                }
            },
            Token::Operator(op) => {
                match unwind(values, ops, precedence(op)) {
                    Ok((rest, pending)) => {
                        values = rest;
                        ops = pending;
                    },
                    Err(e) => {
                        return Err(e);
                    },
                }
                ops.push(*op);
                at += 1;
            },
            Token::LeftParen => {
                let (inner, next) = match parse_tokens(tokens, at + 1) {
                    Ok(found) => found,
                    Err(e) => {
                        return Err(e);
                    },
                };
                assert(expr_views(values@.push(inner)) =~= expr_views(values@).push(inner@));
                values.push(inner);
                at = next;
            },
            Token::RightParen => {
                return match close_scope(values, ops, EvalError::MismatchedParentheses) {
                    Ok(value) => Ok((value, at + 1)),
                    Err(e) => Err(e),
                };
            },
        }
    }
    match close_scope(values, ops, EvalError::InvalidExpression) {
        Ok(value) => Ok((value, at)),
        Err(e) => Err(e),
    }
}

/// Evaluates a whole sequence of tokens: the value of the scope that starts at the
/// first token, as a number.
pub fn evaluate_expression(tokens: &[Token]) -> (r: Result<EvalResult, EvalError>)
    ensures
        outcome(r) == value_of(token_views(tokens@)),
{
    match parse_tokens(tokens, 0) {
        Ok((term, _)) => Ok(EvalResult::Num(term)),
        Err(e) => Err(e),
    }
}

} // verus!
