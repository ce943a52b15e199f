use calc_engine::dispatch::{equation_comparison, parse_txt, FRESH_ANSWER};
use calc_engine::error::EvalError;
use calc_engine::evaluator::{
    apply_operator, evaluate_expression, parse_tokens, precedence, unwind,
};
use calc_engine::expr::{Constant, EvalResult, Expr, Function, Operator, Relation};
use calc_engine::token::{Number, Token};
use calc_engine::tokenizer::tokenize;

#[derive(Debug, PartialEq, PartialOrd)]
enum Value {
    Num(f64),
    Comp(bool),
}

fn number(n: &Number) -> f64 {
    match n {
        Number::Literal(text) => text.parse().unwrap(),
        Number::Bits(bits) => f64::from_bits(*bits),
    }
}

fn fold(term: &Expr) -> f64 {
    match term {
        Expr::Number(n) => number(n),
        Expr::Constant(Constant::Pi) => std::f64::consts::PI,
        Expr::Constant(Constant::E) => std::f64::consts::E,
        Expr::Apply(f, arg) => {
            let x = fold(arg);
            match f {
                Function::Sin => x.sin(),
                Function::Cos => x.cos(),
                Function::Tan => x.tan(),
                Function::Asin => x.asin(),
                Function::Acos => x.acos(),
                Function::Atan => x.atan(),
                Function::Sqrt => x.sqrt(),
                Function::Abs => x.abs(),
                Function::Ln => x.ln(),
                Function::Exp => x.exp(),
            }
        }
        Expr::Binary(op, left, right) => {
            let a = fold(left);
            let b = fold(right);
            match op {
                Operator::Add => a + b,
                Operator::Sub => a - b,
                Operator::Mul => a * b,
                Operator::Div => a / b,
                Operator::Pow => a.powf(b),
            }
        }
    }
}

fn settle(result: &EvalResult) -> Value {
    match result {
        EvalResult::Num(term) => Value::Num(fold(term)),
        EvalResult::Comp(relation, left, right) => {
            let a = settle(left);
            let b = settle(right);
            Value::Comp(match relation {
                Relation::Equal => a == b,
                Relation::Greater => a > b,
                Relation::Less => a < b,
            })
        }
    }
}

fn run(text: &str, ans: f64) -> Result<Value, EvalError> {
    parse_txt(text, ans.to_bits()).map(|result| settle(&result))
}

fn lit(text: &str) -> Expr {
    Expr::Number(Number::Literal(text.to_string()))
}

fn binary(op: Operator, left: Expr, right: Expr) -> Expr {
    Expr::Binary(op, Box::new(left), Box::new(right))
}

fn tokens_of(text: &str) -> Vec<Token> {
    tokenize(text, 0).unwrap()
}

#[test]
fn precedence_levels() {
    assert_eq!(precedence(&'+'), 1);
    assert_eq!(precedence(&'-'), 1);
    assert_eq!(precedence(&'*'), 2);
    assert_eq!(precedence(&'/'), 2);
    assert_eq!(precedence(&'^'), 3);
    assert_eq!(precedence(&'%'), 0);
    assert_eq!(precedence(&'('), 0);
}

#[test]
fn product_binds_tighter_than_sum() {
    assert_eq!(run("2+3*4", 0.0), Ok(Value::Num(14.0)));
    assert_eq!(
        parse_txt("2+3*4", 0),
        Ok(EvalResult::Num(binary(
            Operator::Add,
            lit("2"),
            binary(Operator::Mul, lit("3"), lit("4"))
        )))
    );
}

#[test]
fn equal_strength_associates_to_the_left() {
    assert_eq!(run("10-2-3", 0.0), Ok(Value::Num(5.0)));
    assert_eq!(run("8/4/2", 0.0), Ok(Value::Num(1.0)));
    assert_eq!(run("8/4*2", 0.0), Ok(Value::Num(4.0)));
    assert_eq!(
        parse_txt("10-2-3", 0),
        Ok(EvalResult::Num(binary(
            Operator::Sub,
            binary(Operator::Sub, lit("10"), lit("2")),
            lit("3")
        )))
    );
}

#[test]
fn mixed_chain_follows_precedence() {
    assert_eq!(run("1+2*3-4/2", 0.0), Ok(Value::Num(5.0)));
    assert_eq!(run("2*3+4*5", 0.0), Ok(Value::Num(26.0)));
    assert_eq!(run("1-2*3^2", 0.0), Ok(Value::Num(-17.0)));
    assert_eq!(run("0.5+0.25", 0.0), Ok(Value::Num(0.75)));
}

#[test]
fn power_associates_to_the_left() {
    assert_eq!(run("2^3^2", 0.0), Ok(Value::Num(64.0)));
    assert_eq!(
        parse_txt("2^3^2", 0),
        Ok(EvalResult::Num(binary(
            Operator::Pow,
            binary(Operator::Pow, lit("2"), lit("3")),
            lit("2")
        )))
    );
}

#[test]
fn unary_minus_is_part_of_the_literal() {
    assert_eq!(run("-5+3", 0.0), Ok(Value::Num(-2.0)));
    assert_eq!(run("3*-2", 0.0), Ok(Value::Num(-6.0)));
    assert_eq!(run("2--3", 0.0), Ok(Value::Num(5.0)));
    assert_eq!(run("-2^2", 0.0), Ok(Value::Num(4.0)));
}

#[test]
fn unary_minus_before_parenthesis_is_rejected() {
    assert_eq!(run("-(2+3)", 0.0), Err(EvalError::UnexpectedCharacterAfterMinus('(')));
}

#[test]
fn parentheses_group() {
    assert_eq!(run("(2+3)*4", 0.0), Ok(Value::Num(20.0)));
    assert_eq!(run("((1+2))", 0.0), Ok(Value::Num(3.0)));
    assert_eq!(run("2*(3+(4-1))", 0.0), Ok(Value::Num(12.0)));
    assert_eq!(run("(((((7)))))", 0.0), Ok(Value::Num(7.0)));
}

#[test]
fn functions_apply_to_their_argument() {
    assert_eq!(run("sqrt(16)", 0.0), Ok(Value::Num(4.0)));
    assert_eq!(run("sin(0)", 0.0), Ok(Value::Num(0.0)));
    assert_eq!(run("cos(0)", 0.0), Ok(Value::Num(1.0)));
    assert_eq!(run("tan(0)", 0.0), Ok(Value::Num(0.0)));
    assert_eq!(run("asin(0)", 0.0), Ok(Value::Num(0.0)));
    assert_eq!(run("acos(1)", 0.0), Ok(Value::Num(0.0)));
    assert_eq!(run("atan(0)", 0.0), Ok(Value::Num(0.0)));
    assert_eq!(run("abs(-3)", 0.0), Ok(Value::Num(3.0)));
    assert_eq!(run("ln(1)", 0.0), Ok(Value::Num(0.0)));
    assert_eq!(run("exp(0)", 0.0), Ok(Value::Num(1.0)));
    assert_eq!(run("2*sqrt(16)", 0.0), Ok(Value::Num(8.0)));
    assert_eq!(run("sqrt(sqrt(16))", 0.0), Ok(Value::Num(2.0)));
}

#[test]
fn function_takes_the_rest_of_its_scope() {
    assert_eq!(run("sqrt(16)+9", 0.0), Ok(Value::Num(5.0)));
    assert_eq!(run("sqrt16", 0.0), Ok(Value::Num(4.0)));
    assert_eq!(
        parse_txt("sqrt(16)+9", 0),
        Ok(EvalResult::Num(Expr::Apply(
            Function::Sqrt,
            Box::new(binary(Operator::Add, lit("16"), lit("9")))
        )))
    );
}

#[test]
fn constants_resolve() {
    assert_eq!(run("pi", 0.0), Ok(Value::Num(std::f64::consts::PI)));
    assert_eq!(run("e", 0.0), Ok(Value::Num(std::f64::consts::E)));
    assert_eq!(run("exp(1)", 0.0), Ok(Value::Num(std::f64::consts::E)));
    assert_eq!(run("2*pi", 0.0), Ok(Value::Num(2.0 * std::f64::consts::PI)));
    assert_eq!(parse_txt("pi", 0), Ok(EvalResult::Num(Expr::Constant(Constant::Pi))));
}

#[test]
fn ans_is_substituted() {
    assert_eq!(run("ans+1", 4.0), Ok(Value::Num(5.0)));
    assert_eq!(run("ans*ans", -3.0), Ok(Value::Num(9.0)));
    assert_eq!(
        parse_txt("ans", 4.0f64.to_bits()),
        Ok(EvalResult::Num(Expr::Number(Number::Bits(4.0f64.to_bits()))))
    );
}

#[test]
fn comparisons_yield_truth_values() {
    assert_eq!(run("3>2", 0.0), Ok(Value::Comp(true)));
    assert_eq!(run("2+2=4", 0.0), Ok(Value::Comp(true)));
    assert_eq!(run("1<0", 0.0), Ok(Value::Comp(false)));
    assert_eq!(run("2*3=7", 0.0), Ok(Value::Comp(false)));
    assert_eq!(run("2>2", 0.0), Ok(Value::Comp(false)));
    assert_eq!(
        parse_txt("3>2", 0),
        Ok(EvalResult::Comp(
            Relation::Greater,
            Box::new(EvalResult::Num(lit("3"))),
            Box::new(EvalResult::Num(lit("2")))
        ))
    );
}

#[test]
fn sides_of_a_comparison_start_from_a_fresh_answer() {
    assert_eq!(FRESH_ANSWER, 0.0f64.to_bits());
    assert_eq!(run("ans=0", 7.0), Ok(Value::Comp(true)));
    assert_eq!(run("ans+1>ans", 7.0), Ok(Value::Comp(true)));
    assert_eq!(
        parse_txt("ans<1", 7.0f64.to_bits()),
        Ok(EvalResult::Comp(
            Relation::Less,
            Box::new(EvalResult::Num(Expr::Number(Number::Bits(0)))),
            Box::new(EvalResult::Num(lit("1")))
        ))
    );
}

#[test]
fn doubled_separator_is_one_cut() {
    assert_eq!(run("2==2", 0.0), Ok(Value::Comp(true)));
    assert_eq!(run("=1=1=", 0.0), Ok(Value::Comp(true)));
}

#[test]
fn comparison_needs_exactly_two_sides() {
    assert_eq!(run("1<2<3", 0.0), Err(EvalError::TooManyOperands));
    assert_eq!(run("1=", 0.0), Err(EvalError::TooManyOperands));
    assert_eq!(run("=", 0.0), Err(EvalError::TooManyOperands));
    assert_eq!(run("1=2=3", 0.0), Err(EvalError::TooManyOperands));
}

#[test]
fn side_may_itself_be_a_comparison() {
    assert_eq!(
        parse_txt("1<2=3", 0),
        Ok(EvalResult::Comp(
            Relation::Less,
            Box::new(EvalResult::Num(lit("1"))),
            Box::new(EvalResult::Comp(
                Relation::Equal,
                Box::new(EvalResult::Num(lit("2"))),
                Box::new(EvalResult::Num(lit("3")))
            ))
        ))
    );
}

#[test]
fn number_is_less_than_and_never_equal_to_a_truth_value() {
    assert_eq!(run("1<2=3", 0.0), Ok(Value::Comp(true)));
    assert_eq!(run("1>2=3", 0.0), Ok(Value::Comp(false)));
    assert_eq!(run("2=3>1", 0.0), Ok(Value::Comp(false)));
    assert_eq!(run("2>1<3", 0.0), Ok(Value::Comp(false)));
}

#[test]
fn failure_of_a_side_is_the_failure_of_the_comparison() {
    assert_eq!(run("2@3=1", 0.0), Err(EvalError::UnexpectedCharacter('@')));
    assert_eq!(run("1=2+", 0.0), Err(EvalError::InsufficientValues));
    assert_eq!(run("1=1.2.3", 0.0), Err(EvalError::InvalidNumber));
    assert_eq!(run("(=1.2.3", 0.0), Err(EvalError::InvalidExpression));
    assert_eq!(run(")=1.2.3", 0.0), Err(EvalError::MismatchedParentheses));
}

#[test]
fn separator_is_the_byte_at_the_given_position() {
    assert_eq!(
        equation_comparison("2+2=4", 3),
        Ok(EvalResult::Comp(
            Relation::Equal,
            Box::new(EvalResult::Num(binary(Operator::Add, lit("2"), lit("2")))),
            Box::new(EvalResult::Num(lit("4")))
        ))
    );
    assert_eq!(equation_comparison("1<2>3", 3), parse_txt("1<2", 0).and_then(|left| {
        Ok(EvalResult::Comp(Relation::Greater, Box::new(left), Box::new(EvalResult::Num(lit("3")))))
    }));
}

#[test]
fn separator_that_is_no_comparator_fails_after_both_sides() {
    assert_eq!(equation_comparison("1+2", 1), Err(EvalError::ComparisonFailed));
    assert_eq!(equation_comparison("1+2@", 1), Err(EvalError::UnexpectedCharacter('@')));
    assert_eq!(equation_comparison("1+2+3", 1), Err(EvalError::TooManyOperands));
    assert_eq!(equation_comparison("12", 0), Err(EvalError::TooManyOperands));
}

#[test]
fn separator_byte_inside_a_wider_character() {
    assert_eq!(equation_comparison("\u{e9}", 1), Err(EvalError::TooManyOperands));
    assert_eq!(equation_comparison("1\u{a9}2", 2), Err(EvalError::ComparisonFailed));
    assert_eq!(equation_comparison("1\u{a9}2\u{e9}", 5), Err(EvalError::InvalidExpression));
}

#[test]
fn malformed_input_is_an_error() {
    assert_eq!(run(")", 0.0), Err(EvalError::MismatchedParentheses));
    assert!(run("2+", 0.0).is_err());
    assert_eq!(run("2@3", 0.0), Err(EvalError::UnexpectedCharacter('@')));
    assert_eq!(run("", 0.0), Err(EvalError::InvalidExpression));
    assert_eq!(run("()", 0.0), Err(EvalError::MismatchedParentheses));
    assert_eq!(run("(", 0.0), Err(EvalError::InvalidExpression));
    assert_eq!(run("sin", 0.0), Err(EvalError::InvalidExpression));
}

#[test]
fn operator_without_two_operands_is_insufficient() {
    assert_eq!(run("2+", 0.0), Err(EvalError::InsufficientValues));
    assert_eq!(run("+2", 0.0), Err(EvalError::InsufficientValues));
    assert_eq!(run("*", 0.0), Err(EvalError::InsufficientValues));
    assert_eq!(run("2*/3", 0.0), Err(EvalError::InsufficientValues));
    assert_eq!(run("(2+)", 0.0), Err(EvalError::InsufficientValues));
}

#[test]
fn unknown_names_are_rejected() {
    assert_eq!(run("foo(1)", 0.0), Err(EvalError::UnknownFunction("foo".to_string())));
    assert_eq!(run("Sin(0)", 0.0), Err(EvalError::UnknownFunction("Sin".to_string())));
    assert_eq!(run("foo(", 0.0), Err(EvalError::InvalidExpression));
    assert_eq!(
        evaluate_expression(&[Token::Constant("tau".to_string())]),
        Err(EvalError::UnknownConstant("tau".to_string()))
    );
}

#[test]
fn argument_fails_before_the_function_name_is_looked_up() {
    assert_eq!(run("foo()", 0.0), Err(EvalError::MismatchedParentheses));
    assert_eq!(run("foo(2+)", 0.0), Err(EvalError::InsufficientValues));
}

#[test]
fn unknown_operator_symbol_is_rejected() {
    let tokens = vec![
        Token::Number(Number::Literal("1".to_string())),
        Token::Operator('%'),
        Token::Number(Number::Literal("2".to_string())),
    ];
    assert_eq!(evaluate_expression(&tokens), Err(EvalError::UnexpectedOperator('%')));
}

#[test]
fn tokens_after_the_first_scope_are_ignored() {
    assert_eq!(run("2)+5", 0.0), Ok(Value::Num(2.0)));
    assert_eq!(run("1+2)3", 0.0), Ok(Value::Num(3.0)));
}

#[test]
fn end_of_input_closes_open_scopes() {
    assert_eq!(run("(2+3", 0.0), Ok(Value::Num(5.0)));
    assert_eq!(run("2*(3+4", 0.0), Ok(Value::Num(14.0)));
}

#[test]
fn operand_on_top_is_the_value() {
    assert_eq!(run("2(3)", 0.0), Ok(Value::Num(3.0)));
    assert_eq!(run("1+2(4)", 0.0), Ok(Value::Num(6.0)));
}

#[test]
fn division_by_zero_is_no_error() {
    assert_eq!(run("1/0", 0.0), Ok(Value::Num(f64::INFINITY)));
    assert_eq!(run("-1/0", 0.0), Ok(Value::Num(f64::NEG_INFINITY)));
    match run("0/0", 0.0) {
        Ok(Value::Num(x)) => assert!(x.is_nan()),
        other => panic!("unexpected outcome {:?}", other),
    }
}

#[test]
fn parse_tokens_returns_the_position_after_the_scope() {
    let tokens = tokens_of("(1+2)*3");
    assert_eq!(
        parse_tokens(&tokens, 1),
        Ok((binary(Operator::Add, lit("1"), lit("2")), 5))
    );
    assert_eq!(
        parse_tokens(&tokens, 0),
        Ok((binary(Operator::Mul, binary(Operator::Add, lit("1"), lit("2")), lit("3")), 7))
    );
    assert_eq!(parse_tokens(&tokens, 6), Ok((lit("3"), 7)));
    assert_eq!(parse_tokens(&tokens, 4), Err(EvalError::MismatchedParentheses));
}

#[test]
fn parse_tokens_past_the_end_finds_no_value() {
    let tokens = tokens_of("1+2");
    assert_eq!(parse_tokens(&tokens, 3), Err(EvalError::InvalidExpression));
    assert_eq!(parse_tokens(&tokens, 9), Err(EvalError::InvalidExpression));
    assert_eq!(parse_tokens(&[], 0), Err(EvalError::InvalidExpression));
}

#[test]
fn apply_operator_joins_the_two_operands_on_top() {
    let mut values = vec![lit("1"), lit("2"), lit("3")];
    assert_eq!(apply_operator(&mut values, '-'), Ok(()));
    assert_eq!(values, vec![lit("1"), binary(Operator::Sub, lit("2"), lit("3"))]);
    assert_eq!(apply_operator(&mut values, '^'), Ok(()));
    assert_eq!(
        values,
        vec![binary(Operator::Pow, lit("1"), binary(Operator::Sub, lit("2"), lit("3")))]
    );
}

#[test]
fn apply_operator_fails_on_fewer_than_two_operands() {
    let mut one = vec![lit("1")];
    assert_eq!(apply_operator(&mut one, '+'), Err(EvalError::InsufficientValues));
    assert_eq!(one, vec![]);
    let mut none: Vec<Expr> = vec![];
    assert_eq!(apply_operator(&mut none, '+'), Err(EvalError::InsufficientValues));
    assert_eq!(none, vec![]);
}

#[test]
fn apply_operator_fails_on_an_unknown_symbol() {
    let mut values = vec![lit("1"), lit("2"), lit("3")];
    assert_eq!(apply_operator(&mut values, '?'), Err(EvalError::UnexpectedOperator('?')));
    assert_eq!(values, vec![lit("1")]);
    let mut one = vec![lit("1")];
    assert_eq!(apply_operator(&mut one, '?'), Err(EvalError::InsufficientValues));
}

#[test]
fn unwind_stops_below_the_floor() {
    let values = vec![lit("1"), lit("2"), lit("3")];
    let (values, ops) = unwind(values, vec!['+', '*'], 2).unwrap();
    assert_eq!(values, vec![lit("1"), binary(Operator::Mul, lit("2"), lit("3"))]);
    assert_eq!(ops, vec!['+']);
    let (values, ops) = unwind(values, ops, 2).unwrap();
    assert_eq!(values, vec![lit("1"), binary(Operator::Mul, lit("2"), lit("3"))]);
    assert_eq!(ops, vec!['+']);
    let (values, ops) = unwind(values, ops, 0).unwrap();
    assert_eq!(
        values,
        vec![binary(Operator::Add, lit("1"), binary(Operator::Mul, lit("2"), lit("3")))]
    );
    assert_eq!(ops, Vec::<char>::new());
}

#[test]
fn unwind_applies_equal_strength() {
    let values = vec![lit("1"), lit("2")];
    let (values, ops) = unwind(values, vec!['-'], 1).unwrap();
    assert_eq!(values, vec![binary(Operator::Sub, lit("1"), lit("2"))]);
    assert_eq!(ops, Vec::<char>::new());
}

#[test]
fn unwind_fails_where_an_operator_lacks_operands() {
    assert_eq!(unwind(vec![lit("1")], vec!['+'], 0), Err(EvalError::InsufficientValues));
    assert_eq!(
        unwind(vec![lit("1"), lit("2")], vec!['%'], 0),
        Err(EvalError::UnexpectedOperator('%'))
    );
    assert_eq!(unwind(vec![], vec![], 3), Ok((vec![], vec![])));
}

#[test]
fn lookups_by_name_and_symbol() {
    assert_eq!(Constant::lookup("pi"), Some(Constant::Pi));
    assert_eq!(Constant::lookup("e"), Some(Constant::E));
    assert_eq!(Constant::lookup("Pi"), None);
    assert_eq!(Function::lookup("sin"), Some(Function::Sin));
    assert_eq!(Function::lookup("cos"), Some(Function::Cos));
    assert_eq!(Function::lookup("tan"), Some(Function::Tan));
    assert_eq!(Function::lookup("asin"), Some(Function::Asin));
    assert_eq!(Function::lookup("acos"), Some(Function::Acos));
    assert_eq!(Function::lookup("atan"), Some(Function::Atan));
    assert_eq!(Function::lookup("sqrt"), Some(Function::Sqrt));
    assert_eq!(Function::lookup("abs"), Some(Function::Abs));
    assert_eq!(Function::lookup("ln"), Some(Function::Ln));
    assert_eq!(Function::lookup("exp"), Some(Function::Exp));
    assert_eq!(Function::lookup("log"), None);
    assert_eq!(Function::lookup(""), None);
    assert_eq!(Operator::lookup('+'), Some(Operator::Add));
    assert_eq!(Operator::lookup('-'), Some(Operator::Sub));
    assert_eq!(Operator::lookup('*'), Some(Operator::Mul));
    assert_eq!(Operator::lookup('/'), Some(Operator::Div));
    assert_eq!(Operator::lookup('^'), Some(Operator::Pow));
    assert_eq!(Operator::lookup('='), None);
    assert_eq!(Relation::lookup('='), Some(Relation::Equal));
    assert_eq!(Relation::lookup('>'), Some(Relation::Greater));
    assert_eq!(Relation::lookup('<'), Some(Relation::Less));
    assert_eq!(Relation::lookup('!'), None);
}

#[test]
fn same_input_gives_the_same_result() {
    let bits = 1.5f64.to_bits();
    for text in ["2+3*4", "ans^2", "sin(ans)>0", "2+", "1<2<3", "\u{e9}"] {
        assert_eq!(parse_txt(text, bits), parse_txt(text, bits));
    }
}

#[test]
fn clones_are_equal() {
    let n = Number::Literal("1.5".to_string());
    assert_eq!(n.clone(), n);
    let t = Token::Function("sin".to_string());
    assert_eq!(t.clone(), t);
    assert_eq!(Token::Number(Number::Bits(3)).clone(), Token::Number(Number::Bits(3)));
}
