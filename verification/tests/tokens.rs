use calc_engine::error::EvalError;
use calc_engine::text::CharClass;
use calc_engine::token::{Number, Token};
use calc_engine::tokenizer::{check_digits, expects_sign, next_token, tokenize};

fn literal(text: &str) -> Token {
    Token::Number(Number::Literal(text.to_string()))
}

fn operator(symbol: char) -> Token {
    Token::Operator(symbol)
}

#[test]
fn tokens_come_in_input_order() {
    assert_eq!(
        tokenize("2+3*4", 0),
        Ok(vec![literal("2"), operator('+'), literal("3"), operator('*'), literal("4")])
    );
}

#[test]
fn empty_input_has_no_tokens() {
    assert_eq!(tokenize("", 0), Ok(vec![]));
}

#[test]
fn literal_takes_the_longest_run_of_digits_and_points() {
    assert_eq!(tokenize("12.50)", 0), Ok(vec![literal("12.50"), Token::RightParen]));
    assert_eq!(tokenize(".5", 0), Ok(vec![literal(".5")]));
    assert_eq!(tokenize("5.", 0), Ok(vec![literal("5.")]));
}

#[test]
fn literal_with_two_points_is_invalid() {
    assert_eq!(tokenize("1.2.3", 0), Err(EvalError::InvalidNumber));
    assert_eq!(tokenize("1..2", 0), Err(EvalError::InvalidNumber));
}

#[test]
fn literal_without_digit_is_invalid() {
    assert_eq!(tokenize(".", 0), Err(EvalError::InvalidNumber));
    assert_eq!(tokenize("-.", 0), Err(EvalError::InvalidNumber));
    assert_eq!(tokenize("2+.", 0), Err(EvalError::InvalidNumber));
}

#[test]
fn ans_stands_for_the_given_bits() {
    let bits = 4.0f64.to_bits();
    assert_eq!(
        tokenize("ans+1", bits),
        Ok(vec![Token::Number(Number::Bits(bits)), operator('+'), literal("1")])
    );
}

#[test]
fn ans_is_recognised_only_as_a_whole_word_start() {
    assert_eq!(tokenize("an", 0), Ok(vec![Token::Function("an".to_string())]));
    assert_eq!(
        tokenize("ansans", 7),
        Ok(vec![Token::Number(Number::Bits(7)), Token::Number(Number::Bits(7))])
    );
    assert_eq!(tokenize("asin", 0), Ok(vec![Token::Function("asin".to_string())]));
}

#[test]
fn minus_at_the_start_is_a_sign() {
    assert_eq!(tokenize("-5+3", 0), Ok(vec![literal("-5"), operator('+'), literal("3")]));
    assert_eq!(tokenize("-.5", 0), Ok(vec![literal("-.5")]));
}

#[test]
fn minus_after_an_operator_is_a_sign() {
    assert_eq!(tokenize("3*-2", 0), Ok(vec![literal("3"), operator('*'), literal("-2")]));
    assert_eq!(
        tokenize("2--3", 0),
        Ok(vec![literal("2"), operator('-'), literal("-3")])
    );
}

#[test]
fn minus_after_an_opening_parenthesis_is_a_sign() {
    assert_eq!(
        tokenize("(-1)", 0),
        Ok(vec![Token::LeftParen, literal("-1"), Token::RightParen])
    );
}

#[test]
fn minus_after_an_operand_is_an_operator() {
    assert_eq!(tokenize("10-2", 0), Ok(vec![literal("10"), operator('-'), literal("2")]));
    assert_eq!(
        tokenize("(1)-2", 0),
        Ok(vec![Token::LeftParen, literal("1"), Token::RightParen, operator('-'), literal("2")])
    );
    assert_eq!(
        tokenize("pi-e", 0),
        Ok(vec![
            Token::Constant("pi".to_string()),
            operator('-'),
            Token::Constant("e".to_string())
        ])
    );
    assert_eq!(tokenize("2-", 0), Ok(vec![literal("2"), operator('-')]));
}

#[test]
fn sign_before_a_parenthesis_is_rejected() {
    assert_eq!(tokenize("-(2+3)", 0), Err(EvalError::UnexpectedCharacterAfterMinus('(')));
    assert_eq!(tokenize("2*-pi", 0), Err(EvalError::UnexpectedCharacterAfterMinus('p')));
}

#[test]
fn sign_at_the_end_is_rejected() {
    assert_eq!(tokenize("-", 0), Err(EvalError::UnexpectedEndOfInput));
    assert_eq!(tokenize("2+-", 0), Err(EvalError::UnexpectedEndOfInput));
}

#[test]
fn constants_are_recognised_by_prefix() {
    assert_eq!(tokenize("pi", 0), Ok(vec![Token::Constant("pi".to_string())]));
    assert_eq!(tokenize("e", 0), Ok(vec![Token::Constant("e".to_string())]));
    assert_eq!(
        tokenize("pie", 0),
        Ok(vec![Token::Constant("pi".to_string()), Token::Constant("e".to_string())])
    );
    assert_eq!(
        tokenize("ex", 0),
        Ok(vec![Token::Constant("e".to_string()), Token::Function("x".to_string())])
    );
}

#[test]
fn exp_is_a_function_name() {
    assert_eq!(
        tokenize("exp(1)", 0),
        Ok(vec![
            Token::Function("exp".to_string()),
            Token::LeftParen,
            literal("1"),
            Token::RightParen
        ])
    );
    assert_eq!(tokenize("expo", 0), Ok(vec![Token::Function("expo".to_string())]));
}

#[test]
fn words_are_function_names() {
    assert_eq!(
        tokenize("sqrt(16)", 0),
        Ok(vec![
            Token::Function("sqrt".to_string()),
            Token::LeftParen,
            literal("16"),
            Token::RightParen
        ])
    );
    assert_eq!(tokenize("p", 0), Ok(vec![Token::Function("p".to_string())]));
    assert_eq!(tokenize("Sin", 0), Ok(vec![Token::Function("Sin".to_string())]));
}

#[test]
fn letters_beyond_ascii_form_words() {
    assert_eq!(
        tokenize("\u{e9}t\u{e9}", 0),
        Ok(vec![Token::Function("\u{e9}t\u{e9}".to_string())])
    );
    assert_eq!(
        tokenize("\u{4eac}+1", 0),
        Ok(vec![Token::Function("\u{4eac}".to_string()), operator('+'), literal("1")])
    );
}

#[test]
fn other_characters_are_rejected() {
    assert_eq!(tokenize("2@3", 0), Err(EvalError::UnexpectedCharacter('@')));
    assert_eq!(tokenize("2 +3", 0), Err(EvalError::UnexpectedCharacter(' ')));
    assert_eq!(tokenize("\u{1f49d}", 0), Err(EvalError::UnexpectedCharacter('\u{1f49d}')));
    assert_eq!(tokenize("1_000", 0), Err(EvalError::UnexpectedCharacter('_')));
}

#[test]
fn first_failure_wins() {
    assert_eq!(tokenize("1.2.3@", 0), Err(EvalError::InvalidNumber));
    assert_eq!(tokenize("@1.2.3", 0), Err(EvalError::UnexpectedCharacter('@')));
}

#[test]
fn next_token_reports_where_the_token_ends() {
    let text: Vec<char> = "12+sin".chars().collect();
    assert_eq!(next_token(&text, 0, 0, true), Ok((literal("12"), 2)));
    assert_eq!(next_token(&text, 0, 2, false), Ok((operator('+'), 3)));
    assert_eq!(next_token(&text, 0, 3, true), Ok((Token::Function("sin".to_string()), 6)));
}

#[test]
fn next_token_reads_minus_by_the_sign_flag() {
    let text: Vec<char> = "-7".chars().collect();
    assert_eq!(next_token(&text, 0, 0, true), Ok((literal("-7"), 2)));
    assert_eq!(next_token(&text, 0, 0, false), Ok((operator('-'), 1)));
}

#[test]
fn sign_is_expected_after_nothing_an_operator_or_an_opening_parenthesis() {
    assert!(expects_sign(&vec![]));
    assert!(expects_sign(&vec![literal("1"), operator('/')]));
    assert!(expects_sign(&vec![Token::LeftParen]));
    assert!(!expects_sign(&vec![literal("1")]));
    assert!(!expects_sign(&vec![Token::RightParen]));
    assert!(!expects_sign(&vec![Token::Constant("pi".to_string())]));
    assert!(!expects_sign(&vec![Token::Function("sin".to_string())]));
}

#[test]
fn digits_need_a_digit_and_at_most_one_point() {
    let text: Vec<char> = "x1.5.".chars().collect();
    assert!(check_digits(&text, 1, 4));
    assert!(check_digits(&text, 1, 2));
    assert!(!check_digits(&text, 1, 5));
    assert!(!check_digits(&text, 2, 3));
    assert!(!check_digits(&text, 2, 2));
}

#[test]
fn character_classes() {
    assert!(CharClass::Numeric.contains('0'));
    assert!(CharClass::Numeric.contains('9'));
    assert!(CharClass::Numeric.contains('.'));
    assert!(!CharClass::Numeric.contains('-'));
    assert!(!CharClass::Numeric.contains('\u{663}'));
    assert!(CharClass::Letter.contains('a'));
    assert!(CharClass::Letter.contains('Z'));
    assert!(CharClass::Letter.contains('\u{e9}'));
    assert!(!CharClass::Letter.contains('1'));
    assert!(!CharClass::Letter.contains('_'));
    assert!(!CharClass::Letter.contains('\u{d7}'));
    assert!(CharClass::Except('=').contains('<'));
    assert!(!CharClass::Except('=').contains('='));
    assert!(CharClass::Plain.contains('+'));
    assert!(!CharClass::Plain.contains('='));
    assert!(!CharClass::Plain.contains('<'));
    assert!(!CharClass::Plain.contains('>'));
}

#[test]
fn messages_describe_the_failure() {
    assert_eq!(EvalError::InvalidNumber.message(), "Invalid number format");
    assert_eq!(
        EvalError::UnexpectedCharacterAfterMinus('(').message(),
        "Unexpected character after '-'"
    );
    assert_eq!(EvalError::UnexpectedEndOfInput.message(), "Unexpected end of input after '-'");
    assert_eq!(EvalError::UnexpectedCharacter('@').message(), "Unexpected character: @");
    assert_eq!(EvalError::UnknownConstant("tau".to_string()).message(), "Unknown constant: tau");
    assert_eq!(EvalError::UnknownFunction("foo".to_string()).message(), "Unknown function: foo");
    assert_eq!(EvalError::MismatchedParentheses.message(), "Mismatched parentheses");
    assert_eq!(EvalError::InvalidExpression.message(), "Invalid expression");
    assert_eq!(EvalError::InsufficientValues.message(), "Insufficient values in expression");
    assert_eq!(EvalError::UnexpectedOperator('%').message(), "Unexpected operator: %");
    assert_eq!(EvalError::TooManyOperands.message(), "Can only compare 2 equations");
    assert_eq!(EvalError::ComparisonFailed.message(), "Comparison Failed");
}
