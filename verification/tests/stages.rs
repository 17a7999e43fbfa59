use rpn_calc::ConvertError;
use rpn_calc::EvalError;
use rpn_calc::LexError;
use rpn_calc::Token;

fn chars(s: &str) -> Vec<char> {
    s.chars().collect()
}

fn stage_parse(buf: Vec<char>) -> f64 {
    let s: String = buf.into_iter().collect();
    s.parse::<f64>().unwrap()
}

fn stage_apply(op: char, a: f64, b: f64) -> f64 {
    match op {
        '+' => a + b,
        '-' => a - b,
        '*' => a * b,
        '/' => a / b,
        _ => unreachable!(),
    }
}

#[test]
fn tokenize_splits_numerals_at_symbols() {
    let toks = rpn_calc::tokenize("12+3.5").unwrap();
    let expected = vec![
        Token::Number(chars("12")),
        Token::Operation('+'),
        Token::Number(chars("3.5")),
    ];
    assert_eq!(toks, expected);
}

#[test]
fn tokenize_keeps_reading_order() {
    let toks = rpn_calc::tokenize("(1 - 2) * 3 / 4").unwrap();
    let expected = vec![
        Token::LeftParen,
        Token::Number(chars("1")),
        Token::Operation('-'),
        Token::Number(chars("2")),
        Token::RightParen,
        Token::Operation('*'),
        Token::Number(chars("3")),
        Token::Operation('/'),
        Token::Number(chars("4")),
    ];
    assert_eq!(toks, expected);
}

#[test]
fn tokenize_reports_lex_errors() {
    assert_eq!(rpn_calc::tokenize("1.2.3"), Err(LexError::InvalidNumber));
    assert_eq!(rpn_calc::tokenize("hello"), Err(LexError::EmptyInput));
}

#[test]
fn shunting_yard_consumes_balanced_parens() {
    let toks = vec![
        Token::LeftParen,
        Token::Number(1.0),
        Token::Operation('+'),
        Token::Number(2.0),
        Token::RightParen,
    ];
    let post = rpn_calc::shunting_yard(toks).unwrap();
    let expected = vec![Token::Number(1.0), Token::Number(2.0), Token::Operation('+')];
    assert_eq!(post, expected);
}

#[test]
fn shunting_yard_rejects_lone_left_paren() {
    let toks: Vec<Token<f64>> = vec![Token::LeftParen];
    assert_eq!(
        rpn_calc::shunting_yard(toks),
        Err(ConvertError::MismatchedParentheses)
    );
}

#[test]
fn evaluate_pops_right_operand_first() {
    let post = vec![Token::Number(10.0), Token::Number(4.0), Token::Operation('-')];
    assert_eq!(rpn_calc::evaluate(post, stage_apply), Ok(6.0));
}

#[test]
fn evaluate_rejects_parenthesis_tokens() {
    let post: Vec<Token<f64>> = vec![Token::LeftParen];
    assert_eq!(
        rpn_calc::evaluate(post, stage_apply),
        Err(EvalError::MalformedToken)
    );
}

#[test]
fn evaluate_rejects_empty_input() {
    let post: Vec<Token<f64>> = vec![];
    assert_eq!(
        rpn_calc::evaluate(post, stage_apply),
        Err(EvalError::EmptyResult)
    );
}

#[test]
fn evaluate_underflows_on_missing_operand() {
    let post = vec![Token::Number(1.0), Token::Operation('+')];
    assert_eq!(
        rpn_calc::evaluate(post, stage_apply),
        Err(EvalError::InsufficientOperands)
    );
}

#[test]
fn evaluate_returns_topmost_of_leftover_values() {
    let post = vec![Token::Number(1.0), Token::Number(2.0)];
    assert_eq!(rpn_calc::evaluate(post, stage_apply), Ok(2.0));
}

#[test]
fn parse_numbers_keeps_the_shape() {
    let toks = rpn_calc::tokenize("1+(2.5)").unwrap();
    let parsed = rpn_calc::parse_numbers(&toks, &stage_parse);
    let expected = vec![
        Token::Number(1.0),
        Token::Operation('+'),
        Token::LeftParen,
        Token::Number(2.5),
        Token::RightParen,
    ];
    assert_eq!(parsed, expected);
}

#[test]
fn precedence_ranks_operators() {
    assert_eq!(rpn_calc::precedence('+'), 1);
    assert_eq!(rpn_calc::precedence('-'), 1);
    assert_eq!(rpn_calc::precedence('*'), 2);
    assert_eq!(rpn_calc::precedence('/'), 2);
    assert_eq!(rpn_calc::precedence('('), 0);
    assert_eq!(rpn_calc::precedence('x'), 0);
}
