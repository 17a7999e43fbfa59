use rpn_calc::CalcError;
use rpn_calc::Token;

fn num_parse(buf: Vec<char>) -> f64 {
    let s: String = buf.into_iter().collect();
    s.parse::<f64>().unwrap()
}

fn num_apply(op: char, a: f64, b: f64) -> f64 {
    match op {
        '+' => a + b,
        '-' => a - b,
        '*' => a * b,
        '/' => a / b,
        _ => unreachable!(),
    }
}

fn run(input: &str) -> Result<f64, CalcError> {
    rpn_calc::evaluate_text(input, num_parse, num_apply)
}

#[test]
fn single_number_unchanged() {
    assert_eq!(run("42"), Ok(42.0));
    assert_eq!(run("3.5"), Ok(3.5));
    assert_eq!(run("007"), Ok(7.0));
    assert_eq!(run(".5"), Ok(0.5));
    assert_eq!(run("5."), Ok(5.0));
}

#[test]
fn multiplication_binds_tighter() {
    assert_eq!(run("3 + 4 * 2"), Ok(11.0));
}

#[test]
fn postfix_order_of_mixed_precedence() {
    let toks = rpn_calc::tokenize("3 + 4 * 2").unwrap();
    let parsed = rpn_calc::parse_numbers(&toks, &num_parse);
    let post = rpn_calc::shunting_yard(parsed).unwrap();
    let expected = vec![
        Token::Number(3.0),
        Token::Number(4.0),
        Token::Number(2.0),
        Token::Operation('*'),
        Token::Operation('+'),
    ];
    assert_eq!(post, expected);
}

#[test]
fn parentheses_override_precedence() {
    assert_eq!(run("(3 + 4) * 2"), Ok(14.0));
}

#[test]
fn equal_precedence_chains_left() {
    assert_eq!(run("10 / 2 / 5"), Ok(1.0));
    assert_eq!(run("10 - 3 - 2"), Ok(5.0));
}

#[test]
fn nested_parentheses_group() {
    assert_eq!(run("((1 + 2)) * 3"), Ok(9.0));
    assert_eq!(run("2 * (3 + 4) - 5"), Ok(9.0));
    assert_eq!(run("(2 + 3) * (4 - 1)"), Ok(15.0));
}

#[test]
fn unclosed_left_paren_fails() {
    assert_eq!(run("(1 + 2"), Err(CalcError::MismatchedParentheses));
}

#[test]
fn empty_and_whitespace_input_fail() {
    assert_eq!(run(""), Err(CalcError::EmptyInput));
    assert_eq!(run("   \t\n"), Err(CalcError::EmptyInput));
}

#[test]
fn trailing_operator_fails() {
    assert_eq!(run("1 + "), Err(CalcError::InsufficientOperands));
}

#[test]
fn letters_only_input_is_empty() {
    assert_eq!(run("abc"), Err(CalcError::EmptyInput));
}

#[test]
fn two_decimal_points_fail() {
    assert_eq!(run("1..2"), Err(CalcError::InvalidNumber));
}

#[test]
fn lone_decimal_points_fail() {
    assert_eq!(run("..."), Err(CalcError::InvalidNumber));
    assert_eq!(run(". + 1"), Err(CalcError::InvalidNumber));
}

#[test]
fn rerunning_gives_identical_results() {
    for input in ["3 + 4 * 2", "(1 + 2", "", "1..2", "10 / 4"] {
        assert_eq!(run(input), run(input));
    }
}

#[test]
fn leading_minus_is_a_binary_operator() {
    assert_eq!(run("-5"), Err(CalcError::InsufficientOperands));
    assert_eq!(run("-5 + 3"), Err(CalcError::InsufficientOperands));
}

#[test]
fn unmatched_right_paren_is_ignored() {
    assert_eq!(run("1 + 2)"), Ok(3.0));
    assert_eq!(run(")"), Err(CalcError::EmptyResult));
}

#[test]
fn division_by_zero_gives_infinity() {
    let r = run("1 / 0").unwrap();
    assert!(r.is_infinite() && r > 0.0);
}

#[test]
fn skipped_characters_do_not_split_numerals() {
    assert_eq!(run("1 2"), Ok(12.0));
    assert_eq!(run("1a2 + 3"), Ok(15.0));
}

#[test]
fn error_messages_classify_the_failure() {
    assert_eq!(CalcError::InvalidNumber.message(), "Invalid number entered.");
    assert_eq!(CalcError::EmptyInput.message(), "No tokens found.");
    assert_eq!(
        CalcError::MismatchedParentheses.message(),
        "Mismatched parentheses"
    );
    assert_eq!(
        CalcError::InsufficientOperands.message(),
        "Insufficient operands."
    );
    assert_eq!(
        CalcError::MalformedToken.message(),
        "Invalid token in output queue"
    );
    assert_eq!(CalcError::EmptyResult.message(), "Invalid expression.");
}
