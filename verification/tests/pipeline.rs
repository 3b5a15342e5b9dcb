use calculator::evaluate_expression;
use calculator::ExpressionError;

fn eval(s: &str) -> Result<i64, ExpressionError> {
    evaluate_expression(s.to_string())
}

#[test]
fn single_literal() {
    assert_eq!(eval("0"), Ok(0));
    assert_eq!(eval("7"), Ok(7));
    assert_eq!(eval("12345"), Ok(12345));
}

#[test]
fn largest_literal() {
    assert_eq!(eval("9223372036854775807"), Ok(i64::MAX));
}

#[test]
fn literal_with_whitespace() {
    assert_eq!(eval("  42  "), Ok(42));
}

#[test]
fn precedence_mul_over_add() {
    assert_eq!(eval("2+3*4"), Ok(14));
}

#[test]
fn precedence_brackets() {
    assert_eq!(eval("(2+3)*4"), Ok(20));
}

#[test]
fn left_to_right_subtraction() {
    assert_eq!(eval("10-3-2"), Ok(5));
}

#[test]
fn left_to_right_division() {
    assert_eq!(eval("20/4/5"), Ok(1));
}

#[test]
fn nested_brackets() {
    assert_eq!(eval("((1+2)*(3+4))"), Ok(21));
}

#[test]
fn division_truncates() {
    assert_eq!(eval("7/2"), Ok(3));
}

#[test]
fn division_truncates_toward_zero() {
    assert_eq!(eval("(0-7)/2"), Ok(-3));
}

#[test]
fn reevaluation_is_stable() {
    let line = "6*7-2";
    let first = eval(line);
    let second = eval(line);
    let third = eval(line);
    assert_eq!(first, Ok(40));
    assert_eq!(second, Ok(40));
    assert_eq!(third, Ok(40));
}

#[test]
fn unmatched_open_bracket() {
    assert_eq!(eval("1+(2*3"), Err(ExpressionError::UnmatchedOpenBracket));
}

#[test]
fn unmatched_close_bracket() {
    assert_eq!(eval("1+2)"), Err(ExpressionError::UnmatchedCloseBracket));
}

#[test]
fn division_by_zero() {
    assert_eq!(eval("5/0"), Err(ExpressionError::DivisionByZero));
}

#[test]
fn leading_operator() {
    assert_eq!(eval("*5"), Err(ExpressionError::MalformedOperand));
}

#[test]
fn empty_line() {
    assert_eq!(eval(""), Err(ExpressionError::MalformedResult));
}

#[test]
fn whitespace_line() {
    assert_eq!(eval("   "), Err(ExpressionError::MalformedResult));
}

#[test]
fn oversized_literal_overflows() {
    assert_eq!(eval("99999999999999999999"), Err(ExpressionError::NumericOverflow));
}

#[test]
fn addition_overflow() {
    assert_eq!(eval("9223372036854775807+1"), Err(ExpressionError::NumericOverflow));
}

#[test]
fn subtraction_overflow() {
    assert_eq!(eval("0-9223372036854775807-2"), Err(ExpressionError::NumericOverflow));
}

#[test]
fn division_overflow() {
    assert_eq!(
        eval("(0-9223372036854775807-1)/(0-1)"),
        Err(ExpressionError::NumericOverflow)
    );
}

#[test]
fn letters_are_skipped() {
    assert_eq!(eval("1a+2b"), Ok(3));
}

#[test]
fn junk_lines_still_answer() {
    assert!(eval("a!b@c").is_err());
    assert!(eval("((((").is_err());
    assert!(eval("))))").is_err());
    assert_eq!(eval("1+ +2"), Err(ExpressionError::MalformedOperand));
    assert_eq!(eval("abc 12 def 34"), Err(ExpressionError::MalformedResult));
}
