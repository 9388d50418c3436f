use num::bigint::BigInt;
use num::rational::BigRational;
use num::traits::ToPrimitive;
use ratcalc::compute::EvaluationError;
use ratcalc::lexer::{Lexer, TokenType};
use ratcalc::parser::{Atom, Operator, ParseError, Parser};
use ratcalc::value::Value;
use ratcalc::{evaluate, Error};

fn to_value(ratio: &BigRational) -> Value {
    let numer = Value::from_signed_bytes_le(&ratio.numer().to_signed_bytes_le());
    let denom = Value::from_signed_bytes_le(&ratio.denom().to_signed_bytes_le());
    numer.checked_div(&denom).unwrap()
}

fn to_ratio(value: &Value) -> BigRational {
    BigRational::new(
        BigInt::from_signed_bytes_le(value.numer()),
        BigInt::from_signed_bytes_le(value.denom()),
    )
}

fn literal(text: &str) -> Option<Value> {
    let float: f64 = text.parse().ok()?;
    BigRational::from_float(float).map(|ratio| to_value(&ratio))
}

fn power(base: &Value, exponent: &Value) -> Option<Value> {
    let base = to_ratio(base).to_f64()?;
    let exponent = to_ratio(exponent).to_f64()?;
    BigRational::from_float(base.powf(exponent)).map(|ratio| to_value(&ratio))
}

fn eval(line: &str) -> Result<Value, Error> {
    evaluate(line, &literal, &power)
}

fn number(atom: &Atom) -> Option<Value> {
    match atom {
        Atom::Number(number) => Some(number.clone()),
        Atom::Expr(_) => None,
    }
}

fn whole(n: i64) -> Value {
    Value::from_integer(n)
}

fn fraction(n: i64, d: i64) -> Value {
    whole(n).checked_div(&whole(d)).unwrap()
}

#[test]
fn quotient_of_two_whole_literals_is_exact() {
    for a in 0i64..40 {
        for b in 1i64..40 {
            let line = format!("{} / {}", a, b);
            let value = eval(&line).unwrap();
            let expected = BigRational::new(BigInt::from(a), BigInt::from(b));
            assert_eq!(to_ratio(&value), expected, "{}", line);
            assert_eq!(value, fraction(a, b), "{}", line);
        }
    }
}

#[test]
fn quotient_is_in_lowest_terms() {
    let value = eval("6 / 4").unwrap();
    assert_eq!(value.numer(), &[3u8][..]);
    assert_eq!(value.denom(), &[2u8][..]);
    assert_eq!(value, fraction(3, 2));
}

#[test]
fn quotient_of_large_literals() {
    let value = eval("9007199254740992 / 4503599627370496").unwrap();
    assert_eq!(value, whole(2));
    let value = eval("123456789012 / 1000000").unwrap();
    assert_eq!(value, fraction(30864197253, 250000));
}

#[test]
fn subtraction_groups_from_the_left() {
    assert_eq!(eval("2 - 3 - 4"), Ok(whole(-5)));
}

#[test]
fn division_groups_from_the_left() {
    assert_eq!(eval("8 / 4 / 2"), Ok(whole(1)));
}

#[test]
fn power_groups_from_the_right() {
    assert_eq!(eval("2 ^ 3 ^ 2"), Ok(whole(512)));
}

#[test]
fn product_binds_tighter_than_sum() {
    assert_eq!(eval("2 + 3 * 4"), Ok(whole(14)));
    assert_eq!(eval("2 * 3 + 4"), Ok(whole(10)));
}

#[test]
fn parentheses_bind_tightest() {
    assert_eq!(eval("(2 + 3) * 4"), Ok(whole(20)));
}

#[test]
fn power_binds_tighter_than_product() {
    assert_eq!(eval("2 * 3 ^ 2"), Ok(whole(18)));
    assert_eq!(eval("2 ^ 3 * 2"), Ok(whole(16)));
}

#[test]
fn minus_negates_a_sum_in_parentheses() {
    assert_eq!(eval("-(2 + 3)"), Ok(whole(-5)));
}

#[test]
fn minus_binds_tighter_than_power() {
    assert_eq!(eval("-2 ^ 2"), Ok(whole(4)));
}

#[test]
fn minus_negates_every_operand() {
    assert_eq!(eval("-(2 * 3)"), Ok(whole(6)));
    assert_eq!(eval("-(2 ^ 2)"), Ok(fraction(1, 4)));
    assert_eq!(eval("-(2 - (3 - 4))"), Ok(whole(-3)));
}

#[test]
fn plus_changes_nothing() {
    assert_eq!(eval("+2"), Ok(whole(2)));
    assert_eq!(eval("+-+2"), Ok(whole(-2)));
    assert_eq!(eval("--2"), Ok(whole(2)));
    assert_eq!(eval("2 - -3"), Ok(whole(5)));
}

#[test]
fn division_by_zero_is_an_error() {
    assert_eq!(eval("1 / 0"), Err(Error::Evaluation(EvaluationError::DivisionByZero)));
    assert_eq!(eval("1 / (2 - 2)"), Err(Error::Evaluation(EvaluationError::DivisionByZero)));
    assert_eq!(eval("0 / 0"), Err(Error::Evaluation(EvaluationError::DivisionByZero)));
}

#[test]
fn zero_to_a_negative_power_is_a_division_by_zero() {
    assert_eq!(eval("0 ^ -1"), Err(Error::Evaluation(EvaluationError::DivisionByZero)));
}

#[test]
fn zero_to_the_zero_is_one() {
    assert_eq!(eval("0 ^ 0"), Ok(whole(1)));
    assert_eq!(eval("0 ^ 3"), Ok(whole(0)));
}

#[test]
fn malformed_literal_is_named() {
    assert_eq!(
        eval("1.2.3"),
        Err(Error::Parse(ParseError::InvalidNumberLiteral { text: "1.2.3".to_string() }))
    );
    assert_eq!(
        eval("2 + ."),
        Err(Error::Parse(ParseError::InvalidNumberLiteral { text: ".".to_string() }))
    );
}

#[test]
fn trailing_input_is_named() {
    assert_eq!(
        eval("2 + 2 3"),
        Err(Error::Parse(ParseError::TrailingInput { text: "3".to_string() }))
    );
    assert_eq!(
        eval("2 )"),
        Err(Error::Parse(ParseError::TrailingInput { text: ")".to_string() }))
    );
}

#[test]
fn unexpected_token_is_described() {
    assert_eq!(
        eval("(2 3"),
        Err(Error::Parse(ParseError::UnexpectedToken {
            expected: TokenType::ClosingParen,
            found: TokenType::Number,
            text: "3".to_string(),
            pos: 3,
        }))
    );
    assert_eq!(
        eval("2 * abc"),
        Err(Error::Parse(ParseError::UnexpectedToken {
            expected: TokenType::Number,
            found: TokenType::Identifier,
            text: "abc".to_string(),
            pos: 4,
        }))
    );
    assert_eq!(
        eval("2 + * 3"),
        Err(Error::Parse(ParseError::UnexpectedToken {
            expected: TokenType::Number,
            found: TokenType::Asterisk,
            text: "*".to_string(),
            pos: 4,
        }))
    );
}

#[test]
fn end_of_input_is_an_error_where_a_token_has_to_come() {
    assert_eq!(eval(""), Err(Error::Parse(ParseError::UnexpectedEndOfInput)));
    assert_eq!(eval("   "), Err(Error::Parse(ParseError::UnexpectedEndOfInput)));
    assert_eq!(eval("2 +"), Err(Error::Parse(ParseError::UnexpectedEndOfInput)));
    assert_eq!(eval("(2"), Err(Error::Parse(ParseError::UnexpectedEndOfInput)));
    assert_eq!(eval("-"), Err(Error::Parse(ParseError::UnexpectedEndOfInput)));
}

#[test]
fn the_first_error_wins() {
    assert_eq!(
        eval("1.2.3 +"),
        Err(Error::Parse(ParseError::InvalidNumberLiteral { text: "1.2.3".to_string() }))
    );
    assert_eq!(eval("1 / 0 + 2 ^ 0.5 ^ 1.2.3").is_err(), true);
    assert_eq!(
        eval("(1 / 0) ^ (0 - 1) ^ 0.5"),
        Err(Error::Evaluation(EvaluationError::DivisionByZero))
    );
}

#[test]
fn negative_whole_exponent_gives_the_reciprocal() {
    assert_eq!(eval("2 ^ -1"), Ok(fraction(1, 2)));
    assert_eq!(eval("2 ^ -3"), Ok(fraction(1, 8)));
    assert_eq!(eval("(2 / 3) ^ -2"), Ok(fraction(9, 4)));
    assert_eq!(eval("(0 - 2) ^ -1"), Ok(fraction(-1, 2)));
    assert_eq!(eval("(0 - 2) ^ -2"), Ok(fraction(1, 4)));
    assert_eq!(eval("(0 - 2) ^ -3"), Ok(fraction(-1, 8)));
}

#[test]
fn whole_exponent_gives_the_exact_power() {
    assert_eq!(eval("2 ^ 10"), Ok(whole(1024)));
    assert_eq!(eval("(2 / 3) ^ 3"), Ok(fraction(8, 27)));
    assert_eq!(eval("(0 - 3) ^ 3"), Ok(whole(-27)));
    assert_eq!(eval("7 ^ 0"), Ok(whole(1)));
    let big = eval("2 ^ 200").unwrap();
    assert_eq!(to_ratio(&big), BigRational::from_integer(BigInt::from(1) << 200usize));
}

#[test]
fn whole_exponent_beyond_128_bits_is_refused() {
    assert_eq!(
        eval("2 ^ 170141183460469231731687303715884105728"),
        Err(Error::Evaluation(EvaluationError::UnrepresentablePower))
    );
    assert_eq!(
        eval("2 ^ -340282366920938463463374607431768211456"),
        Err(Error::Evaluation(EvaluationError::UnrepresentablePower))
    );
}

#[test]
fn other_exponents_are_approximated() {
    assert_eq!(eval("4 ^ 0.5"), Ok(whole(2)));
    let root = eval("2 ^ 0.5").unwrap();
    let expected = BigRational::from_float(2f64.powf(0.5)).unwrap();
    assert_eq!(to_ratio(&root), expected);
    let tenth = eval("2 ^ (1 / 3)").unwrap();
    let third = (BigRational::from_integer(BigInt::from(1))
        / BigRational::from_integer(BigInt::from(3)))
    .to_f64()
    .unwrap();
    assert_eq!(to_ratio(&tenth), BigRational::from_float(2f64.powf(third)).unwrap());
}

#[test]
fn a_power_without_approximation_is_refused() {
    assert_eq!(
        eval("(0 - 8) ^ 0.5"),
        Err(Error::Evaluation(EvaluationError::UnrepresentablePower))
    );
}

#[test]
fn a_literal_is_the_nearest_binary_fraction() {
    let tenth = eval("0.1").unwrap();
    let expected = BigRational::new(
        BigInt::from(3602879701896397i64),
        BigInt::from(36028797018963968i64),
    );
    assert_eq!(to_ratio(&tenth), expected);
    assert_eq!(eval("0.5"), Ok(fraction(1, 2)));
    assert_eq!(eval(".25"), Ok(fraction(1, 4)));
    assert_eq!(eval("5."), Ok(whole(5)));
    assert_eq!(eval("9007199254740993"), Ok(whole(9007199254740992)));
}

#[test]
fn the_same_line_gives_the_same_result() {
    for line in ["2 + 3 * 4", "1 / 0", "1.2.3", "2 ^ 0.5", "2 + 2 3", "-(2 + 3)"] {
        assert_eq!(eval(line), eval(line), "{}", line);
    }
}

#[test]
fn sums_and_products_of_fractions() {
    assert_eq!(eval("1 / 2 + 1 / 3"), Ok(fraction(5, 6)));
    assert_eq!(eval("1 / 2 - 1 / 3"), Ok(fraction(1, 6)));
    assert_eq!(eval("(2 / 3) * (9 / 4)"), Ok(fraction(3, 2)));
    assert_eq!(eval("(2 / 3) / (4 / 9)"), Ok(fraction(3, 2)));
    assert_eq!(eval("1 / 2 + 1 / 2"), Ok(whole(1)));
    assert_eq!(eval("1 / (0 - 2)"), Ok(fraction(-1, 2)));
}

#[test]
fn parse_gives_the_tree_of_precedence_climbing() {
    let mut parser = Parser::new(Lexer::new("1 + 2 * 3 - 4"));
    let expression = parser.parse(&literal).unwrap();
    assert_eq!(number(&expression.lhs), Some(whole(1)));
    assert_eq!(expression.operations.len(), 2);
    assert_eq!(expression.operations[0].0, Operator::Addition);
    assert_eq!(expression.operations[0].1.operations.len(), 1);
    assert_eq!(expression.operations[0].1.operations[0].0, Operator::Multiplication);
    assert_eq!(expression.operations[1].0, Operator::Subtraction);
    assert_eq!(expression.operations[1].1.operations.len(), 0);
}
