use ratcalc::compute::EvaluationError;
use ratcalc::lexer::{Lexer, Token, TokenType};
use ratcalc::parser::{Associativity, Atom, Expression, Operator, ParseError, Parser};
use ratcalc::value::Value;

fn small(text: &str) -> Option<Value> {
    text.parse::<i64>().ok().map(Value::from_integer)
}

fn never(_base: &Value, _exponent: &Value) -> Option<Value> {
    None
}

fn parse(line: &str) -> Result<Expression, ParseError> {
    Parser::new(Lexer::new(line)).parse(&small)
}

fn number(atom: &Atom) -> Value {
    match atom {
        Atom::Number(number) => number.clone(),
        Atom::Expr(_) => panic!("an expression in parentheses"),
    }
}

fn inner(atom: &Atom) -> &Expression {
    match atom {
        Atom::Number(_) => panic!("a number"),
        Atom::Expr(expression) => expression,
    }
}

#[test]
fn precedence_and_associativity_of_the_operators() {
    assert_eq!(Operator::Addition.properties(), (0, Associativity::Left));
    assert_eq!(Operator::Subtraction.properties(), (0, Associativity::Left));
    assert_eq!(Operator::Multiplication.properties(), (1, Associativity::Left));
    assert_eq!(Operator::Division.properties(), (1, Associativity::Left));
    assert_eq!(Operator::Power.properties(), (2, Associativity::Right));
}

#[test]
fn tokens_that_are_binary_operators() {
    let operator = |ttype: TokenType| Token { ttype, value: "", pos: 0 }.to_binary_operator();
    assert_eq!(operator(TokenType::Plus), Some(Operator::Addition));
    assert_eq!(operator(TokenType::Minus), Some(Operator::Subtraction));
    assert_eq!(operator(TokenType::Asterisk), Some(Operator::Multiplication));
    assert_eq!(operator(TokenType::ForwardSlash), Some(Operator::Division));
    assert_eq!(operator(TokenType::Caret), Some(Operator::Power));
    assert_eq!(operator(TokenType::Number), None);
    assert_eq!(operator(TokenType::Identifier), None);
    assert_eq!(operator(TokenType::OpeningParen), None);
    assert_eq!(operator(TokenType::ClosingParen), None);
}

#[test]
fn eat_takes_the_token_it_asks_for() {
    let mut parser = Parser::new(Lexer::new("( 12"));
    assert_eq!(
        parser.eat(TokenType::OpeningParen),
        Ok(Token { ttype: TokenType::OpeningParen, value: "(", pos: 0 })
    );
    assert_eq!(
        parser.eat(TokenType::Number),
        Ok(Token { ttype: TokenType::Number, value: "12", pos: 2 })
    );
    assert_eq!(parser.eat(TokenType::Number), Err(ParseError::UnexpectedEndOfInput));
}

#[test]
fn eat_takes_another_token_too() {
    let mut parser = Parser::new(Lexer::new("a 1"));
    assert_eq!(
        parser.eat(TokenType::Number),
        Err(ParseError::UnexpectedToken {
            expected: TokenType::Number,
            found: TokenType::Identifier,
            text: "a".to_string(),
            pos: 0,
        })
    );
    assert_eq!(
        parser.eat(TokenType::Number),
        Ok(Token { ttype: TokenType::Number, value: "1", pos: 2 })
    );
}

#[test]
fn try_eat_leaves_another_token_in_place() {
    let mut parser = Parser::new(Lexer::new("- 1"));
    assert_eq!(parser.try_eat(TokenType::Plus), None);
    assert_eq!(
        parser.try_eat(TokenType::Minus),
        Some(Token { ttype: TokenType::Minus, value: "-", pos: 0 })
    );
    assert_eq!(parser.try_eat(TokenType::Minus), None);
    assert_eq!(
        parser.try_eat(TokenType::Number),
        Some(Token { ttype: TokenType::Number, value: "1", pos: 2 })
    );
    assert_eq!(parser.try_eat(TokenType::Number), None);
}

#[test]
fn left_associative_operators_stay_in_one_list() {
    let expression = parse("1 - 2 - 3").unwrap();
    assert_eq!(number(&expression.lhs), Value::from_integer(1));
    assert_eq!(expression.operations.len(), 2);
    assert_eq!(expression.operations[0].0, Operator::Subtraction);
    assert_eq!(number(&expression.operations[0].1.lhs), Value::from_integer(2));
    assert_eq!(expression.operations[0].1.operations.len(), 0);
    assert_eq!(expression.operations[1].0, Operator::Subtraction);
    assert_eq!(number(&expression.operations[1].1.lhs), Value::from_integer(3));
}

#[test]
fn right_associative_power_nests_to_the_right() {
    let expression = parse("2 ^ 3 ^ 4").unwrap();
    assert_eq!(expression.operations.len(), 1);
    assert_eq!(expression.operations[0].0, Operator::Power);
    let right = &expression.operations[0].1;
    assert_eq!(number(&right.lhs), Value::from_integer(3));
    assert_eq!(right.operations.len(), 1);
    assert_eq!(right.operations[0].0, Operator::Power);
    assert_eq!(number(&right.operations[0].1.lhs), Value::from_integer(4));
}

#[test]
fn parentheses_make_an_atom() {
    let expression = parse("(1 + 2)").unwrap();
    assert_eq!(expression.operations.len(), 0);
    let sum = inner(&expression.lhs);
    assert_eq!(number(&sum.lhs), Value::from_integer(1));
    assert_eq!(sum.operations.len(), 1);
    assert_eq!(sum.operations[0].0, Operator::Addition);
}

#[test]
fn minus_is_pushed_into_the_numbers() {
    let expression = parse("-(1 + 2 * 3)").unwrap();
    let sum = inner(&expression.lhs);
    assert_eq!(number(&sum.lhs), Value::from_integer(-1));
    let product = &sum.operations[0].1;
    assert_eq!(number(&product.lhs), Value::from_integer(-2));
    assert_eq!(number(&product.operations[0].1.lhs), Value::from_integer(-3));
}

#[test]
fn neg_changes_the_sign_of_every_operand() {
    let negated = parse("1 - (2 + 3) * 4").unwrap().neg();
    assert_eq!(number(&negated.lhs), Value::from_integer(-1));
    let product = &negated.operations[0].1;
    let sum = inner(&product.lhs);
    assert_eq!(number(&sum.lhs), Value::from_integer(-2));
    assert_eq!(number(&sum.operations[0].1.lhs), Value::from_integer(-3));
    assert_eq!(number(&product.operations[0].1.lhs), Value::from_integer(-4));
    assert_eq!(negated.compute(&never), Ok(Value::from_integer(-21)));
}

#[test]
fn neg_of_an_atom() {
    assert_eq!(number(&Atom::Number(Value::from_integer(5)).neg()), Value::from_integer(-5));
    assert_eq!(number(&Atom::Number(Value::from_integer(0)).neg()), Value::from_integer(0));
}

#[test]
fn a_refused_literal_ends_the_parse() {
    assert_eq!(
        parse("1 + 2.5").err(),
        Some(ParseError::InvalidNumberLiteral { text: "2.5".to_string() })
    );
}

#[test]
fn parse_leaves_nothing_behind() {
    let mut parser = Parser::new(Lexer::new("1 + 2"));
    assert!(parser.parse(&small).is_ok());
    assert_eq!(parser.eat(TokenType::Number), Err(ParseError::UnexpectedEndOfInput));
}

#[test]
fn compute_of_an_atom() {
    assert_eq!(
        Atom::Number(Value::from_integer(5)).compute(&never),
        Ok(Value::from_integer(5))
    );
    let expression = parse("(1 + 2) * 3").unwrap();
    assert_eq!(expression.lhs.compute(&never), Ok(Value::from_integer(3)));
}

#[test]
fn apply_joins_two_values() {
    let two = || Value::from_integer(2);
    let three = || Value::from_integer(3);
    let half = || Value::from_integer(1).checked_div(&Value::from_integer(2)).unwrap();
    assert_eq!(Operator::Addition.apply(two(), three(), &never), Ok(Value::from_integer(5)));
    assert_eq!(Operator::Subtraction.apply(two(), three(), &never), Ok(Value::from_integer(-1)));
    assert_eq!(Operator::Multiplication.apply(two(), three(), &never), Ok(Value::from_integer(6)));
    assert_eq!(
        Operator::Division.apply(two(), three(), &never),
        Ok(Value::from_integer(2).checked_div(&Value::from_integer(3)).unwrap())
    );
    assert_eq!(Operator::Power.apply(two(), three(), &never), Ok(Value::from_integer(8)));
    assert_eq!(
        Operator::Power.apply(two(), half(), &never),
        Err(EvaluationError::UnrepresentablePower)
    );
    let given = |_: &Value, _: &Value| Some(Value::from_integer(99));
    assert_eq!(Operator::Power.apply(two(), half(), &given), Ok(Value::from_integer(99)));
    assert_eq!(Operator::Power.apply(two(), three(), &given), Ok(Value::from_integer(8)));
    assert_eq!(
        Operator::Division.apply(two(), Value::from_integer(0), &never),
        Err(EvaluationError::DivisionByZero)
    );
}
