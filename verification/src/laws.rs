//! What holds of every line: theorems over the definitions of the other
//! modules.

use crate::chars::{ascii_digit, whitespace};
use crate::compute::{approximates, apply_step, Approximation, EvaluationError};
use crate::lexer::{
    kind_of, lemma_run_end_unique, number_char, LexerModel, TokenModel, TokenType,
};
use crate::parser::{
    atom_step, eat_step, expression_step, number_step, operations_step, parse_step, reads,
    AtomModel, ExpressionModel, Literals, Operator, ParseErrorModel,
};
use crate::rational::{lemma_reduce, Rational};
use crate::value::Value;
use crate::{evaluated_line, evaluates, evaluation, Error, ErrorModel};
use vstd::prelude::*;

verus! {

/// The line that holds `a`, a space, a slash, a space, and `b`.
pub open spec fn quotient_line(a: Seq<char>, b: Seq<char>) -> Seq<char> {
    a + seq![' ', '/', ' '] + b
}

/// A text of one or more digits and dots.
pub open spec fn number_text(text: Seq<char>) -> bool {
    text.len() > 0 && forall|i: int| 0 <= i < text.len() ==> number_char(#[trigger] text[i])
}

/// A text that holds a number text behind white space, followed by nothing
/// or by a space, starts with that number text as a number token.
proof fn lemma_number_token(model: LexerModel, skip: int, literal: Seq<char>)
    requires
        number_text(literal),
        0 <= skip,
        skip + literal.len() <= model.rest.len(),
        forall|i: int| 0 <= i < skip ==> whitespace(#[trigger] model.rest[i]),
        model.rest.subrange(skip, skip + literal.len()) == literal,
        skip + literal.len() < model.rest.len() ==> model.rest[skip + literal.len()] == ' ',
    ensures
        model.next_token() is Some,
        model.next_token()->0.ttype == TokenType::Number,
        model.next_token()->0.value == literal,
        model.advance().rest == model.rest.subrange(
            skip + literal.len(),
            model.rest.len() as int,
        ),
{
    let rest = model.rest;
    let stop = skip + literal.len();
    assert forall|i: int| skip <= i < stop implies number_char(#[trigger] rest[i]) by {
        assert(rest[i] == literal[i - skip]);
    }
    assert(number_char(rest[skip]));
    lemma_run_end_unique(rest, 0, |c: char| whitespace(c), skip);
    assert(kind_of(rest[skip]) == TokenType::Number);
    lemma_run_end_unique(rest, skip + 1, |c: char| number_char(c), stop);
}

/// A line that is one number text, which is not read as a number, is
/// refused as an invalid literal, and the error names the text.
pub proof fn lemma_malformed_literal(
    text: Seq<char>,
    literals: Literals,
    approximation: Approximation,
)
    requires
        number_text(text),
        literals(text) is None,
    ensures
        evaluation(text, literals, approximation) == Err::<Rational, ErrorModel>(
            ErrorModel::Parse(ParseErrorModel::InvalidNumberLiteral { text }),
        ),
{
    let first = LexerModel { rest: text, pos: 0 };
    assert(text.subrange(0, text.len() as int) == text);
    lemma_number_token(first, 0, text);
    let last = first.advance();
    assert(last.rest == Seq::<char>::empty());
    assert(last.next_token() is None);
    assert(last.tokens() == Seq::<TokenModel>::empty());
    let tokens = first.tokens();
    assert(tokens == seq![first.next_token()->0] + last.tokens());
    assert(eat_step(tokens, TokenType::Number).0 is Ok);
    assert(number_step(tokens, literals).0 == Err::<Rational, ParseErrorModel>(
        ParseErrorModel::InvalidNumberLiteral { text },
    ));
    assert(atom_step(tokens, literals).0 == Err::<AtomModel, ParseErrorModel>(
        ParseErrorModel::InvalidNumberLiteral { text },
    ));
}

/// Two evaluations of one line agree: whatever `evaluate` may return on a
/// line, with functions that read numbers and approximate powers as some
/// `literals` and `approximation` say, is the same result.
pub proof fn lemma_evaluation_repeatable<L, P>(
    line: Seq<char>,
    literal: &L,
    approximate: &P,
    literals: Literals,
    approximation: Approximation,
    first: Result<Value, Error>,
    second: Result<Value, Error>,
) where L: Fn(&str) -> Option<Value>, P: Fn(&Value, &Value) -> Option<Value>
    requires
        reads(literal, literals),
        approximates(approximate, approximation),
        evaluates(line, literal, approximate, first),
        evaluates(line, literal, approximate, second),
    ensures
        evaluated_line(first) == evaluated_line(second),
        evaluated_line(first) == evaluation(line, literals, approximation),
{
}

/// A text of one or more digits.
pub open spec fn whole_literal(text: Seq<char>) -> bool {
    text.len() > 0 && forall|i: int| 0 <= i < text.len() ==> ascii_digit(#[trigger] text[i])
}

/// The number that a text of digits denotes in decimal notation.
pub open spec fn decimal_value(text: Seq<char>) -> nat
    decreases text.len(),
{
    if text.len() == 0 {
        0
    } else {
        10 * decimal_value(text.drop_last()) + (text.last() as u32 - 0x30) as nat
    }
}

/// The tokens of `a / b`: the number `a`, a slash, and the number `b`.
pub proof fn lemma_quotient_tokens(a: Seq<char>, b: Seq<char>)
    requires
        number_text(a),
        number_text(b),
    ensures
        ({
            let tokens = (LexerModel { rest: quotient_line(a, b), pos: 0 }).tokens();
            &&& tokens.len() == 3
            &&& tokens[0].ttype == TokenType::Number
            &&& tokens[0].value == a
            &&& tokens[1].ttype == TokenType::ForwardSlash
            &&& tokens[2].ttype == TokenType::Number
            &&& tokens[2].value == b
        }),
{
    let line = quotient_line(a, b);
    let first = LexerModel { rest: line, pos: 0 };
    assert(line.subrange(0, a.len() as int) == a);
    assert(line[a.len() as int] == ' ');
    lemma_number_token(first, 0, a);
    let second = first.advance();
    assert(second.rest == seq![' ', '/', ' '] + b);
    lemma_run_end_unique(second.rest, 0, |c: char| whitespace(c), 1);
    assert(kind_of(second.rest[1]) == TokenType::ForwardSlash);
    assert(second.next_token() is Some);
    let third = second.advance();
    assert(third.rest == seq![' '] + b);
    assert(third.rest.subrange(1, 1 + b.len() as int) == b);
    lemma_number_token(third, 1, b);
    let last = third.advance();
    assert(last.rest == Seq::<char>::empty());
    assert(last.next_token() is None);
    assert(last.tokens() == Seq::<TokenModel>::empty());
    assert(third.tokens() == seq![third.next_token()->0] + last.tokens());
    assert(second.tokens() == seq![second.next_token()->0] + third.tokens());
    assert(first.tokens() == seq![first.next_token()->0] + second.tokens());
}

/// A whole literal that is read as `x` and has no operator behind it parses
/// into the number `x`.
proof fn lemma_number_expression(
    tokens: Seq<TokenModel>,
    min_prec: nat,
    literals: Literals,
    x: Rational,
)
    requires
        tokens.len() > 0,
        tokens[0].ttype == TokenType::Number,
        literals(tokens[0].value) == Some(x),
        tokens.len() > 1 ==> tokens[1].ttype == TokenType::ForwardSlash && min_prec <= 1,
    ensures
        atom_step(tokens, literals) == (
            Ok::<AtomModel, ParseErrorModel>(AtomModel::Number(x)),
            tokens.drop_first(),
        ),
        tokens.len() == 1 ==> expression_step(tokens, min_prec, literals) == (
            Ok::<ExpressionModel, ParseErrorModel>(
                ExpressionModel { lhs: AtomModel::Number(x), operations: Seq::empty() },
            ),
            tokens.drop_first(),
        ),
{
    assert(eat_step(tokens, TokenType::Number).0 is Ok);
    assert(number_step(tokens, literals).0 == Ok::<Rational, ParseErrorModel>(x));
    if tokens.len() == 1 {
        assert(operations_step(tokens.drop_first(), min_prec, literals, Seq::empty()).0 is Ok);
    }
}

/// The line `a / b`, for number texts `a` and `b` that are read as the
/// whole numbers `x` and `y`, has the value `x / y` in lowest terms. If `y`
/// is zero it has no value: the division by zero is reported.
pub proof fn lemma_quotient_of_literals(
    a: Seq<char>,
    b: Seq<char>,
    x: int,
    y: int,
    literals: Literals,
    approximation: Approximation,
)
    requires
        number_text(a),
        number_text(b),
        literals(a) == Some(Rational::integer(x)),
        literals(b) == Some(Rational::integer(y)),
    ensures
        y != 0 ==> evaluation(quotient_line(a, b), literals, approximation) == Ok::<
            Rational,
            ErrorModel,
        >(Rational::reduce(x, y)),
        y == 0 ==> evaluation(quotient_line(a, b), literals, approximation) == Err::<
            Rational,
            ErrorModel,
        >(ErrorModel::Evaluation(EvaluationError::DivisionByZero)),
{
    let tokens = (LexerModel { rest: quotient_line(a, b), pos: 0 }).tokens();
    lemma_quotient_tokens(a, b);
    let left = Rational::integer(x);
    let right = Rational::integer(y);
    let behind = tokens.drop_first();
    let last = behind.drop_first();
    assert(last.len() == 1 && last[0] == tokens[2]);
    lemma_number_expression(tokens, 0, literals, left);
    lemma_number_expression(last, 2, literals, right);
    let divisor = ExpressionModel { lhs: AtomModel::Number(right), operations: Seq::empty() };
    let operations = Seq::<(Operator, ExpressionModel)>::empty().push((Operator::Division, divisor));
    assert(behind[0] == tokens[1]);
    assert(last.drop_first().len() == 0);
    assert(operations_step(last.drop_first(), 0, literals, operations) == (
        Ok::<Seq<(Operator, ExpressionModel)>, ParseErrorModel>(operations),
        last.drop_first(),
    ));
    assert(operations_step(behind, 0, literals, Seq::empty()) == (
        Ok::<Seq<(Operator, ExpressionModel)>, ParseErrorModel>(operations),
        last.drop_first(),
    ));
    let expression = ExpressionModel { lhs: AtomModel::Number(left), operations };
    assert(expression_step(tokens, 0, literals) == (
        Ok::<ExpressionModel, ParseErrorModel>(expression),
        last.drop_first(),
    ));
    assert(parse_step(tokens, literals).0 == Ok::<ExpressionModel, ParseErrorModel>(
        expression,
    ));
    assert(divisor.lhs.value(approximation) == Ok::<Rational, EvaluationError>(right));
    assert(divisor.fold_from(right, 0, approximation) == Ok::<Rational, EvaluationError>(right));
    assert(divisor.value(approximation) == Ok::<Rational, EvaluationError>(right));
    assert(expression.lhs.value(approximation) == Ok::<Rational, EvaluationError>(left));
    assert(expression.operations[0] == (Operator::Division, divisor));
    if y != 0 {
        let quotient = left.over(right);
        assert(x * 1 == x && 1 * y == y);
        assert(quotient == Rational::reduce(x, y));
        assert(apply_step(Operator::Division, left, right, approximation) == Ok::<
            Rational,
            EvaluationError,
        >(quotient));
        assert(expression.fold_from(quotient, 1, approximation) == Ok::<Rational, EvaluationError>(
            quotient,
        ));
        assert(expression.fold_from(left, 0, approximation) == Ok::<Rational, EvaluationError>(
            quotient,
        ));
    } else {
        assert(expression.fold_from(left, 0, approximation) == Err::<Rational, EvaluationError>(
            EvaluationError::DivisionByZero,
        ));
    }
}

/// The line `a / b`, for whole literals `a` and `b` of which `b` is not
/// zero, has the value `a / b` in lowest terms, wherever the two literals
/// are read as the numbers that they denote.
pub proof fn lemma_quotient_is_exact(
    a: Seq<char>,
    b: Seq<char>,
    literals: Literals,
    approximation: Approximation,
)
    requires
        whole_literal(a),
        whole_literal(b),
        decimal_value(b) != 0,
        literals(a) == Some(Rational::integer(decimal_value(a) as int)),
        literals(b) == Some(Rational::integer(decimal_value(b) as int)),
    ensures
        ({
            let quotient = Rational::reduce(decimal_value(a) as int, decimal_value(b) as int);
            &&& evaluation(quotient_line(a, b), literals, approximation) == Ok::<
                Rational,
                ErrorModel,
            >(quotient)
            &&& quotient.is_reduced()
            &&& quotient.num * decimal_value(b) == decimal_value(a) * quotient.den
        }),
{
    assert(number_text(a) && number_text(b));
    lemma_quotient_of_literals(
        a,
        b,
        decimal_value(a) as int,
        decimal_value(b) as int,
        literals,
        approximation,
    );
    lemma_reduce(decimal_value(a) as int, decimal_value(b) as int);
}

} // verus!
