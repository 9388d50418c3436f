//! A calculator for arithmetic expressions with exact rational results.
//!
//! A line of text is cut into tokens ([`lexer`]), the tokens are parsed into
//! an expression tree by precedence climbing ([`parser`]), and the tree is
//! folded into one exact fraction ([`compute`]).
//!
//! Two things are left to the caller, because they go through binary
//! floating point, which this library does not hold: reading the text of a
//! number token, and raising a number to a power that is no whole number.
//! Both are functions that the caller hands in; the contracts say what comes
//! out for every mathematical function that such a function implements.

pub mod chars;
pub mod compute;
pub mod laws;
pub mod lexer;
pub mod parser;
pub mod rational;
pub mod value;

use crate::compute::{approximates, Approximation, EvaluationError};
use crate::lexer::{Lexer, LexerModel};
use crate::parser::{parse_step, reads, Literals, ParseError, ParseErrorModel, Parser};
use crate::rational::Rational;
use crate::value::Value;
use vstd::prelude::*;

verus! {

/// Why a line has no value.
#[derive(Debug, PartialEq, Eq)]
pub enum Error {
    Parse(ParseError),
    Evaluation(EvaluationError),
}

/// An error with its texts as sequences of characters.
pub enum ErrorModel {
    Parse(ParseErrorModel),
    Evaluation(EvaluationError),
}

impl View for Error {
    type V = ErrorModel;

    open spec fn view(&self) -> ErrorModel {
        match self {
            Error::Parse(error) => ErrorModel::Parse(error@),
            Error::Evaluation(error) => ErrorModel::Evaluation(*error),
        }
    }
}

/// The value of a line of text: the value of the expression that its tokens
/// parse to.
pub open spec fn evaluation(line: Seq<char>, literals: Literals, approximation: Approximation) -> Result<
    Rational,
    ErrorModel,
> {
    match parse_step((LexerModel { rest: line, pos: 0 }).tokens(), literals).0 {
        Err(error) => Err(ErrorModel::Parse(error)),
        Ok(expression) => match expression.value(approximation) {
            Err(error) => Err(ErrorModel::Evaluation(error)),
            Ok(value) => Ok(value),
        },
    }
}

/// The result of `evaluate` as a fraction.
pub open spec fn evaluated_line(r: Result<Value, Error>) -> Result<Rational, ErrorModel> {
    match r {
        Ok(value) => Ok(value@),
        Err(error) => Err(error@),
    }
}

/// `r` is what the contract of `evaluate` allows as the result for `line`:
/// the value of the line, for every way of reading numbers and
/// approximating powers that `literal` and `approximate` implement.
pub open spec fn evaluates<L, P>(
    line: Seq<char>,
    literal: &L,
    approximate: &P,
    r: Result<Value, Error>,
) -> bool where L: Fn(&str) -> Option<Value>, P: Fn(&Value, &Value) -> Option<Value> {
    forall|literals: Literals, approximation: Approximation|
        #![trigger reads(literal, literals), approximates(approximate, approximation)]
        reads(literal, literals) && approximates(approximate, approximation) ==> evaluated_line(r)
            == evaluation(line, literals, approximation)
}

/// Evaluates one line of text. `literal` reads the text of a number token,
/// `approximate` raises a number to a power that is no whole number.
pub fn evaluate<L, P>(line: &str, literal: &L, approximate: &P) -> (r: Result<Value, Error>) where
    L: Fn(&str) -> Option<Value>,
    P: Fn(&Value, &Value) -> Option<Value>,

    requires
        forall|text: &str| call_requires(literal, (text,)),
        forall|base: &Value, exponent: &Value| call_requires(approximate, (base, exponent)),
    ensures
        evaluates(line@, literal, approximate, r),
{
    let mut parser = Parser::new(Lexer::new(line));
    let expression = match parser.parse(literal) {
        Ok(expression) => expression,
        Err(error) => {
            return Err(Error::Parse(error));
        },
    };
    match expression.compute(approximate) {
        Ok(value) => Ok(value),
        Err(error) => Err(Error::Evaluation(error)),
    }
}

} // verus!
