//! The evaluator: from an expression tree to its value.

use crate::parser::{Atom, AtomModel, Expression, ExpressionModel, Operator};
use crate::rational::Rational;
use crate::value::{
    ratio_difference, ratio_is_integer, ratio_is_zero, ratio_power, ratio_product, ratio_quotient,
    ratio_sum, ratio_to_i128, Value,
};
use vstd::prelude::*;

verus! {

/// Why an expression has no value.
#[derive(Debug, PartialEq, Eq, Clone, Copy, Structural)]
pub enum EvaluationError {
    /// A division by zero, or zero raised to a negative power.
    DivisionByZero,
    /// A power that cannot be given: its whole exponent lies outside the
    /// range of `i128`, or its approximation does not exist.
    UnrepresentablePower,
}

/// What a power with an exponent that is no whole number is taken to be: a
/// function from base and exponent to a fraction, `None` where there is none.
pub type Approximation = spec_fn(Rational, Rational) -> Option<Rational>;

/// `total` raised to `exponent`. A whole exponent gives the exact power, any
/// other exponent gives what `approximate` says.
pub open spec fn power_step(total: Rational, exponent: Rational, approximate: Approximation) -> Result<
    Rational,
    EvaluationError,
> {
    if exponent.is_integer() {
        if !(i128::MIN <= exponent.num <= i128::MAX) {
            Err(EvaluationError::UnrepresentablePower)
        } else if total.is_zero() && exponent.num < 0 {
            Err(EvaluationError::DivisionByZero)
        } else {
            Ok(total.power(exponent.num))
        }
    } else {
        match approximate(total, exponent) {
            Some(power) => Ok(power),
            None => Err(EvaluationError::UnrepresentablePower),
        }
    }
}

/// `total` and `rhs` joined by `op`.
pub open spec fn apply_step(
    op: Operator,
    total: Rational,
    rhs: Rational,
    approximate: Approximation,
) -> Result<Rational, EvaluationError> {
    match op {
        Operator::Addition => Ok(total.plus(rhs)),
        Operator::Subtraction => Ok(total.minus(rhs)),
        Operator::Multiplication => Ok(total.times(rhs)),
        Operator::Division => if rhs.is_zero() {
            Err(EvaluationError::DivisionByZero)
        } else {
            Ok(total.over(rhs))
        },
        Operator::Power => power_step(total, rhs, approximate),
    }
}

/// The approximation that gives no power at all.
pub open spec fn no_approximation() -> Approximation {
    |base: Rational, exponent: Rational| None
}

/// Joining `total` and `rhs` by `op` asks for no approximation.
pub open spec fn exact_step(op: Operator, rhs: Rational) -> bool {
    op != Operator::Power || rhs.is_integer()
}

impl ExpressionModel {
    /// The evaluation asks for no approximation: every power that it reaches
    /// has a whole exponent.
    pub open spec fn is_exact(self) -> bool
        decreases self, 1int, 0int,
    {
        self.lhs.is_exact() && match self.lhs.value(no_approximation()) {
            Ok(total) => self.is_exact_from(total, 0),
            Err(_) => true,
        }
    }

    /// The evaluation asks for no approximation once the operations before
    /// index `from` have given `total`.
    pub open spec fn is_exact_from(self, total: Rational, from: int) -> bool
        decreases self, 0int, self.operations.len() - from,
    {
        if 0 <= from < self.operations.len() {
            self.operations[from].1.is_exact() && match self.operations[from].1.value(
                no_approximation(),
            ) {
                Err(_) => true,
                Ok(rhs) => exact_step(self.operations[from].0, rhs) && match apply_step(
                    self.operations[from].0,
                    total,
                    rhs,
                    no_approximation(),
                ) {
                    Err(_) => true,
                    Ok(next) => self.is_exact_from(next, from + 1),
                },
            }
        } else {
            true
        }
    }

    /// The value of the expression: the value of the left operand, joined
    /// with the value of each right operand in turn, from left to right. The
    /// first error ends the evaluation.
    pub open spec fn value(self, approximate: Approximation) -> Result<Rational, EvaluationError>
        decreases self, 1int, 0int,
    {
        match self.lhs.value(approximate) {
            Ok(total) => self.fold_from(total, 0, approximate),
            Err(error) => Err(error),
        }
    }

    /// The value of the expression once the operations before index `from`
    /// have given `total`.
    pub open spec fn fold_from(self, total: Rational, from: int, approximate: Approximation) -> Result<
        Rational,
        EvaluationError,
    >
        decreases self, 0int, self.operations.len() - from,
    {
        if 0 <= from < self.operations.len() {
            match self.operations[from].1.value(approximate) {
                Err(error) => Err(error),
                Ok(rhs) => match apply_step(self.operations[from].0, total, rhs, approximate) {
                    Err(error) => Err(error),
                    Ok(next) => self.fold_from(next, from + 1, approximate),
                },
            }
        } else {
            Ok(total)
        }
    }
}

impl AtomModel {
    /// The evaluation asks for no approximation.
    pub open spec fn is_exact(self) -> bool
        decreases self, 0int, 0int,
    {
        match self {
            AtomModel::Number(_) => true,
            AtomModel::Expr(expression) => expression.is_exact(),
        }
    }

    /// The number itself, or the value of the expression in parentheses.
    pub open spec fn value(self, approximate: Approximation) -> Result<Rational, EvaluationError>
        decreases self, 0int, 0int,
    {
        match self {
            AtomModel::Number(number) => Ok(number),
            AtomModel::Expr(expression) => expression.value(approximate),
        }
    }
}

/// The result of an evaluation as a fraction.
pub open spec fn evaluated(r: Result<Value, EvaluationError>) -> Result<Rational, EvaluationError> {
    match r {
        Ok(value) => Ok(value@),
        Err(error) => Err(error),
    }
}

/// `approximate` computes powers as `approximation` says: whatever it may
/// return on a base and an exponent is what `approximation` gives for them.
pub open spec fn approximates<F: Fn(&Value, &Value) -> Option<Value>>(
    approximate: &F,
    approximation: Approximation,
) -> bool {
    forall|base: &Value, exponent: &Value, out: Option<Value>| #[trigger]
        call_ensures(approximate, (base, exponent), out) ==> match out {
            Some(power) => approximation(base@, exponent@) == Some(power@),
            None => approximation(base@, exponent@) is None,
        }
}

impl Operator {
    /// Joins `total` and `rhs` by this operator. The four basic operations
    /// are exact, and so is a power with a whole exponent; for any other
    /// exponent `approximate` is asked.
    pub fn apply<F: Fn(&Value, &Value) -> Option<Value>>(
        &self,
        total: Value,
        rhs: Value,
        approximate: &F,
    ) -> (r: Result<Value, EvaluationError>)
        requires
            forall|base: &Value, exponent: &Value| call_requires(approximate, (base, exponent)),
        ensures
            forall|approximation: Approximation| #[trigger]
                approximates(approximate, approximation) ==> evaluated(r) == apply_step(
                    *self,
                    total@,
                    rhs@,
                    approximation,
                ),
            exact_step(*self, rhs@) ==> evaluated(r) == apply_step(
                *self,
                total@,
                rhs@,
                no_approximation(),
            ),
    {
        match self {
            Operator::Addition => Ok(ratio_sum(&total, &rhs)),
            Operator::Subtraction => Ok(ratio_difference(&total, &rhs)),
            Operator::Multiplication => Ok(ratio_product(&total, &rhs)),
            Operator::Division => {
                if ratio_is_zero(&rhs) {
                    Err(EvaluationError::DivisionByZero)
                } else {
                    Ok(ratio_quotient(&total, &rhs))
                }
            },
            Operator::Power => {
                if ratio_is_integer(&rhs) {
                    match ratio_to_i128(&rhs) {
                        None => Err(EvaluationError::UnrepresentablePower),
                        Some(exponent) => {
                            if ratio_is_zero(&total) && exponent < 0 {
                                Err(EvaluationError::DivisionByZero)
                            } else {
                                Ok(ratio_power(&total, exponent))
                            }
                        },
                    }
                } else {
                    match approximate(&total, &rhs) {
                        Some(power) => Ok(power),
                        None => Err(EvaluationError::UnrepresentablePower),
                    }
                }
            },
        }
    }
}

impl Expression {
    /// The value of the expression: the left operand, joined with each right
    /// operand in turn, from left to right.
    pub fn compute<F: Fn(&Value, &Value) -> Option<Value>>(self, approximate: &F) -> (r: Result<
        Value,
        EvaluationError,
    >)
        requires
            forall|base: &Value, exponent: &Value| call_requires(approximate, (base, exponent)),
        ensures
            forall|approximation: Approximation| #[trigger]
                approximates(approximate, approximation) ==> evaluated(r) == self@.value(
                    approximation,
                ),
            self@.is_exact() ==> evaluated(r) == self@.value(no_approximation()),
        decreases self,
    {
        let ghost model = self@;
        let ghost before = self.operations@;
        let mut total = match self.lhs.compute(approximate) {
            Ok(value) => value,
            Err(error) => {
                return Err(error);
            },
        };
        for pair in it: self.operations
            invariant
                model == self@,
                it.seq() == before,
                model.operations.len() == before.len(),
                forall|i: int|
                    0 <= i < before.len() ==> #[trigger] model.operations[i] == (
                        before[i].0,
                        (*before[i].1).model(),
                    ),
                forall|base: &Value, exponent: &Value| call_requires(approximate, (base, exponent)),
                forall|approximation: Approximation| #[trigger]
                    approximates(approximate, approximation) ==> model.value(approximation)
                        == model.fold_from(total@, it.index() as int, approximation),
                model.is_exact() ==> model.is_exact_from(total@, it.index() as int)
                    && model.value(no_approximation()) == model.fold_from(
                    total@,
                    it.index() as int,
                    no_approximation(),
                ),
        {
            let (op, expression) = pair;
            let rhs = match (*expression).compute(approximate) {
                Ok(value) => value,
                Err(error) => {
                    return Err(error);
                },
            };
            total = match op.apply(total, rhs, approximate) {
                Ok(value) => value,
                Err(error) => {
                    return Err(error);
                },
            };
        }
        Ok(total)
    }
}

impl Atom {
    /// The number itself, or the value of the expression in parentheses.
    pub fn compute<F: Fn(&Value, &Value) -> Option<Value>>(self, approximate: &F) -> (r: Result<
        Value,
        EvaluationError,
    >)
        requires
            forall|base: &Value, exponent: &Value| call_requires(approximate, (base, exponent)),
        ensures
            forall|approximation: Approximation| #[trigger]
                approximates(approximate, approximation) ==> evaluated(r) == self@.value(
                    approximation,
                ),
            self@.is_exact() ==> evaluated(r) == self@.value(no_approximation()),
        decreases self,
    {
        match self {
            Atom::Number(number) => Ok(number),
            Atom::Expr(expression) => (*expression).compute(approximate),
        }
    }
}

} // verus!
