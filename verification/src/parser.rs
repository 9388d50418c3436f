//! The parser: from tokens to an expression tree, by precedence climbing.

use crate::lexer::{Lexer, Token, TokenModel, TokenType};
use crate::rational::Rational;
use crate::value::{ratio_negation, Value};
use vstd::prelude::*;

verus! {

#[derive(Debug, PartialEq, Eq, Hash, Clone, Copy, Structural)]
pub enum Operator {
    Addition,
    Subtraction,
    Multiplication,
    Division,
    Power,
}

#[derive(Debug, PartialEq, Eq, Clone, Copy, Structural)]
pub enum Associativity {
    Left,
    Right,
}

/// A left operand and the operations applied to it in order, each with its
/// right operand.
#[derive(Debug)]
pub struct Expression {
    pub lhs: Atom,
    pub operations: Vec<(Operator, Box<Expression>)>,
}

/// An operand: a number, or an expression in parentheses.
#[derive(Debug)]
pub enum Atom {
    Number(Value),
    Expr(Box<Expression>),
}

/// An expression whose numbers are fractions.
pub struct ExpressionModel {
    pub lhs: AtomModel,
    pub operations: Seq<(Operator, ExpressionModel)>,
}

/// An operand whose numbers are fractions.
pub enum AtomModel {
    Number(Rational),
    Expr(Box<ExpressionModel>),
}

impl Expression {
    /// The expression with every number as a fraction.
    pub open spec fn model(self) -> ExpressionModel
        decreases self,
    {
        ExpressionModel {
            lhs: self.lhs.model(),
            operations: Seq::new(
                self.operations@.len(),
                |i: int|
                    if 0 <= i < self.operations@.len() {
                        (self.operations@[i].0, (*self.operations@[i].1).model())
                    } else {
                        arbitrary()
                    },
            ),
        }
    }
}

impl Atom {
    /// The operand with every number as a fraction.
    pub open spec fn model(self) -> AtomModel
        decreases self,
    {
        match self {
            Atom::Number(number) => AtomModel::Number(number@),
            Atom::Expr(expression) => AtomModel::Expr(Box::new((*expression).model())),
        }
    }
}

impl View for Expression {
    type V = ExpressionModel;

    open spec fn view(&self) -> ExpressionModel {
        self.model()
    }
}

impl View for Atom {
    type V = AtomModel;

    open spec fn view(&self) -> AtomModel {
        self.model()
    }
}

impl ExpressionModel {
    /// The expression with the sign of every operand changed: of the left
    /// operand, and of the right operand of every operation.
    pub open spec fn negated(self) -> ExpressionModel
        decreases self,
    {
        ExpressionModel {
            lhs: self.lhs.negated(),
            operations: Seq::new(
                self.operations.len(),
                |i: int|
                    if 0 <= i < self.operations.len() {
                        (self.operations[i].0, self.operations[i].1.negated())
                    } else {
                        arbitrary()
                    },
            ),
        }
    }
}

impl AtomModel {
    /// A number changes its sign; an expression in parentheses is negated
    /// operand by operand.
    pub open spec fn negated(self) -> AtomModel
        decreases self,
    {
        match self {
            AtomModel::Number(number) => AtomModel::Number(number.negated()),
            AtomModel::Expr(expression) => AtomModel::Expr(Box::new(expression.negated())),
        }
    }
}

/// Why a line is not an expression.
#[derive(Debug, PartialEq, Eq)]
pub enum ParseError {
    /// A token of kind `expected` had to come, and `found` came, with this
    /// text at this byte offset.
    UnexpectedToken { expected: TokenType, found: TokenType, text: String, pos: usize },
    /// A token had to come, and the line was at its end.
    UnexpectedEndOfInput,
    /// The text of a number token is not a number.
    InvalidNumberLiteral { text: String },
    /// A token follows the expression.
    TrailingInput { text: String },
}

/// A parse error with its texts as sequences of characters.
pub enum ParseErrorModel {
    UnexpectedToken { expected: TokenType, found: TokenType, text: Seq<char>, pos: nat },
    UnexpectedEndOfInput,
    InvalidNumberLiteral { text: Seq<char> },
    TrailingInput { text: Seq<char> },
}

impl View for ParseError {
    type V = ParseErrorModel;

    open spec fn view(&self) -> ParseErrorModel {
        match self {
            ParseError::UnexpectedToken { expected, found, text, pos } => {
                ParseErrorModel::UnexpectedToken {
                    expected: *expected,
                    found: *found,
                    text: text@,
                    pos: *pos as nat,
                }
            },
            ParseError::UnexpectedEndOfInput => ParseErrorModel::UnexpectedEndOfInput,
            ParseError::InvalidNumberLiteral { text } => ParseErrorModel::InvalidNumberLiteral {
                text: text@,
            },
            ParseError::TrailingInput { text } => ParseErrorModel::TrailingInput { text: text@ },
        }
    }
}

/// How strongly an operator binds: sums bind least, powers most.
pub open spec fn precedence(op: Operator) -> nat {
    match op {
        Operator::Addition | Operator::Subtraction => 0,
        Operator::Multiplication | Operator::Division => 1,
        Operator::Power => 2,
    }
}

/// Powers group from the right, all other operators from the left.
pub open spec fn associativity(op: Operator) -> Associativity {
    match op {
        Operator::Power => Associativity::Right,
        _ => Associativity::Left,
    }
}

/// The least precedence that an operator lets into its right operand.
pub open spec fn operand_precedence(op: Operator) -> nat {
    match associativity(op) {
        Associativity::Left => precedence(op) + 1,
        Associativity::Right => precedence(op),
    }
}

/// The binary operator that a token of this kind stands for.
pub open spec fn binary_operator(ttype: TokenType) -> Option<Operator> {
    match ttype {
        TokenType::Plus => Some(Operator::Addition),
        TokenType::Minus => Some(Operator::Subtraction),
        TokenType::Asterisk => Some(Operator::Multiplication),
        TokenType::ForwardSlash => Some(Operator::Division),
        TokenType::Caret => Some(Operator::Power),
        _ => None,
    }
}

impl Operator {
    /// Precedence and associativity.
    pub fn properties(&self) -> (r: (usize, Associativity))
        ensures
            r.0 == precedence(*self),
            r.1 == associativity(*self),
    {
        match self {
            Operator::Addition | Operator::Subtraction => (0, Associativity::Left),
            Operator::Multiplication => (1, Associativity::Left),
            Operator::Division => (1, Associativity::Left),
            Operator::Power => (2, Associativity::Right),
        }
    }
}

impl Token<'_> {
    /// The binary operator that this token stands for, if any.
    pub fn to_binary_operator(&self) -> (r: Option<Operator>)
        ensures
            r == binary_operator(self.ttype),
    {
        match self.ttype {
            TokenType::Plus => Some(Operator::Addition),
            TokenType::Minus => Some(Operator::Subtraction),
            TokenType::Asterisk => Some(Operator::Multiplication),
            TokenType::ForwardSlash => Some(Operator::Division),
            TokenType::Caret => Some(Operator::Power),
            _ => None,
        }
    }
}

/// What the text of a number token denotes: a function from texts to
/// fractions, `None` where the text is no number.
pub type Literals = spec_fn(Seq<char>) -> Option<Rational>;

/// The outcome of a parsing step, and the tokens that it leaves.
pub type Step<T> = (Result<T, ParseErrorModel>, Seq<TokenModel>);

/// Takes the next token, which has to be of kind `ttype`. A token of
/// another kind is taken too.
pub open spec fn eat_step(tokens: Seq<TokenModel>, ttype: TokenType) -> Step<TokenModel> {
    if tokens.len() == 0 {
        (Err(ParseErrorModel::UnexpectedEndOfInput), tokens)
    } else if tokens[0].ttype == ttype {
        (Ok(tokens[0]), tokens.drop_first())
    } else {
        (
            Err(
                ParseErrorModel::UnexpectedToken {
                    expected: ttype,
                    found: tokens[0].ttype,
                    text: tokens[0].value,
                    pos: tokens[0].pos,
                },
            ),
            tokens.drop_first(),
        )
    }
}

/// Takes a number token and reads its text as a number.
pub open spec fn number_step(tokens: Seq<TokenModel>, literals: Literals) -> Step<Rational> {
    match eat_step(tokens, TokenType::Number) {
        (Err(error), rest) => (Err(error), rest),
        (Ok(token), rest) => match literals(token.value) {
            Some(number) => (Ok(number), rest),
            None => (Err(ParseErrorModel::InvalidNumberLiteral { text: token.value }), rest),
        },
    }
}

/// Parses an operand: any number of signs, then a number or an expression
/// in parentheses. A `+` changes nothing, a `-` negates the operand that
/// follows it.
pub open spec fn atom_step(tokens: Seq<TokenModel>, literals: Literals) -> Step<AtomModel>
    decreases tokens.len(), 0int,
{
    if tokens.len() > 0 && tokens[0].ttype == TokenType::Plus {
        atom_step(tokens.drop_first(), literals)
    } else if tokens.len() > 0 && tokens[0].ttype == TokenType::Minus {
        match atom_step(tokens.drop_first(), literals) {
            (Ok(atom), rest) => (Ok(atom.negated()), rest),
            (Err(error), rest) => (Err(error), rest),
        }
    } else if tokens.len() > 0 && tokens[0].ttype == TokenType::OpeningParen {
        match expression_step(tokens.drop_first(), 0, literals) {
            (Err(error), rest) => (Err(error), rest),
            (Ok(expression), rest) => match eat_step(rest, TokenType::ClosingParen) {
                (Err(error), rest) => (Err(error), rest),
                (Ok(_), rest) => (Ok(AtomModel::Expr(Box::new(expression))), rest),
            },
        }
    } else {
        match number_step(tokens, literals) {
            (Err(error), rest) => (Err(error), rest),
            (Ok(number), rest) => (Ok(AtomModel::Number(number)), rest),
        }
    }
}

/// Parses an operand and every operation behind it whose operator binds at
/// least as strongly as `min_prec`.
pub open spec fn expression_step(tokens: Seq<TokenModel>, min_prec: nat, literals: Literals) -> Step<
    ExpressionModel,
>
    decreases tokens.len(), 1int,
{
    match atom_step(tokens, literals) {
        (Err(error), rest) => (Err(error), rest),
        (Ok(lhs), rest) => {
            // An operand holds a token, so `rest` is shorter; the test shows it to the
            // termination check.
            if rest.len() < tokens.len() {
                match operations_step(rest, min_prec, literals, Seq::empty()) {
                    (Err(error), rest) => (Err(error), rest),
                    (Ok(operations), rest) => (Ok(ExpressionModel { lhs, operations }), rest),
                }
            } else {
                (Ok(ExpressionModel { lhs, operations: Seq::empty() }), rest)
            }
        },
    }
}

/// Parses operations as long as the next token is a binary operator that
/// binds at least as strongly as `min_prec`, and appends them to `done`. The
/// right operand of an operator is the expression behind it at the
/// operator's `operand_precedence`.
pub open spec fn operations_step(
    tokens: Seq<TokenModel>,
    min_prec: nat,
    literals: Literals,
    done: Seq<(Operator, ExpressionModel)>,
) -> Step<Seq<(Operator, ExpressionModel)>>
    decreases tokens.len(), 2int,
{
    if tokens.len() > 0 && binary_operator(tokens[0].ttype) is Some && precedence(
        binary_operator(tokens[0].ttype)->0,
    ) >= min_prec {
        let op = binary_operator(tokens[0].ttype)->0;
        match expression_step(tokens.drop_first(), operand_precedence(op), literals) {
            (Err(error), rest) => (Err(error), rest),
            (Ok(rhs), rest) => {
                // As in `expression_step`: `rest` is shorter.
                if rest.len() < tokens.len() {
                    operations_step(rest, min_prec, literals, done.push((op, rhs)))
                } else {
                    (Ok(done.push((op, rhs))), rest)
                }
            },
        }
    } else {
        (Ok(done), tokens)
    }
}

/// Parses a whole line: one expression, behind which no token may follow.
pub open spec fn parse_step(tokens: Seq<TokenModel>, literals: Literals) -> Step<ExpressionModel> {
    match expression_step(tokens, 0, literals) {
        (Err(error), rest) => (Err(error), rest),
        (Ok(expression), rest) => if rest.len() > 0 {
            (Err(ParseErrorModel::TrailingInput { text: rest[0].value }), rest.drop_first())
        } else {
            (Ok(expression), rest)
        },
    }
}

/// An operand takes at least one token, and no step gives tokens back: the
/// tests on the length in `expression_step` and `operations_step` always
/// succeed.
pub proof fn lemma_atom_step_consumes(tokens: Seq<TokenModel>, literals: Literals)
    ensures
        atom_step(tokens, literals).1.len() <= tokens.len(),
        atom_step(tokens, literals).0 is Ok ==> atom_step(tokens, literals).1.len() < tokens.len(),
    decreases tokens.len(), 0int,
{
    if tokens.len() > 0 && (tokens[0].ttype == TokenType::Plus || tokens[0].ttype
        == TokenType::Minus) {
        lemma_atom_step_consumes(tokens.drop_first(), literals);
    } else if tokens.len() > 0 && tokens[0].ttype == TokenType::OpeningParen {
        lemma_expression_step_consumes(tokens.drop_first(), 0, literals);
    }
}

/// An expression takes at least one token.
pub proof fn lemma_expression_step_consumes(
    tokens: Seq<TokenModel>,
    min_prec: nat,
    literals: Literals,
)
    ensures
        expression_step(tokens, min_prec, literals).1.len() <= tokens.len(),
        expression_step(tokens, min_prec, literals).0 is Ok ==> expression_step(
            tokens,
            min_prec,
            literals,
        ).1.len() < tokens.len(),
    decreases tokens.len(), 1int,
{
    lemma_atom_step_consumes(tokens, literals);
    let (lhs, rest) = atom_step(tokens, literals);
    if lhs is Ok {
        lemma_operations_step_consumes(rest, min_prec, literals, Seq::empty());
    }
}

/// Operations give no tokens back.
pub proof fn lemma_operations_step_consumes(
    tokens: Seq<TokenModel>,
    min_prec: nat,
    literals: Literals,
    done: Seq<(Operator, ExpressionModel)>,
)
    ensures
        operations_step(tokens, min_prec, literals, done).1.len() <= tokens.len(),
    decreases tokens.len(), 2int,
{
    if tokens.len() > 0 && binary_operator(tokens[0].ttype) is Some && precedence(
        binary_operator(tokens[0].ttype)->0,
    ) >= min_prec {
        let op = binary_operator(tokens[0].ttype)->0;
        lemma_expression_step_consumes(tokens.drop_first(), operand_precedence(op), literals);
        let (rhs, rest) = expression_step(tokens.drop_first(), operand_precedence(op), literals);
        if rhs is Ok {
            lemma_operations_step_consumes(rest, min_prec, literals, done.push((op, rhs->Ok_0)));
        }
    }
}

/// A parsing result with its texts and numbers as mathematical values.
pub open spec fn outcome<T: View>(r: Result<T, ParseError>) -> Result<T::V, ParseErrorModel> {
    match r {
        Ok(value) => Ok(value@),
        Err(error) => Err(error@),
    }
}

/// The operations of an expression with every number as a fraction.
pub open spec fn operations_model(operations: Seq<(Operator, Box<Expression>)>) -> Seq<
    (Operator, ExpressionModel),
> {
    Seq::new(operations.len(), |i: int| (operations[i].0, (*operations[i].1).model()))
}

/// `literal` reads numbers as `literals` says: whatever it may return on a
/// text is what `literals` gives for that text.
pub open spec fn reads<F: Fn(&str) -> Option<Value>>(literal: &F, literals: Literals) -> bool {
    forall|text: &str, out: Option<Value>| #[trigger]
        call_ensures(literal, (text,), out) ==> match out {
            Some(number) => literals(text@) == Some(number@),
            None => literals(text@) is None,
        }
}

/// A parser over the tokens of a line, with one token of lookahead.
pub struct Parser<'a> {
    lexer: Lexer<'a>,
    current: Option<Token<'a>>,
}

impl<'a> Parser<'a> {
    /// The tokens not yet taken, in order.
    pub closed spec fn remaining(&self) -> Seq<TokenModel> {
        match self.current {
            Some(token) => seq![token@] + self.lexer@.tokens(),
            None => Seq::empty(),
        }
    }

    /// A parser at the first token that `lexer` gives.
    pub fn new(lexer: Lexer<'a>) -> (r: Self)
        ensures
            r.remaining() == lexer@.tokens(),
    {
        let mut lexer = lexer;
        let current = lexer.next();
        Parser { lexer, current }
    }

    /// The next token, which stays in place.
    fn peek(&self) -> (r: Option<&Token<'a>>)
        ensures
            r is Some <==> self.remaining().len() > 0,
            r is Some ==> r->0@ == self.remaining()[0],
    {
        self.current.as_ref()
    }

    /// Takes the next token, if there is one.
    fn advance(&mut self) -> (r: Option<Token<'a>>)
        ensures
            r is Some <==> old(self).remaining().len() > 0,
            r is Some ==> r->0@ == old(self).remaining()[0] && final(self).remaining() == old(
                self,
            ).remaining().drop_first(),
            r is None ==> final(self).remaining() == old(self).remaining(),
    {
        if self.current.is_none() {
            return None;
        }
        let mut taken = self.lexer.next();
        core::mem::swap(&mut self.current, &mut taken);
        assert(old(self).remaining().drop_first() == old(self).lexer@.tokens());
        taken
    }

    /// Parses a whole line: one expression, behind which no token may
    /// follow. The text of the first token that does follow comes back in
    /// `TrailingInput`.
    pub fn parse<F: Fn(&str) -> Option<Value>>(&mut self, literal: &F) -> (r: Result<
        Expression,
        ParseError,
    >)
        requires
            forall|text: &str| call_requires(literal, (text,)),
        ensures
            forall|literals: Literals| #[trigger]
                reads(literal, literals) ==> (outcome(r), final(self).remaining()) == parse_step(
                    old(self).remaining(),
                    literals,
                ),
    {
        let expression = match self.parse_expression(0, literal) {
            Ok(expression) => expression,
            Err(error) => {
                return Err(error);
            },
        };
        match self.advance() {
            Some(token) => Err(ParseError::TrailingInput { text: token.value.to_owned() }),
            None => Ok(expression),
        }
    }

    /// Takes the next token, which has to be of kind `ttype`. A token of
    /// another kind is taken too, and described in the error.
    pub fn eat(&mut self, ttype: TokenType) -> (r: Result<Token<'a>, ParseError>)
        ensures
            (outcome(r), final(self).remaining()) == eat_step(old(self).remaining(), ttype),
    {
        match self.advance() {
            Some(token) => {
                if token.ttype == ttype {
                    Ok(token)
                } else {
                    Err(
                        ParseError::UnexpectedToken {
                            expected: ttype,
                            found: token.ttype,
                            text: token.value.to_owned(),
                            pos: token.pos,
                        },
                    )
                }
            },
            None => Err(ParseError::UnexpectedEndOfInput),
        }
    }

    /// Takes the next token if it is of kind `ttype`, and leaves it in place
    /// otherwise.
    pub fn try_eat(&mut self, ttype: TokenType) -> (r: Option<Token<'a>>)
        ensures
            r is Some <==> old(self).remaining().len() > 0 && old(self).remaining()[0].ttype
                == ttype,
            r is Some ==> r->0@ == old(self).remaining()[0] && final(self).remaining() == old(
                self,
            ).remaining().drop_first(),
            r is None ==> final(self).remaining() == old(self).remaining(),
    {
        let matches = match self.peek() {
            Some(token) => token.ttype == ttype,
            None => false,
        };
        if matches {
            self.advance()
        } else {
            None
        }
    }

    /// The binary operator that the next token stands for, if it stands for
    /// one. The token stays in place.
    fn peek_operator(&self) -> (r: Option<Operator>)
        ensures
            r == if self.remaining().len() > 0 {
                binary_operator(self.remaining()[0].ttype)
            } else {
                None
            },
    {
        match self.peek() {
            Some(token) => token.to_binary_operator(),
            None => None,
        }
    }

    /// Parses an operand and every operation behind it whose operator binds
    /// at least as strongly as `min_prec`.
    fn parse_expression<F: Fn(&str) -> Option<Value>>(&mut self, min_prec: usize, literal: &F) -> (r:
        Result<Expression, ParseError>)
        requires
            forall|text: &str| call_requires(literal, (text,)),
        ensures
            forall|literals: Literals| #[trigger]
                reads(literal, literals) ==> (outcome(r), final(self).remaining())
                    == expression_step(old(self).remaining(), min_prec as nat, literals),
            final(self).remaining().len() <= old(self).remaining().len(),
            r is Ok ==> final(self).remaining().len() < old(self).remaining().len(),
        decreases old(self).remaining().len(), 1int,
    {
        let ghost start = self.remaining();
        let mut operations: Vec<(Operator, Box<Expression>)> = Vec::new();
        let lhs = match self.parse_atom(literal) {
            Ok(atom) => atom,
            Err(error) => {
                return Err(error);
            },
        };
        let ghost behind = self.remaining();
        assert(operations_model(operations@) == Seq::<(Operator, ExpressionModel)>::empty());
        loop
            invariant
                start == old(self).remaining(),
                forall|text: &str| call_requires(literal, (text,)),
                self.remaining().len() <= behind.len() < start.len(),
                forall|literals: Literals| #[trigger]
                    reads(literal, literals) ==> atom_step(start, literals) == (
                        Ok::<AtomModel, ParseErrorModel>(lhs@),
                        behind,
                    ),
                forall|literals: Literals| #[trigger]
                    reads(literal, literals) ==> operations_step(
                        behind,
                        min_prec as nat,
                        literals,
                        Seq::empty(),
                    ) == operations_step(
                        self.remaining(),
                        min_prec as nat,
                        literals,
                        operations_model(operations@),
                    ),
            decreases self.remaining().len(),
        {
            let ghost before = self.remaining();
            let ghost done = operations_model(operations@);
            let op = match self.peek_operator() {
                Some(op) => op,
                None => {
                    let expression = Expression { lhs, operations };
                    assert(expression@.operations == done);
                    return Ok(expression);
                },
            };
            let (prec, assoc) = op.properties();
            if prec < min_prec {
                let expression = Expression { lhs, operations };
                assert(expression@.operations == done);
                return Ok(expression);
            }
            self.advance();
            let next_min_prec: usize = match assoc {
                Associativity::Left => prec + 1,
                Associativity::Right => prec,
            };
            let rhs = match self.parse_expression(next_min_prec, literal) {
                Ok(expression) => expression,
                Err(error) => {
                    return Err(error);
                },
            };
            operations.push((op, Box::new(rhs)));
            assert(operations_model(operations@) == done.push((op, rhs@)));
        }
    }

    /// Parses an operand: any number of signs, then a number or an
    /// expression in parentheses.
    fn parse_atom<F: Fn(&str) -> Option<Value>>(&mut self, literal: &F) -> (r: Result<
        Atom,
        ParseError,
    >)
        requires
            forall|text: &str| call_requires(literal, (text,)),
        ensures
            forall|literals: Literals| #[trigger]
                reads(literal, literals) ==> (outcome(r), final(self).remaining()) == atom_step(
                    old(self).remaining(),
                    literals,
                ),
            final(self).remaining().len() <= old(self).remaining().len(),
            r is Ok ==> final(self).remaining().len() < old(self).remaining().len(),
        decreases old(self).remaining().len(), 0int,
    {
        if self.try_eat(TokenType::Plus).is_some() {
            self.parse_atom(literal)
        } else if self.try_eat(TokenType::Minus).is_some() {
            match self.parse_atom(literal) {
                Ok(atom) => Ok(atom.neg()),
                Err(error) => Err(error),
            }
        } else if self.try_eat(TokenType::OpeningParen).is_some() {
            let expression = match self.parse_expression(0, literal) {
                Ok(expression) => expression,
                Err(error) => {
                    return Err(error);
                },
            };
            match self.eat(TokenType::ClosingParen) {
                Ok(_) => Ok(Atom::Expr(Box::new(expression))),
                Err(error) => Err(error),
            }
        } else {
            match self.parse_number(literal) {
                Ok(number) => Ok(Atom::Number(number)),
                Err(error) => Err(error),
            }
        }
    }

    /// Takes a number token and has `literal` read its text.
    fn parse_number<F: Fn(&str) -> Option<Value>>(&mut self, literal: &F) -> (r: Result<
        Value,
        ParseError,
    >)
        requires
            forall|text: &str| call_requires(literal, (text,)),
        ensures
            forall|literals: Literals| #[trigger]
                reads(literal, literals) ==> (outcome(r), final(self).remaining()) == number_step(
                    old(self).remaining(),
                    literals,
                ),
            final(self).remaining().len() <= old(self).remaining().len(),
            r is Ok ==> final(self).remaining().len() < old(self).remaining().len(),
    {
        let token = match self.eat(TokenType::Number) {
            Ok(token) => token,
            Err(error) => {
                return Err(error);
            },
        };
        match literal(token.value) {
            Some(number) => Ok(number),
            None => Err(ParseError::InvalidNumberLiteral { text: token.value.to_owned() }),
        }
    }
}

impl Expression {
    /// Changes the sign of every operand: of the left operand, and of the
    /// right operand of every operation.
    pub fn neg(self) -> (r: Expression)
        ensures
            r@ == self@.negated(),
        decreases self,
    {
        let ghost before = self.operations@;
        let lhs = self.lhs.neg();
        let mut operations: Vec<(Operator, Box<Expression>)> = Vec::new();
        for pair in it: self.operations
            invariant
                it.seq() == before,
                operations@.len() == it.index(),
                forall|j: int|
                    0 <= j < operations@.len() ==> #[trigger] operations@[j].0 == before[j].0 && (
                    *operations@[j].1).model() == (*before[j].1).model().negated(),
        {
            let (op, expression) = pair;
            operations.push((op, Box::new((*expression).neg())));
        }
        let r = Expression { lhs, operations };
        assert(r@.operations =~= self@.negated().operations);
        r
    }
}

impl Atom {
    /// A number changes its sign; an expression in parentheses is negated
    /// operand by operand.
    pub fn neg(self) -> (r: Atom)
        ensures
            r@ == self@.negated(),
        decreases self,
    {
        match self {
            Atom::Number(number) => Atom::Number(ratio_negation(&number)),
            Atom::Expr(expression) => Atom::Expr(Box::new((*expression).neg())),
        }
    }
}

} // verus!
