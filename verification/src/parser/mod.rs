//! Syntax analysis: tokens to an expression tree.
//!
//! The grammar, from lowest to highest precedence, all binary operators
//! associating to the left:
//!
//! ```text
//! Toplevel       ::= Additive                      (all tokens are used)
//! Additive       ::= Multiplicative (('+' | '-') Multiplicative)*
//! Multiplicative ::= Primary (('*' | '/') Primary)*
//! Primary        ::= Integer | '(' Additive ')' | '-' Primary
//! ```

use crate::common::text::{decimal_nat, push_decimal};
use crate::lexer::{push_token, token_text, Token};
use vstd::prelude::*;

pub mod grammar;

verus! {

/// A binary operator.
#[derive(Debug, Clone, Copy, PartialEq, Eq, Structural)]
pub enum Operation {
    Plus,
    Minus,
    Times,
    Div,
}

/// An arithmetic expression as a tree.
#[derive(Debug, PartialEq, Eq)]
pub enum Expression {
    Integer(u32),
    UnaryMinus(Box<Expression>),
    BinaryOperation(Box<Expression>, Operation, Box<Expression>),
}

/// What the parser was looking for when it met a token that it cannot use.
#[derive(Debug, Clone, Copy, PartialEq, Eq, Structural)]
pub enum Expected {
    /// The parenthesis that closes a group.
    RightParen,
    /// The start of a primary: a left parenthesis, an integer or a unary
    /// minus.
    Primary,
}

/// Why a token sequence is no expression.
#[derive(Debug, Clone, Copy, PartialEq, Eq, Structural)]
pub enum ParseError {
    /// A token was needed at a position at or past the end.
    OutOfTokens,
    /// The token found, and what was expected in its place.
    UnexpectedToken(Token, Expected),
    /// An expression ends before the position, and tokens are left from
    /// there on.
    ExtraTokensAfter(usize),
}

/// A rule of the grammar that parses an operand.
#[derive(Debug, Clone, Copy, PartialEq, Eq, Structural)]
pub enum Rule {
    Additive,
    Multiplicative,
    Primary,
}

/// The outcome of a rule in contracts: the expression and the position
/// after its last token.
pub type Parsed = Result<(Expression, int), ParseError>;

/// How far a rule stands above primaries.
pub open spec fn rank(rule: Rule) -> nat {
    match rule {
        Rule::Primary => 0,
        Rule::Multiplicative => 1,
        Rule::Additive => 2,
    }
}

/// The number of tokens from `pos` on.
pub open spec fn remaining(tokens: Seq<Token>, pos: int) -> nat {
    if pos <= tokens.len() {
        (tokens.len() - pos) as nat
    } else {
        0
    }
}

/// The token at `pos`, if there is one.
pub open spec fn token_at(tokens: Seq<Token>, pos: int) -> Result<Token, ParseError> {
    if 0 <= pos < tokens.len() {
        Ok(tokens[pos])
    } else {
        Err(ParseError::OutOfTokens)
    }
}

/// The operation that the first entry of `table` for `token` names.
pub open spec fn operation_for(table: Seq<(Token, Operation)>, token: Token) -> Option<Operation>
    decreases table.len(),
{
    if table.len() == 0 {
        None
    } else if table[0].0 == token {
        Some(table[0].1)
    } else {
        operation_for(table.skip(1), token)
    }
}

/// The operators of the additive level.
pub open spec fn additive_operators() -> Seq<(Token, Operation)> {
    seq![(Token::Plus, Operation::Plus), (Token::Minus, Operation::Minus)]
}

/// The operators of the multiplicative level.
pub open spec fn multiplicative_operators() -> Seq<(Token, Operation)> {
    seq![(Token::Times, Operation::Times), (Token::Div, Operation::Div)]
}

/// The primary that starts at `pos`: an integer, a group in parentheses,
/// or a unary minus before another primary.
pub open spec fn parse_primary(tokens: Seq<Token>, pos: int) -> Parsed
    decreases remaining(tokens, pos), 1nat,
{
    match token_at(tokens, pos) {
        Err(error) => Err(error),
        Ok(Token::LeftParen) => match parse_rule(tokens, Rule::Additive, pos + 1) {
            Err(error) => Err(error),
            Ok((inner, close)) => match token_at(tokens, close) {
                Err(error) => Err(error),
                Ok(Token::RightParen) => Ok((inner, close + 1)),
                Ok(other) => Err(ParseError::UnexpectedToken(other, Expected::RightParen)),
            },
        },
        Ok(Token::Integer(value)) => Ok((Expression::Integer(value), pos + 1)),
        Ok(Token::Minus) => match parse_primary(tokens, pos + 1) {
            Err(error) => Err(error),
            Ok((operand, next)) => Ok((Expression::UnaryMinus(Box::new(operand)), next)),
        },
        Ok(other) => Err(ParseError::UnexpectedToken(other, Expected::Primary)),
    }
}

/// What `rule` parses from `pos` on.
pub open spec fn parse_rule(tokens: Seq<Token>, rule: Rule, pos: int) -> Parsed
    decreases remaining(tokens, pos), 3 * rank(rule) + 2,
{
    match rule {
        Rule::Additive => parse_arithmetic(
            tokens,
            Rule::Multiplicative,
            additive_operators(),
            pos,
        ),
        Rule::Multiplicative => parse_arithmetic(
            tokens,
            Rule::Primary,
            multiplicative_operators(),
            pos,
        ),
        Rule::Primary => parse_primary(tokens, pos),
    }
}

/// One operand of `base` at `pos`, then as many pairs of an operator of
/// `table` and a further operand as follow it, combined from the left.
///
/// The test `pos <= next` makes the definition well-founded and never
/// fails: see `lemma_rule_advances` and `lemma_arithmetic_unfold`.
pub open spec fn parse_arithmetic(
    tokens: Seq<Token>,
    base: Rule,
    table: Seq<(Token, Operation)>,
    pos: int,
) -> Parsed
    decreases remaining(tokens, pos), 3 * rank(base) + 3,
{
    match parse_rule(tokens, base, pos) {
        Err(error) => Err(error),
        Ok((first, next)) => if pos <= next {
            Ok(fold_left(tokens, base, table, first, next))
        } else {
            Ok((first, next))
        },
    }
}

/// Extends the left operand `left`, which ends before `pos`, for as long
/// as an operator of `table` stands at the position and an operand of
/// `base` parses right after it. A failed operand ends the expression
/// before the operator; its error is dropped.
///
/// The test `pos < next` makes the definition well-founded and never
/// fails: see `lemma_rule_advances` and `lemma_fold_left_unfold`.
pub open spec fn fold_left(
    tokens: Seq<Token>,
    base: Rule,
    table: Seq<(Token, Operation)>,
    left: Expression,
    pos: int,
) -> (Expression, int)
    decreases remaining(tokens, pos), 0nat,
{
    match token_at(tokens, pos) {
        Err(_) => (left, pos),
        Ok(token) => match operation_for(table, token) {
            None => (left, pos),
            Some(operation) => match parse_rule(tokens, base, pos + 1) {
                Err(_) => (left, pos),
                Ok((right, next)) => if pos < next {
                    fold_left(
                        tokens,
                        base,
                        table,
                        Expression::BinaryOperation(Box::new(left), operation, Box::new(right)),
                        next,
                    )
                } else {
                    (left, pos)
                },
            },
        },
    }
}

/// The expression that all of `tokens` make up.
pub open spec fn parse_toplevel(tokens: Seq<Token>) -> Result<Expression, ParseError> {
    match parse_rule(tokens, Rule::Additive, 0) {
        Err(error) => Err(error),
        Ok((expression, next)) => if next == tokens.len() {
            Ok(expression)
        } else {
            Err(ParseError::ExtraTokensAfter(next as usize))
        },
    }
}

/// The outcome of a rule as the parser hands it out, put into the terms of
/// the contracts.
pub open spec fn parsed(result: Result<(Expression, usize), ParseError>) -> Parsed {
    match result {
        Ok((expression, next)) => Ok((expression, next as int)),
        Err(error) => Err(error),
    }
}

/// A primary that parses starts within the tokens, uses at least one of
/// them and ends within them. One that fails does not complain of extra
/// tokens.
pub proof fn lemma_primary_advances(tokens: Seq<Token>, pos: int)
    ensures
        parse_primary(tokens, pos) is Ok ==> 0 <= pos < parse_primary(tokens, pos)->Ok_0.1
            <= tokens.len(),
        parse_primary(tokens, pos) is Err ==> !(parse_primary(tokens, pos)->Err_0
            is ExtraTokensAfter),
    decreases remaining(tokens, pos), 1nat,
{
    match token_at(tokens, pos) {
        Ok(Token::LeftParen) => lemma_rule_advances(tokens, Rule::Additive, pos + 1),
        Ok(Token::Minus) => lemma_primary_advances(tokens, pos + 1),
        _ => {},
    }
}

/// Whatever a rule parses starts within the tokens, uses at least one of
/// them and ends within them. A rule that fails does not complain of extra
/// tokens.
pub proof fn lemma_rule_advances(tokens: Seq<Token>, rule: Rule, pos: int)
    ensures
        parse_rule(tokens, rule, pos) is Ok ==> 0 <= pos < parse_rule(tokens, rule, pos)->Ok_0.1
            <= tokens.len(),
        parse_rule(tokens, rule, pos) is Err ==> !(parse_rule(tokens, rule, pos)->Err_0
            is ExtraTokensAfter),
    decreases remaining(tokens, pos), 3 * rank(rule) + 2,
{
    match rule {
        Rule::Additive => lemma_arithmetic_advances(
            tokens,
            Rule::Multiplicative,
            additive_operators(),
            pos,
        ),
        Rule::Multiplicative => lemma_arithmetic_advances(
            tokens,
            Rule::Primary,
            multiplicative_operators(),
            pos,
        ),
        Rule::Primary => lemma_primary_advances(tokens, pos),
    }
}

/// A chain of operands that parses starts within the tokens, uses at least
/// one of them and ends within them. It fails only as its first operand
/// does.
pub proof fn lemma_arithmetic_advances(
    tokens: Seq<Token>,
    base: Rule,
    table: Seq<(Token, Operation)>,
    pos: int,
)
    ensures
        parse_arithmetic(tokens, base, table, pos) is Ok ==> 0 <= pos < parse_arithmetic(
            tokens,
            base,
            table,
            pos,
        )->Ok_0.1 <= tokens.len(),
        parse_arithmetic(tokens, base, table, pos) is Ok <==> parse_rule(tokens, base, pos) is Ok,
        parse_arithmetic(tokens, base, table, pos) is Err ==> parse_arithmetic(
            tokens,
            base,
            table,
            pos,
        )->Err_0 == parse_rule(tokens, base, pos)->Err_0 && !(parse_rule(tokens, base, pos)->Err_0
            is ExtraTokensAfter),
    decreases remaining(tokens, pos), 3 * rank(base) + 3,
{
    lemma_rule_advances(tokens, base, pos);
    match parse_rule(tokens, base, pos) {
        Ok((first, next)) => lemma_fold_left_advances(tokens, base, table, first, next),
        Err(_) => {},
    }
}

/// Extending an operand never moves back and ends within the tokens.
pub proof fn lemma_fold_left_advances(
    tokens: Seq<Token>,
    base: Rule,
    table: Seq<(Token, Operation)>,
    left: Expression,
    pos: int,
)
    requires
        0 <= pos <= tokens.len(),
    ensures
        pos <= fold_left(tokens, base, table, left, pos).1 <= tokens.len(),
    decreases remaining(tokens, pos), 0nat,
{
    match token_at(tokens, pos) {
        Err(_) => {},
        Ok(token) => match operation_for(table, token) {
            None => {},
            Some(operation) => {
                lemma_rule_advances(tokens, base, pos + 1);
                match parse_rule(tokens, base, pos + 1) {
                    Err(_) => {},
                    Ok((right, next)) => lemma_fold_left_advances(
                        tokens,
                        base,
                        table,
                        Expression::BinaryOperation(Box::new(left), operation, Box::new(right)),
                        next,
                    ),
                }
            },
        },
    }
}

/// A chain is its first operand, extended: the test on the position in
/// `parse_arithmetic` never fails.
pub proof fn lemma_arithmetic_unfold(
    tokens: Seq<Token>,
    base: Rule,
    table: Seq<(Token, Operation)>,
    pos: int,
)
    ensures
        parse_arithmetic(tokens, base, table, pos) == match parse_rule(tokens, base, pos) {
            Err(error) => Err::<(Expression, int), ParseError>(error),
            Ok((first, next)) => Ok(fold_left(tokens, base, table, first, next)),
        },
{
    lemma_rule_advances(tokens, base, pos);
}

/// An operator of the table that a parsable operand follows always
/// extends the left operand: the test on the position in `fold_left` never
/// fails.
pub proof fn lemma_fold_left_unfold(
    tokens: Seq<Token>,
    base: Rule,
    table: Seq<(Token, Operation)>,
    left: Expression,
    pos: int,
)
    ensures
        fold_left(tokens, base, table, left, pos) == match token_at(tokens, pos) {
            Err(_) => (left, pos),
            Ok(token) => match operation_for(table, token) {
                None => (left, pos),
                Some(operation) => match parse_rule(tokens, base, pos + 1) {
                    Err(_) => (left, pos),
                    Ok((right, next)) => fold_left(
                        tokens,
                        base,
                        table,
                        Expression::BinaryOperation(Box::new(left), operation, Box::new(right)),
                        next,
                    ),
                },
            },
        },
{
    lemma_rule_advances(tokens, base, pos + 1);
}

/// What the whole parse can give: no tokens are out of tokens, a
/// success used every token from the first on, and extra tokens start
/// after the first token and before the end.
pub proof fn lemma_toplevel_outcomes(tokens: Seq<Token>)
    requires
        tokens.len() <= usize::MAX,
    ensures
        tokens.len() == 0 ==> parse_toplevel(tokens) == Err::<Expression, ParseError>(
            ParseError::OutOfTokens,
        ),
        parse_toplevel(tokens) is Ok ==> parse_rule(tokens, Rule::Additive, 0) == Ok::<
            (Expression, int),
            ParseError,
        >((parse_toplevel(tokens)->Ok_0, tokens.len() as int)),
        parse_toplevel(tokens) matches Err(ParseError::ExtraTokensAfter(pos)) ==> 0 < pos
            < tokens.len(),
{
    lemma_rule_advances(tokens, Rule::Additive, 0);
    lemma_rule_advances(tokens, Rule::Multiplicative, 0);
    lemma_rule_advances(tokens, Rule::Primary, 0);
}

/// Looks `token` up in `table`: the operation of the first entry for it.
pub fn find_operation(table: &Vec<(Token, Operation)>, token: &Token) -> (result: Option<
    Operation,
>)
    ensures
        result == operation_for(table@, *token),
{
    let mut index: usize = 0;
    assert(table@.skip(0) =~= table@);
    while index < table.len()
        invariant
            index <= table@.len(),
            operation_for(table@, *token) == operation_for(table@.skip(index as int), *token),
        decreases table@.len() - index,
    {
        if table[index].0 == *token {
            return Some(table[index].1);
        }
        assert(table@.skip(index as int).skip(1) =~= table@.skip(index + 1));
        index += 1;
    }
    None
}

/// A parser over a sequence of tokens. Every rule takes the position at
/// which it starts and gives the position after what it parsed.
pub struct Parser<'a> {
    tokens: &'a [Token],
}

impl<'a> View for Parser<'a> {
    type V = Seq<Token>;

    /// The tokens that the parser reads.
    closed spec fn view(&self) -> Seq<Token> {
        self.tokens@
    }
}

impl<'a> Parser<'a> {
    /// A parser over `tokens`.
    pub fn new(tokens: &'a [Token]) -> (result: Parser<'a>)
        ensures
            result@ == tokens@,
    {
        Parser { tokens }
    }

    /// Parses all of `tokens` as one expression.
    pub fn parse(tokens: &[Token]) -> (result: Result<Expression, ParseError>)
        ensures
            result == parse_toplevel(tokens@),
    {
        Parser::new(tokens).parse_toplevel_expression()
    }

    /// The token at `pos`, or `OutOfTokens` at or past the end.
    pub fn get_token(&self, pos: usize) -> (result: Result<&Token, ParseError>)
        ensures
            match result {
                Ok(token) => token_at(self@, pos as int) == Ok::<Token, ParseError>(*token),
                Err(error) => token_at(self@, pos as int) == Err::<Token, ParseError>(error),
            },
            self@.len() <= usize::MAX,
    {
        if pos < self.tokens.len() {
            Ok(&self.tokens[pos])
        } else {
            Err(ParseError::OutOfTokens)
        }
    }

    /// The error for `token` where `expected` was looked for.
    pub fn unexpected_token<A>(token: &Token, expected: Expected) -> (result: Result<A, ParseError>)
        ensures
            result == Err::<A, ParseError>(ParseError::UnexpectedToken(*token, expected)),
    {
        Err(ParseError::UnexpectedToken(*token, expected))
    }

    /// Parses an expression from the first token on and asks that no token
    /// is left after it.
    pub fn parse_toplevel_expression(&self) -> (result: Result<Expression, ParseError>)
        ensures
            result == parse_toplevel(self@),
    {
        let (expression, pos) = match self.parse_expression(0) {
            Ok(found) => found,
            Err(error) => return Err(error),
        };
        if pos == self.tokens.len() {
            Ok(expression)
        } else {
            Err(ParseError::ExtraTokensAfter(pos))
        }
    }

    /// Parses an expression of the lowest precedence from `pos1` on.
    pub fn parse_expression(&self, pos1: usize) -> (result: Result<(Expression, usize), ParseError>)
        ensures
            parsed(result) == parse_rule(self@, Rule::Additive, pos1 as int),
        decreases remaining(self@, pos1 as int), 10nat,
    {
        self.parse_additive_expression(pos1)
    }

    /// Parses what `rule` describes from `pos` on.
    pub fn parse_operand(&self, rule: Rule, pos: usize) -> (result: Result<
        (Expression, usize),
        ParseError,
    >)
        ensures
            parsed(result) == parse_rule(self@, rule, pos as int),
        decreases remaining(self@, pos as int), 3 * rank(rule) + 2,
    {
        match rule {
            Rule::Additive => self.parse_additive_expression(pos),
            Rule::Multiplicative => self.parse_multiplicative_expression(pos),
            Rule::Primary => self.parse_primary(pos),
        }
    }

    /// Parses one operand of `base_parse` at `start_pos`, then extends it
    /// to the right by each operator of `map` that an operand follows, and
    /// stops before the first token that is no such operator.
    pub fn parse_arithmetic_expression(
        &self,
        start_pos: usize,
        base_parse: Rule,
        map: &Vec<(Token, Operation)>,
    ) -> (result: Result<(Expression, usize), ParseError>)
        ensures
            parsed(result) == parse_arithmetic(self@, base_parse, map@, start_pos as int),
        decreases remaining(self@, start_pos as int), 3 * rank(base_parse) + 3,
    {
        let (first, first_pos) = match self.parse_operand(base_parse, start_pos) {
            Ok(found) => found,
            Err(error) => return Err(error),
        };
        proof {
            lemma_rule_advances(self@, base_parse, start_pos as int);
        }
        let ghost whole = fold_left(self@, base_parse, map@, first, first_pos as int);
        let mut result = first;
        let mut cur_pos = first_pos;

        loop
            invariant
                start_pos < cur_pos <= self@.len(),
                fold_left(self@, base_parse, map@, result, cur_pos as int) == whole,
                parse_arithmetic(self@, base_parse, map@, start_pos as int) == Ok::<
                    (Expression, int),
                    ParseError,
                >(whole),
            decreases remaining(self@, cur_pos as int),
        {
            let token = match self.get_token(cur_pos) {
                Ok(token) => token,
                Err(_) => return Ok((result, cur_pos)),
            };
            let operation = match find_operation(map, token) {
                Some(operation) => operation,
                None => return Ok((result, cur_pos)),
            };
            match self.parse_operand(base_parse, cur_pos + 1) {
                Ok((right_expression, next_pos)) => {
                    proof {
                        lemma_rule_advances(self@, base_parse, cur_pos + 1);
                    }
                    result =
                    Expression::BinaryOperation(
                        Box::new(result),
                        operation,
                        Box::new(right_expression),
                    );
                    cur_pos = next_pos;
                },
                Err(_) => return Ok((result, cur_pos)),
            }
        }
    }

    /// Parses `Multiplicative (('+' | '-') Multiplicative)*` from
    /// `start_pos` on.
    pub fn parse_additive_expression(&self, start_pos: usize) -> (result: Result<
        (Expression, usize),
        ParseError,
    >)
        ensures
            parsed(result) == parse_rule(self@, Rule::Additive, start_pos as int),
        decreases remaining(self@, start_pos as int), 7nat,
    {
        let mut map: Vec<(Token, Operation)> = Vec::new();
        map.push((Token::Plus, Operation::Plus));
        map.push((Token::Minus, Operation::Minus));
        assert(map@ =~= additive_operators());
        self.parse_arithmetic_expression(start_pos, Rule::Multiplicative, &map)
    }

    /// Parses `Primary (('*' | '/') Primary)*` from `start_pos` on.
    pub fn parse_multiplicative_expression(&self, start_pos: usize) -> (result: Result<
        (Expression, usize),
        ParseError,
    >)
        ensures
            parsed(result) == parse_rule(self@, Rule::Multiplicative, start_pos as int),
        decreases remaining(self@, start_pos as int), 4nat,
    {
        let mut map: Vec<(Token, Operation)> = Vec::new();
        map.push((Token::Times, Operation::Times));
        map.push((Token::Div, Operation::Div));
        assert(map@ =~= multiplicative_operators());
        self.parse_arithmetic_expression(start_pos, Rule::Primary, &map)
    }

    /// Parses `Integer | '(' Additive ')' | '-' Primary` from `pos1` on.
    pub fn parse_primary(&self, pos1: usize) -> (result: Result<(Expression, usize), ParseError>)
        ensures
            parsed(result) == parse_primary(self@, pos1 as int),
        decreases remaining(self@, pos1 as int), 1nat,
    {
        let token = match self.get_token(pos1) {
            Ok(token) => token,
            Err(error) => return Err(error),
        };
        match token {
            Token::LeftParen => {
                let (expression, pos2) = match self.parse_expression(pos1 + 1) {
                    Ok(found) => found,
                    Err(error) => return Err(error),
                };
                proof {
                    lemma_rule_advances(self@, Rule::Additive, pos1 + 1);
                }
                let closing = match self.get_token(pos2) {
                    Ok(token) => token,
                    Err(error) => return Err(error),
                };
                match closing {
                    Token::RightParen => Ok((expression, pos2 + 1)),
                    other => Parser::unexpected_token(other, Expected::RightParen),
                }
            },
            Token::Integer(i) => Ok((Expression::Integer(*i), pos1 + 1)),
            Token::Minus => {
                let (primary, pos2) = match self.parse_primary(pos1 + 1) {
                    Ok(found) => found,
                    Err(error) => return Err(error),
                };
                Ok((Expression::UnaryMinus(Box::new(primary)), pos2))
            },
            other => Parser::unexpected_token(other, Expected::Primary),
        }
    }
}

/// The name of an operation.
pub open spec fn operation_text(operation: Operation) -> Seq<char> {
    match operation {
        Operation::Plus => "Plus"@,
        Operation::Minus => "Minus"@,
        Operation::Times => "Times"@,
        Operation::Div => "Div"@,
    }
}

/// An expression written out: the name of each node with its parts in
/// parentheses after it, as in `BinaryOperation(Integer(1), Plus, Integer(2))`.
pub open spec fn expression_text(expression: Expression) -> Seq<char>
    decreases expression,
{
    match expression {
        Expression::Integer(value) => "Integer("@ + decimal_nat(value as nat) + ")"@,
        Expression::UnaryMinus(operand) => "UnaryMinus("@ + expression_text(*operand) + ")"@,
        Expression::BinaryOperation(left, operation, right) => "BinaryOperation("@
            + expression_text(*left) + ", "@ + operation_text(operation) + ", "@ + expression_text(
            *right,
        ) + ")"@,
    }
}

/// The words for what was expected.
pub open spec fn expected_text(expected: Expected) -> Seq<char> {
    match expected {
        Expected::RightParen => "right paren"@,
        Expected::Primary => "left paren; integer; unary minus"@,
    }
}

/// The message of a syntax error.
pub open spec fn parse_error_text(error: ParseError) -> Seq<char> {
    match error {
        ParseError::OutOfTokens => "Out of tokens"@,
        ParseError::UnexpectedToken(token, expected) => "Unexpected token: "@ + token_text(token)
            + ".  Expected "@ + expected_text(expected),
        ParseError::ExtraTokensAfter(pos) => "Extra tokens after position "@ + decimal_nat(
            pos as nat,
        ),
    }
}

impl Operation {
    /// The name of the operation.
    pub fn name(&self) -> (result: &'static str)
        ensures
            result@ == operation_text(*self),
    {
        match self {
            Operation::Plus => "Plus",
            Operation::Minus => "Minus",
            Operation::Times => "Times",
            Operation::Div => "Div",
        }
    }

    /// The name of the operation.
    pub fn to_string(&self) -> (result: String)
        ensures
            result@ == operation_text(*self),
    {
        String::from_str(self.name())
    }
}

/// Appends `expression`, written out, to `text`.
pub fn push_expression(text: &mut String, expression: &Expression)
    ensures
        final(text)@ == old(text)@ + expression_text(*expression),
    decreases *expression,
{
    match expression {
        Expression::Integer(value) => {
            text.append("Integer(");
            push_decimal(text, *value as u64);
            text.append(")");
        },
        Expression::UnaryMinus(operand) => {
            text.append("UnaryMinus(");
            push_expression(text, operand);
            text.append(")");
        },
        Expression::BinaryOperation(left, operation, right) => {
            text.append("BinaryOperation(");
            push_expression(text, left);
            text.append(", ");
            text.append(operation.name());
            text.append(", ");
            push_expression(text, right);
            text.append(")");
        },
    }
    assert(text@ =~= old(text)@ + expression_text(*expression));
}

impl Expression {
    /// The expression written out.
    pub fn to_string(&self) -> (result: String)
        ensures
            result@ == expression_text(*self),
    {
        let mut text = String::new();
        push_expression(&mut text, self);
        assert(text@ =~= expression_text(*self));
        text
    }
}

impl Expected {
    /// The words for what was expected.
    pub fn description(&self) -> (result: &'static str)
        ensures
            result@ == expected_text(*self),
    {
        match self {
            Expected::RightParen => "right paren",
            Expected::Primary => "left paren; integer; unary minus",
        }
    }
}

impl ParseError {
    /// The message of the error.
    pub fn to_string(&self) -> (result: String)
        ensures
            result@ == parse_error_text(*self),
    {
        match self {
            ParseError::OutOfTokens => String::from_str("Out of tokens"),
            ParseError::UnexpectedToken(token, expected) => {
                let mut text = String::from_str("Unexpected token: ");
                push_token(&mut text, token);
                text.append(".  Expected ");
                text.append(expected.description());
                text
            },
            ParseError::ExtraTokensAfter(pos) => {
                let mut text = String::from_str("Extra tokens after position ");
                push_decimal(&mut text, *pos as u64);
                text
            },
        }
    }
}

} // verus!
