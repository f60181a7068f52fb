//! The grammar as a relation between token ranges and expressions, and the
//! proof that the parser finds exactly what the grammar derives.

use crate::lexer::Token;
use crate::parser::{
    additive_operators, fold_left, lemma_arithmetic_unfold, lemma_fold_left_unfold,
    lemma_primary_advances, lemma_rule_advances, multiplicative_operators, operation_for,
    parse_arithmetic, parse_primary, parse_rule, parse_toplevel, rank, remaining, token_at,
    Expression, Operation, ParseError, Rule,
};
use vstd::prelude::*;

verus! {

/// The rule that parses the operands of `rule`, for a rule that is a chain
/// of operands.
pub open spec fn operand_rule(rule: Rule) -> Rule {
    match rule {
        Rule::Additive => Rule::Multiplicative,
        _ => Rule::Primary,
    }
}

/// The operators that join the operands of `rule`, for a rule that is a
/// chain of operands.
pub open spec fn operators(rule: Rule) -> Seq<(Token, Operation)> {
    match rule {
        Rule::Additive => additive_operators(),
        Rule::Multiplicative => multiplicative_operators(),
        Rule::Primary => Seq::empty(),
    }
}

/// Whether the grammar derives `expression` by `rule` from exactly the
/// tokens from `from` up to, and without, `to`.
///
/// A primary is an integer token, a unary minus before a primary, or an
/// additive expression between a pair of parentheses, which leave no
/// trace in the tree. The other rules are chains.
pub open spec fn derives(
    tokens: Seq<Token>,
    rule: Rule,
    from: int,
    to: int,
    expression: Expression,
) -> bool
    decreases to - from, 2 * rank(rule),
{
    &&& 0 <= from < to <= tokens.len()
    &&& match rule {
        Rule::Primary => {
            ||| to == from + 1 && (expression matches Expression::Integer(value) && tokens[from]
                == Token::Integer(value))
            ||| tokens[from] == Token::Minus && (expression matches Expression::UnaryMinus(operand)
                && derives(tokens, Rule::Primary, from + 1, to, *operand))
            ||| from + 1 < to - 1 && tokens[from] == Token::LeftParen && tokens[to - 1]
                == Token::RightParen && derives(tokens, Rule::Additive, from + 1, to - 1, expression)
        },
        _ => chain(tokens, operand_rule(rule), operators(rule), from, to, expression),
    }
}

/// Whether `expression` is a chain over exactly the tokens from `from` up
/// to, and without, `to`: a single operand of `base`, or a shorter chain,
/// an operator of `table` and one more operand of `base` as the right
/// side of the operation at the root.
pub open spec fn chain(
    tokens: Seq<Token>,
    base: Rule,
    table: Seq<(Token, Operation)>,
    from: int,
    to: int,
    expression: Expression,
) -> bool
    decreases to - from, 2 * rank(base) + 1,
{
    &&& 0 <= from < to <= tokens.len()
    &&& {
        ||| derives(tokens, base, from, to, expression)
        ||| match expression {
            Expression::BinaryOperation(left, operation, right) => exists|mid: int|
                {
                    &&& from < mid
                    &&& mid + 1 < to
                    &&& operation_for(table, #[trigger] tokens[mid]) == Some(operation)
                    &&& chain(tokens, base, table, from, mid, *left)
                    &&& derives(tokens, base, mid + 1, to, *right)
                },
            _ => false,
        }
    }
}

/// The primary that the parser finds is one that the grammar derives from
/// the tokens that it used.
pub proof fn lemma_primary_derives(tokens: Seq<Token>, pos: int)
    ensures
        parse_primary(tokens, pos) is Ok ==> derives(
            tokens,
            Rule::Primary,
            pos,
            parse_primary(tokens, pos)->Ok_0.1,
            parse_primary(tokens, pos)->Ok_0.0,
        ),
    decreases remaining(tokens, pos), 1nat,
{
    lemma_primary_advances(tokens, pos);
    match token_at(tokens, pos) {
        Ok(Token::LeftParen) => {
            lemma_rule_derives(tokens, Rule::Additive, pos + 1);
            lemma_rule_advances(tokens, Rule::Additive, pos + 1);
        },
        Ok(Token::Minus) => {
            lemma_primary_derives(tokens, pos + 1);
            lemma_primary_advances(tokens, pos + 1);
        },
        _ => {},
    }
}

/// What a rule parses is what the grammar derives by that rule from the
/// tokens that the parser used.
pub proof fn lemma_rule_derives(tokens: Seq<Token>, rule: Rule, pos: int)
    ensures
        parse_rule(tokens, rule, pos) is Ok ==> derives(
            tokens,
            rule,
            pos,
            parse_rule(tokens, rule, pos)->Ok_0.1,
            parse_rule(tokens, rule, pos)->Ok_0.0,
        ),
    decreases remaining(tokens, pos), 3 * rank(rule) + 2,
{
    lemma_rule_advances(tokens, rule, pos);
    match rule {
        Rule::Additive => lemma_arithmetic_derives(
            tokens,
            Rule::Multiplicative,
            additive_operators(),
            pos,
        ),
        Rule::Multiplicative => lemma_arithmetic_derives(
            tokens,
            Rule::Primary,
            multiplicative_operators(),
            pos,
        ),
        Rule::Primary => lemma_primary_derives(tokens, pos),
    }
}

/// What is parsed as operands joined by operators is a chain over the
/// tokens that the parser used.
pub proof fn lemma_arithmetic_derives(
    tokens: Seq<Token>,
    base: Rule,
    table: Seq<(Token, Operation)>,
    pos: int,
)
    ensures
        parse_arithmetic(tokens, base, table, pos) is Ok ==> chain(
            tokens,
            base,
            table,
            pos,
            parse_arithmetic(tokens, base, table, pos)->Ok_0.1,
            parse_arithmetic(tokens, base, table, pos)->Ok_0.0,
        ),
    decreases remaining(tokens, pos), 3 * rank(base) + 3,
{
    lemma_rule_advances(tokens, base, pos);
    lemma_rule_derives(tokens, base, pos);
    match parse_rule(tokens, base, pos) {
        Ok((first, next)) => lemma_fold_left_derives(tokens, base, table, pos, first, next),
        Err(_) => {},
    }
}

/// Extending a chain that starts at `start` gives a chain that starts
/// there.
pub proof fn lemma_fold_left_derives(
    tokens: Seq<Token>,
    base: Rule,
    table: Seq<(Token, Operation)>,
    start: int,
    left: Expression,
    pos: int,
)
    requires
        chain(tokens, base, table, start, pos, left),
    ensures
        chain(
            tokens,
            base,
            table,
            start,
            fold_left(tokens, base, table, left, pos).1,
            fold_left(tokens, base, table, left, pos).0,
        ),
    decreases remaining(tokens, pos), 0nat,
{
    match token_at(tokens, pos) {
        Err(_) => {},
        Ok(token) => match operation_for(table, token) {
            None => {},
            Some(operation) => {
                lemma_rule_advances(tokens, base, pos + 1);
                lemma_rule_derives(tokens, base, pos + 1);
                match parse_rule(tokens, base, pos + 1) {
                    Err(_) => {},
                    Ok((right, next)) => {
                        let joined = Expression::BinaryOperation(
                            Box::new(left),
                            operation,
                            Box::new(right),
                        );
                        assert(operation_for(table, tokens[pos]) == Some(operation));
                        assert(chain(tokens, base, table, start, next, joined));
                        lemma_fold_left_derives(tokens, base, table, start, joined, next);
                    },
                }
            },
        },
    }
}

/// An expression that the parser gives for a token sequence is one that
/// the grammar derives from the whole of it.
pub proof fn lemma_toplevel_derives(tokens: Seq<Token>)
    ensures
        parse_toplevel(tokens) is Ok ==> derives(
            tokens,
            Rule::Additive,
            0,
            tokens.len() as int,
            parse_toplevel(tokens)->Ok_0,
        ),
{
    lemma_rule_derives(tokens, Rule::Additive, 0);
}

/// The operators of the two levels, token by token.
pub proof fn lemma_operators(token: Token)
    ensures
        operation_for(additive_operators(), token) == match token {
            Token::Plus => Some(Operation::Plus),
            Token::Minus => Some(Operation::Minus),
            _ => None,
        },
        operation_for(multiplicative_operators(), token) == match token {
            Token::Times => Some(Operation::Times),
            Token::Div => Some(Operation::Div),
            _ => None,
        },
        operation_for(Seq::empty(), token) is None,
{
    reveal_with_fuel(operation_for, 3);
    assert(additive_operators().skip(1).skip(1).len() == 0);
    assert(multiplicative_operators().skip(1).skip(1).len() == 0);
}

/// Whether an operator that joins the operands of `rule` stands at `pos`.
pub open spec fn operator_at(tokens: Seq<Token>, rule: Rule, pos: int) -> bool {
    0 <= pos < tokens.len() && operation_for(operators(rule), tokens[pos]) is Some
}

/// Whether what `rule` parses cannot go on at `pos`: no operator stands
/// there that would extend it. A primary is never extended, a product is
/// extended by `*` and `/`, a sum by any of the four operators.
pub open spec fn closed(tokens: Seq<Token>, rule: Rule, pos: int) -> bool {
    match rule {
        Rule::Primary => true,
        Rule::Multiplicative => !operator_at(tokens, Rule::Multiplicative, pos),
        Rule::Additive => !operator_at(tokens, Rule::Multiplicative, pos) && !operator_at(
            tokens,
            Rule::Additive,
            pos,
        ),
    }
}

/// What the grammar derives by a rule from a range of tokens that no
/// operator follows is what the parser finds there: it uses exactly those
/// tokens and gives that expression.
pub proof fn lemma_derived_is_parsed(
    tokens: Seq<Token>,
    rule: Rule,
    from: int,
    to: int,
    expression: Expression,
)
    requires
        derives(tokens, rule, from, to, expression),
        closed(tokens, rule, to),
    ensures
        parse_rule(tokens, rule, from) == Ok::<(Expression, int), ParseError>((expression, to)),
    decreases to - from, 2 * rank(rule),
{
    match rule {
        Rule::Primary => {
            match tokens[from] {
                Token::Minus => {
                    let operand = expression->UnaryMinus_0;
                    lemma_derived_is_parsed(tokens, Rule::Primary, from + 1, to, *operand);
                },
                Token::LeftParen => {
                    lemma_operators(tokens[to - 1]);
                    lemma_derived_is_parsed(tokens, Rule::Additive, from + 1, to - 1, expression);
                },
                _ => {},
            }
        },
        _ => {
            let base = operand_rule(rule);
            let table = operators(rule);
            lemma_chain_is_parsed(tokens, rule, from, to, expression);
            lemma_arithmetic_unfold(tokens, base, table, from);
            if 0 <= to < tokens.len() {
                lemma_operators(tokens[to]);
            }
        },
    }
}

/// The parser follows a chain that the grammar derives: it finds the
/// first operand, and extending that gets as far as the whole chain.
pub proof fn lemma_chain_is_parsed(
    tokens: Seq<Token>,
    rule: Rule,
    from: int,
    to: int,
    expression: Expression,
)
    requires
        rule != Rule::Primary,
        chain(tokens, operand_rule(rule), operators(rule), from, to, expression),
        closed(tokens, operand_rule(rule), to),
    ensures
        parse_rule(tokens, operand_rule(rule), from) is Ok,
        fold_left(
            tokens,
            operand_rule(rule),
            operators(rule),
            parse_rule(tokens, operand_rule(rule), from)->Ok_0.0,
            parse_rule(tokens, operand_rule(rule), from)->Ok_0.1,
        ) == fold_left(tokens, operand_rule(rule), operators(rule), expression, to),
    decreases to - from, 2 * rank(operand_rule(rule)) + 1,
{
    let base = operand_rule(rule);
    let table = operators(rule);
    if derives(tokens, base, from, to, expression) {
        lemma_derived_is_parsed(tokens, base, from, to, expression);
    } else {
        let left = expression->BinaryOperation_0;
        let operation = expression->BinaryOperation_1;
        let right = expression->BinaryOperation_2;
        let mid = choose|mid: int|
            {
                &&& from < mid
                &&& mid + 1 < to
                &&& operation_for(table, #[trigger] tokens[mid]) == Some(operation)
                &&& chain(tokens, base, table, from, mid, *left)
                &&& derives(tokens, base, mid + 1, to, *right)
            };
        lemma_operators(tokens[mid]);
        lemma_chain_is_parsed(tokens, rule, from, mid, *left);
        lemma_derived_is_parsed(tokens, base, mid + 1, to, *right);
        lemma_fold_left_unfold(tokens, base, table, *left, mid);
    }
}

/// A token sequence parses to an expression exactly if the grammar
/// derives that expression from the whole sequence. So the grammar gives
/// a token sequence at most one expression.
pub proof fn lemma_parse_is_derivation(tokens: Seq<Token>, expression: Expression)
    ensures
        parse_toplevel(tokens) == Ok::<Expression, ParseError>(expression) <==> derives(
            tokens,
            Rule::Additive,
            0,
            tokens.len() as int,
            expression,
        ),
{
    lemma_toplevel_derives(tokens);
    if derives(tokens, Rule::Additive, 0, tokens.len() as int, expression) {
        lemma_derived_is_parsed(tokens, Rule::Additive, 0, tokens.len() as int, expression);
    }
}

} // verus!
