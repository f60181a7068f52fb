//! Arithmetic expressions over 32-bit integers: text is split into tokens,
//! tokens are parsed into an expression tree, and the tree is evaluated with
//! overflow-checked arithmetic.

use crate::interpreter::{result_text, value_of, Interpreter};
use crate::lexer::{lex_error_text, tokens_of, Lexer};
use crate::parser::{parse_error_text, parse_toplevel, Parser};
use vstd::prelude::*;

pub mod common;
pub mod interpreter;
pub mod lexer;
pub mod parser;

verus! {

/// The line that reports on the text `input`: its value, or the first
/// error on the way to it, each after the name of the stage that gave it.
pub open spec fn report(input: Seq<char>) -> Seq<char> {
    match tokens_of(input) {
        Err(error) => "Lexer error: "@ + lex_error_text(error),
        Ok(tokens) => match parse_toplevel(tokens) {
            Err(error) => "Parse error: "@ + parse_error_text(error),
            Ok(expression) => "Interpreter result: "@ + result_text(value_of(expression)),
        },
    }
}

/// Tokenizes, parses and evaluates `input`, and gives the line that
/// reports the outcome. A lexical error keeps the text from being parsed,
/// a syntax error keeps it from being evaluated.
pub fn handle_string(input: Vec<char>) -> (result: String)
    ensures
        result@ == report(input@),
{
    match Lexer::tokenize(input) {
        Ok(tokens) => match Parser::parse(tokens.as_slice()) {
            Ok(expression) => {
                let mut line = String::from_str("Interpreter result: ");
                line.append(expression.evaluate_toplevel().to_string().as_str());
                line
            },
            Err(parse_error) => {
                let mut line = String::from_str("Parse error: ");
                line.append(parse_error.to_string().as_str());
                line
            },
        },
        Err(lex_error) => {
            let mut line = String::from_str("Lexer error: ");
            line.append(lex_error.to_string().as_str());
            line
        },
    }
}

} // verus!
