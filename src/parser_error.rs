//! Syntax errors.
use vstd::prelude::*;

use crate::text::{position_text, push_position};
use crate::token::TokenPosition;

verus! {

/// Why a token sequence could not be parsed.
#[derive(Debug, PartialEq)]
pub enum ParserError {
    /// The token at the cursor does not fit the grammar; the message says
    /// where, and what was expected.
    UnexpectedToken(String),
    /// An object or array opens deeper than the parser's nesting bound.
    NestingTooDeep(TokenPosition),
}

/// The mathematical value of a `ParserError`.
pub enum ParseErrorModel {
    UnexpectedToken(Seq<char>),
    NestingTooDeep(TokenPosition),
}

impl View for ParserError {
    type V = ParseErrorModel;

    open spec fn view(&self) -> ParseErrorModel {
        match self {
            ParserError::UnexpectedToken(m) => ParseErrorModel::UnexpectedToken(m@),
            ParserError::NestingTooDeep(p) => ParseErrorModel::NestingTooDeep(*p),
        }
    }
}

/// The message of a parser error.
pub open spec fn parse_error_text(e: ParseErrorModel) -> Seq<char> {
    match e {
        ParseErrorModel::UnexpectedToken(m) => m,
        ParseErrorModel::NestingTooDeep(p) => position_text(p) + "Nesting too deep"@,
    }
}

impl ParserError {
    /// The human-readable message of the error.
    pub fn to_string(&self) -> (r: String)
        ensures
            r@ == parse_error_text(self@),
    {
        match self {
            ParserError::UnexpectedToken(m) => m.clone(),
            ParserError::NestingTooDeep(p) => {
                let mut s = String::new();
                push_position(&mut s, *p);
                s.append("Nesting too deep");
                assert(s@ =~= parse_error_text(self@));
                s
            },
        }
    }
}

} // verus!
