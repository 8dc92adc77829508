//! Lexical errors, each with the position it was found at.
use vstd::prelude::*;

use crate::text::{position_text, push_char, push_position};
use crate::token::TokenPosition;

verus! {

/// Why a source text could not be scanned.
#[derive(Debug, PartialEq)]
pub enum ScannerError {
    /// A character that begins no token.
    UnknownCharacter(TokenPosition, char),
    /// A maximal run of letters that is not `true`, `false` or `null`.
    UnknownLiteral(TokenPosition, String),
    /// A string whose closing quote never came.
    UnterminatedString(TokenPosition),
}

/// The mathematical value of a `ScannerError`.
pub enum ScanErrorModel {
    UnknownCharacter(TokenPosition, char),
    UnknownLiteral(TokenPosition, Seq<char>),
    UnterminatedString(TokenPosition),
}

impl View for ScannerError {
    type V = ScanErrorModel;

    open spec fn view(&self) -> ScanErrorModel {
        match self {
            ScannerError::UnknownCharacter(p, c) => ScanErrorModel::UnknownCharacter(*p, *c),
            ScannerError::UnknownLiteral(p, w) => ScanErrorModel::UnknownLiteral(*p, w@),
            ScannerError::UnterminatedString(p) => ScanErrorModel::UnterminatedString(*p),
        }
    }
}

/// The message of a scanner error:
/// `Error at [line:L, between:S-E] <reason>`, the offending text in brackets.
pub open spec fn scan_error_text(e: ScanErrorModel) -> Seq<char> {
    match e {
        ScanErrorModel::UnknownCharacter(p, c) => position_text(p) + "Unknown character ["@
            + seq![c] + "]"@,
        ScanErrorModel::UnknownLiteral(p, w) => position_text(p) + "Unknown literal ["@ + w
            + "]"@,
        ScanErrorModel::UnterminatedString(p) => position_text(p) + "Unterminated string"@,
    }
}

impl ScannerError {
    /// The human-readable message of the error.
    pub fn to_string(&self) -> (r: String)
        ensures
            r@ == scan_error_text(self@),
    {
        let mut s = String::new();
        match self {
            ScannerError::UnknownCharacter(p, c) => {
                push_position(&mut s, *p);
                s.append("Unknown character [");
                push_char(&mut s, *c);
                s.append("]");
            },
            ScannerError::UnknownLiteral(p, w) => {
                push_position(&mut s, *p);
                s.append("Unknown literal [");
                s.append(w.as_str());
                s.append("]");
            },
            ScannerError::UnterminatedString(p) => {
                push_position(&mut s, *p);
                s.append("Unterminated string");
            },
        }
        assert(s@ =~= scan_error_text(self@));
        s
    }
}

} // verus!
