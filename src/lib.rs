//! A JSON scanner and recursive-descent parser whose behaviour is stated as
//! contracts over mathematical models and proved.
pub mod ast_nodes;
pub mod parser;
pub mod parser_error;
pub mod scanner;
pub mod scanner_error;
pub mod text;
pub mod token;

pub use ast_nodes::{AstNode, Tree};
pub use parser::{Parser, MAX_DEPTH};
pub use parser_error::{ParseErrorModel, ParserError};
pub use scanner::Scanner;
pub use scanner_error::{ScanErrorModel, ScannerError};
pub use token::{LiteralModel, Token, TokenLiteral, TokenModel, TokenPosition, TokenType};
