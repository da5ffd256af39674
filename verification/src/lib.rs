pub mod ast;
pub mod lexer;
pub mod parser;
pub mod token;

pub use ast::{Let, Program, ReturnStatement, Statement};
pub use lexer::{integer_literals_fit, is_digit, is_letter, tokenize, Lexer};
pub use parser::Parser;
pub use token::{lookup_identifier, Token, TokenKind};
