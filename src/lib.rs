pub mod ast;
pub mod diagnostics;
pub mod environment;
pub mod interpret;
pub mod interpreter;
pub mod lex_error;
pub mod lexer;
pub mod number;
pub mod parse_error;
pub mod parser;
pub mod printer;
pub mod prompt;
pub mod runtime_error;
pub mod token;
