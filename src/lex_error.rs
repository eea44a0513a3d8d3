use vstd::prelude::*;

verus! {

/// What went wrong while scanning.
#[derive(Clone, Copy, Debug, PartialEq, Eq, Structural)]
pub enum LexerErrorMessage {
    UnterminatedString,
    UnexpectedCharacter,
}

/// A lexical error and the line where it was found.
#[derive(Clone, Copy, Debug, PartialEq, Eq, Structural)]
pub struct LexerError {
    pub line: usize,
    pub message: LexerErrorMessage,
}

} // verus!
