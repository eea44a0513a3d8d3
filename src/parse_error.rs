use vstd::prelude::*;
use crate::token::{Token, TokenView};

verus! {

/// The construct after which a token was expected.
#[derive(Clone, Copy, Debug, PartialEq, Eq, Structural)]
pub enum ExpectAfter {
    While,
    Expression,
    If,
    Condition,
    For,
    ForClauses,
    Value,
    Declaration,
    LoopCondition,
}

/// What a syntax error says.
#[derive(Clone, Copy, Debug, PartialEq, Eq, Structural)]
pub enum ParseErrorMessage {
    ExpectLeftParen(ExpectAfter),
    ExpectRightParen(ExpectAfter),
    ExpectExpression,
    ExpectSemicolon(ExpectAfter),
    ExpectBraceAfterBlock,
    ExpectVariableName,
    InvalidAssignmentTarget,
}

/// A syntax error at a token.
#[derive(Debug)]
pub struct ParseError {
    pub token: Token,
    pub message: ParseErrorMessage,
}

pub struct ParseErrorView {
    pub token: TokenView,
    pub message: ParseErrorMessage,
}

impl View for ParseError {
    type V = ParseErrorView;

    open spec fn view(&self) -> ParseErrorView {
        ParseErrorView { token: self.token@, message: self.message }
    }
}

} // verus!
