use vstd::prelude::*;
use crate::token::{Token, TokenView};

verus! {

/// What a runtime error says.
#[derive(Debug)]
pub enum RuntimeErrorMessage {
    OperandMustBeNumber,
    OperandsMustBeNumbers,
    OperandsMustBeNumberOrString,
    UndefinedVariable(Vec<char>),
}

pub enum MessageView {
    OperandMustBeNumber,
    OperandsMustBeNumbers,
    OperandsMustBeNumberOrString,
    UndefinedVariable(Seq<char>),
}

impl View for RuntimeErrorMessage {
    type V = MessageView;

    open spec fn view(&self) -> MessageView {
        match self {
            RuntimeErrorMessage::OperandMustBeNumber => MessageView::OperandMustBeNumber,
            RuntimeErrorMessage::OperandsMustBeNumbers => MessageView::OperandsMustBeNumbers,
            RuntimeErrorMessage::OperandsMustBeNumberOrString => MessageView::OperandsMustBeNumberOrString,
            RuntimeErrorMessage::UndefinedVariable(n) => MessageView::UndefinedVariable(n@),
        }
    }
}

/// A runtime error at the token of the failing operation or name.
#[derive(Debug)]
pub struct RuntimeError {
    pub token: Token,
    pub message: RuntimeErrorMessage,
}

pub struct RuntimeErrorView {
    pub token: TokenView,
    pub message: MessageView,
}

impl View for RuntimeError {
    type V = RuntimeErrorView;

    open spec fn view(&self) -> RuntimeErrorView {
        RuntimeErrorView { token: self.token@, message: self.message@ }
    }
}

/// Why execution stopped early: a runtime error, or a loop that used up its step budget.
#[derive(Debug)]
pub enum Interrupt {
    Error(RuntimeError),
    StepLimit,
}

pub enum InterruptView {
    Error(RuntimeErrorView),
    StepLimit,
}

impl View for Interrupt {
    type V = InterruptView;

    open spec fn view(&self) -> InterruptView {
        match self {
            Interrupt::Error(e) => InterruptView::Error(e@),
            Interrupt::StepLimit => InterruptView::StepLimit,
        }
    }
}

} // verus!
