use vstd::prelude::*;

verus! {

/// What went wrong: a malformed expression, or a well-formed one that
/// cannot be evaluated.
#[derive(Debug, PartialEq, Eq)]
pub enum Error {
    SyntaxError(String),
    InterpreterError(String),
}

pub enum ErrorModel {
    Syntax(Seq<char>),
    Interpreter(Seq<char>),
}

impl View for Error {
    type V = ErrorModel;

    open spec fn view(&self) -> ErrorModel {
        match self {
            Error::SyntaxError(m) => ErrorModel::Syntax(m@),
            Error::InterpreterError(m) => ErrorModel::Interpreter(m@),
        }
    }
}

} // verus!
