use vstd::prelude::*;

verus! {

/// What can go wrong while splitting a line into tokens.
#[derive(Debug, Clone, Copy, PartialEq, Eq)]
pub enum TokenizeError {
    /// A `!` or `=` stands last on the line, with nothing to compare or assign.
    UnexpectedEnd,
    /// A `!` is followed by this character instead of `=`.
    UnknownComparison(char),
    /// A string literal is opened and never closed.
    UnterminatedString,
}

/// What can go wrong while building an expression from tokens.
#[derive(Debug, Clone, Copy, PartialEq, Eq)]
pub enum ParseError {
    /// The line held no token at all.
    NoTokens,
    /// The first token cannot start an expression.
    UnexpectedToken,
    /// A variable is followed by something other than `=`.
    ExpectedAssignment,
    /// An `=` is not followed by a string literal or a variable.
    ExpectedAssignedValue,
    /// An operand of a comparison is neither a string literal nor a variable.
    ExpectedValue,
    /// The line ends before both operands of a comparison.
    MissingValue,
    /// The first operand of a comparison is not followed by `==` or `!=`.
    ExpectedComparison,
}

/// Any failure of the engine: the first one met ends the whole run.
#[derive(Debug, Clone, PartialEq, Eq)]
pub enum EngineError {
    Tokenize(TokenizeError),
    Parse(ParseError),
    /// A variable was read before any value was assigned to it.
    UndefinedVariable(String),
}

/// The mathematical value of an [`EngineError`].
pub enum SpecError {
    Tokenize(TokenizeError),
    Parse(ParseError),
    UndefinedVariable(Seq<char>),
}

impl View for EngineError {
    type V = SpecError;

    open spec fn view(&self) -> SpecError {
        match self {
            EngineError::Tokenize(e) => SpecError::Tokenize(*e),
            EngineError::Parse(e) => SpecError::Parse(*e),
            EngineError::UndefinedVariable(n) => SpecError::UndefinedVariable(n@),
        }
    }
}

} // verus!
