//! What can go wrong, by component.

use vstd::prelude::*;

verus! {

/// Why a request to the blackboard got no answer.
#[derive(Debug, PartialEq, Eq, Clone, Copy, Structural)]
pub enum TaskError {
    /// Something failed that has no kind of its own.
    UnspecifiedError,
    /// The reply channel was closed before an answer came.
    ChannelError,
}

/// Why the interpreter gave up on an agent.
#[derive(Debug, PartialEq, Eq)]
pub enum CLIError {
    /// The text is no agent.
    ParseError(String),
    /// An agent names a primitive that is none of the four.
    UnknownPrimitive(String),
    /// The blackboard could not be reached or did not answer.
    CommuncationError(String),
}

impl TaskError {
    /// The words for the error.
    pub open spec fn text(self) -> Seq<char> {
        match self {
            TaskError::UnspecifiedError => "unspecified error"@,
            TaskError::ChannelError => "channel error"@,
        }
    }

    /// The words for the error.
    pub fn message(&self) -> (res: String)
        ensures
            res@ == self.text(),
    {
        match self {
            TaskError::UnspecifiedError => "unspecified error".to_owned(),
            TaskError::ChannelError => "channel error".to_owned(),
        }
    }
}

impl CLIError {
    /// The interpreter's error for a request to the blackboard that ended in
    /// `error`.
    pub fn from_task_error(error: TaskError) -> (res: Self)
        ensures
            res matches CLIError::CommuncationError(words) && words@ == error.text(),
    {
        CLIError::CommuncationError(error.message())
    }
}

/// What the parser found wrong with a text.
#[derive(Debug, PartialEq, Eq, Clone, Copy, Structural)]
pub enum ParseErrorKind {
    /// The text is empty.
    Empty,
    /// An agent was read and characters are left over.
    Trailing,
    /// A primitive's bracket does not open on a token.
    BadToken,
    /// No primitive and no bracketed agent starts here.
    UnknownPrimitive,
    /// A closing bracket is missing.
    UnbalancedParen,
}

/// A parse failure: its kind, and how many characters of the text lie before
/// the place where it was found.
#[derive(Debug, PartialEq, Eq, Clone, Copy, Structural)]
pub struct ParseError {
    pub kind: ParseErrorKind,
    pub position: usize,
}

} // verus!
