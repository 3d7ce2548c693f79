//! Errors that a tool call is answered with.

use vstd::prelude::*;

verus! {

/// Why a tool call was refused or failed. `T` is the text of a message.
#[derive(Debug, Clone, PartialEq, Eq)]
pub enum ToolError<T = String> {
    /// The call needs an open database.
    NoDatabaseOpen,
    /// Another database is open; its path.
    DatabaseAlreadyOpen(T),
    /// The database is in use elsewhere.
    DatabaseLocked(T),
    /// A path cannot be used.
    InvalidPath(T),
    /// The arguments do not fit together or do not fit the database.
    InvalidParams(T),
    /// The database could not be opened.
    OpenFailed(T),
    /// The call was cancelled.
    Cancelled(T),
    /// An IDA call failed.
    Ida(T),
}

impl View for ToolError<String> {
    type V = ToolError<Seq<char>>;

    open spec fn view(&self) -> ToolError<Seq<char>> {
        match self {
            ToolError::NoDatabaseOpen => ToolError::NoDatabaseOpen,
            ToolError::DatabaseAlreadyOpen(text) => ToolError::DatabaseAlreadyOpen(text@),
            ToolError::DatabaseLocked(text) => ToolError::DatabaseLocked(text@),
            ToolError::InvalidPath(text) => ToolError::InvalidPath(text@),
            ToolError::InvalidParams(text) => ToolError::InvalidParams(text@),
            ToolError::OpenFailed(text) => ToolError::OpenFailed(text@),
            ToolError::Cancelled(text) => ToolError::Cancelled(text@),
            ToolError::Ida(text) => ToolError::Ida(text@),
        }
    }
}

impl<T> ToolError<T> {
    /// The message that the error carries.
    pub open spec fn text(self) -> Option<T> {
        match self {
            ToolError::NoDatabaseOpen => None,
            ToolError::DatabaseAlreadyOpen(text) => Some(text),
            ToolError::DatabaseLocked(text) => Some(text),
            ToolError::InvalidPath(text) => Some(text),
            ToolError::InvalidParams(text) => Some(text),
            ToolError::OpenFailed(text) => Some(text),
            ToolError::Cancelled(text) => Some(text),
            ToolError::Ida(text) => Some(text),
        }
    }

    /// The message that the error carries.
    pub fn message(&self) -> (r: Option<&T>)
        ensures
            match self.text() {
                Some(text) => r == Some(&text),
                None => r is None,
            },
    {
        match self {
            ToolError::NoDatabaseOpen => None,
            ToolError::DatabaseAlreadyOpen(text) => Some(text),
            ToolError::DatabaseLocked(text) => Some(text),
            ToolError::InvalidPath(text) => Some(text),
            ToolError::InvalidParams(text) => Some(text),
            ToolError::OpenFailed(text) => Some(text),
            ToolError::Cancelled(text) => Some(text),
            ToolError::Ida(text) => Some(text),
        }
    }
}

} // verus!
