//! What can go wrong with a tool.
use vstd::prelude::*;

verus! {

/// Why a tool gives no result.
#[derive(Debug)]
pub enum ToolError {
    /// The client is told this.
    Internal(String),
    /// A path that has no URI, or a URI that stands for no file.
    NotAFile(String),
    /// A diagnostic that is none.
    NotADiagnostic,
    /// A command that is none.
    NotACommand,
    /// A change to the workspace that is none, and why.
    NotAnEdit(String),
    /// Positions that are too far apart.
    TooFar,
    /// A text that is too long for a URI.
    TooLong,
}

#[verifier::ext_equal]
pub enum ToolErrorView {
    Internal(Seq<char>),
    NotAFile(Seq<char>),
    NotADiagnostic,
    NotACommand,
    NotAnEdit(Seq<char>),
    TooFar,
    TooLong,
}

impl DeepView for ToolError {
    type V = ToolErrorView;

    open spec fn deep_view(&self) -> ToolErrorView {
        match *self {
            ToolError::Internal(message) => ToolErrorView::Internal(message@),
            ToolError::NotAFile(text) => ToolErrorView::NotAFile(text@),
            ToolError::NotADiagnostic => ToolErrorView::NotADiagnostic,
            ToolError::NotACommand => ToolErrorView::NotACommand,
            ToolError::NotAnEdit(message) => ToolErrorView::NotAnEdit(message@),
            ToolError::TooFar => ToolErrorView::TooFar,
            ToolError::TooLong => ToolErrorView::TooLong,
        }
    }
}

/// What is said where there is no language server.
pub open spec fn not_available() -> ToolErrorView {
    ToolErrorView::Internal("LSP not available"@)
}

impl ToolError {
    /// There is no language server.
    pub fn unavailable() -> (error: ToolError)
        ensures
            error.deep_view() == not_available(),
    {
        ToolError::Internal("LSP not available".to_owned())
    }
}

/// What came of a tool: its result, or why there is none.
pub open spec fn outcome<T: DeepView>(result: Result<T, ToolError>) -> Result<T::V, ToolErrorView> {
    match result {
        Ok(value) => Ok(value.deep_view()),
        Err(error) => Err(error.deep_view()),
    }
}

/// What the server said: its answer, or what went wrong.
pub open spec fn reply_view<T: DeepView>(reply: Result<T, String>) -> Result<T::V, Seq<char>> {
    match reply {
        Ok(answer) => Ok(answer.deep_view()),
        Err(message) => Err(message@),
    }
}

/// An error is seen as it is; where there is no server, that is what is said.
pub proof fn an_error_is_seen_as_it_is(text: String)
    ensures
        ToolError::Internal(text).deep_view() == ToolErrorView::Internal(text@),
        ToolError::NotAFile(text).deep_view() == ToolErrorView::NotAFile(text@),
        ToolError::NotADiagnostic.deep_view() == ToolErrorView::NotADiagnostic,
        ToolError::NotACommand.deep_view() == ToolErrorView::NotACommand,
        ToolError::NotAnEdit(text).deep_view() == ToolErrorView::NotAnEdit(text@),
        ToolError::TooFar.deep_view() == ToolErrorView::TooFar,
        ToolError::TooLong.deep_view() == ToolErrorView::TooLong,
        not_available() == ToolErrorView::Internal("LSP not available"@),
{
}

} // verus!
