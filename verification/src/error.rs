//! What can go wrong inside the library.

use vstd::prelude::*;

verus! {

/// The failures that the library reports.
#[derive(Debug, PartialEq, Eq)]
pub enum WsfError {
    /// No terminal's name starts with the given text.
    TerminalNotFound(String),
    /// The given text is no encoded timestamp.
    MalformedTimestamp(String),
}

/// A failure with the text it carries.
pub ghost enum WsfErrorView {
    TerminalNotFound(Seq<char>),
    MalformedTimestamp(Seq<char>),
}

impl View for WsfError {
    type V = WsfErrorView;

    open spec fn view(&self) -> WsfErrorView {
        match self {
            WsfError::TerminalNotFound(term) => WsfErrorView::TerminalNotFound(term@),
            WsfError::MalformedTimestamp(text) => WsfErrorView::MalformedTimestamp(text@),
        }
    }
}

impl WsfErrorView {
    /// The line that tells a user of the failure.
    pub open spec fn message(self) -> Seq<char> {
        match self {
            WsfErrorView::TerminalNotFound(term) => "Terminal not found: "@ + term,
            WsfErrorView::MalformedTimestamp(text) => "Malformed timestamp: "@ + text,
        }
    }
}

impl WsfError {
    /// The line that tells a user of the failure.
    pub fn message(&self) -> (r: String)
        ensures
            r@ == self@.message(),
    {
        match self {
            WsfError::TerminalNotFound(term) => {
                let mut out: String = String::from_str("Terminal not found: ");
                out.append(term.as_str());
                out
            },
            WsfError::MalformedTimestamp(text) => {
                let mut out: String = String::from_str("Malformed timestamp: ");
                out.append(text.as_str());
                out
            },
        }
    }
}

} // verus!
