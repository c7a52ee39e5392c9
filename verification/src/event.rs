//! What a running backend reports to its host.

use vstd::prelude::*;

verus! {

/// One event on the output channel of the backend process.
#[derive(Debug, Clone, PartialEq, Eq)]
pub enum OutputEvent {
    /// A line that the backend wrote to its standard output.
    Stdout(String),
    /// A line that the backend wrote to its standard error.
    Stderr(String),
    /// The backend has exited, with this exit code where the host knows one.
    Terminated(Option<i32>),
    /// Anything else that the host reports.
    Other,
}

/// The mathematical value of an [`OutputEvent`]: lines are sequences of characters.
pub enum OutputEventView {
    Stdout(Seq<char>),
    Stderr(Seq<char>),
    Terminated(Option<i32>),
    Other,
}

impl View for OutputEvent {
    type V = OutputEventView;

    open spec fn view(&self) -> OutputEventView {
        match *self {
            OutputEvent::Stdout(line) => OutputEventView::Stdout(line@),
            OutputEvent::Stderr(line) => OutputEventView::Stderr(line@),
            OutputEvent::Terminated(code) => OutputEventView::Terminated(code),
            OutputEvent::Other => OutputEventView::Other,
        }
    }
}

impl DeepView for OutputEvent {
    type V = OutputEventView;

    open spec fn deep_view(&self) -> OutputEventView {
        self@
    }
}

} // verus!
