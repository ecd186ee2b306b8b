//! What can go wrong on the way to a selection, and the message for each failure.
use vstd::prelude::*;
use vstd::string::*;
use crate::text::Text;

verus! {

/// A failure on the way to a selection. A payload is the text of the underlying cause.
#[derive(Debug, PartialEq, Eq)]
pub enum SelectorError {
    /// The terminal could not switch to its alternate screen.
    EnterScreen(String),
    /// The terminal could not switch back from its alternate screen.
    LeaveScreen(String),
    /// The selector did not accept its options.
    Options(String),
    /// The prompt query could not be sent.
    SendQuery(String),
    /// The receiver of prompt query results could not be locked.
    LockReceiver(String),
    /// No prompt query result could be had from the receiver.
    Polling(String),
    /// The result that came in answers another kind of query.
    WrongResponse,
    /// The command that lists the files has no standard output.
    NoStdout,
    /// Any other failure of the surrounding system.
    Io(String),
}

/// The model of a [`SelectorError`].
pub enum SelectorErrorView {
    EnterScreen(Text),
    LeaveScreen(Text),
    Options(Text),
    SendQuery(Text),
    LockReceiver(Text),
    Polling(Text),
    WrongResponse,
    NoStdout,
    Io(Text),
}

impl View for SelectorError {
    type V = SelectorErrorView;

    open spec fn view(&self) -> SelectorErrorView {
        match self {
            SelectorError::EnterScreen(cause) => SelectorErrorView::EnterScreen(cause@),
            SelectorError::LeaveScreen(cause) => SelectorErrorView::LeaveScreen(cause@),
            SelectorError::Options(cause) => SelectorErrorView::Options(cause@),
            SelectorError::SendQuery(cause) => SelectorErrorView::SendQuery(cause@),
            SelectorError::LockReceiver(cause) => SelectorErrorView::LockReceiver(cause@),
            SelectorError::Polling(cause) => SelectorErrorView::Polling(cause@),
            SelectorError::WrongResponse => SelectorErrorView::WrongResponse,
            SelectorError::NoStdout => SelectorErrorView::NoStdout,
            SelectorError::Io(cause) => SelectorErrorView::Io(cause@),
        }
    }
}

impl DeepView for SelectorError {
    type V = SelectorErrorView;

    open spec fn deep_view(&self) -> SelectorErrorView {
        self@
    }
}

impl SelectorErrorView {
    /// The message for this failure.
    pub open spec fn message(self) -> Text {
        match self {
            SelectorErrorView::EnterScreen(cause) => "Failed to enter alternate screen: "@ + cause,
            SelectorErrorView::LeaveScreen(cause) => "Failed to leave alternate screen: "@ + cause,
            SelectorErrorView::Options(cause) => "Failed to build skim options: "@ + cause,
            SelectorErrorView::SendQuery(cause) => "Failed to send query: "@ + cause,
            SelectorErrorView::LockReceiver(cause) => "Failed to lock receiver: "@ + cause,
            SelectorErrorView::Polling(cause) => "Polling failed: "@ + cause,
            SelectorErrorView::WrongResponse => "Wrong query response type received"@,
            SelectorErrorView::NoStdout => "Failed to get stdout from command"@,
            SelectorErrorView::Io(cause) => cause,
        }
    }
}

impl SelectorError {
    /// The message for this failure: what was tried, then the cause where one is known.
    pub fn message(&self) -> (message: String)
        ensures
            message@ == self@.message(),
    {
        match self {
            SelectorError::EnterScreen(cause) => "Failed to enter alternate screen: ".to_owned().concat(
                cause.as_str(),
            ),
            SelectorError::LeaveScreen(cause) => "Failed to leave alternate screen: ".to_owned().concat(
                cause.as_str(),
            ),
            SelectorError::Options(cause) => "Failed to build skim options: ".to_owned().concat(
                cause.as_str(),
            ),
            SelectorError::SendQuery(cause) => "Failed to send query: ".to_owned().concat(
                cause.as_str(),
            ),
            SelectorError::LockReceiver(cause) => "Failed to lock receiver: ".to_owned().concat(
                cause.as_str(),
            ),
            SelectorError::Polling(cause) => "Polling failed: ".to_owned().concat(cause.as_str()),
            SelectorError::WrongResponse => "Wrong query response type received".to_owned(),
            SelectorError::NoStdout => "Failed to get stdout from command".to_owned(),
            SelectorError::Io(cause) => cause.clone(),
        }
    }
}

/// The message for a failure with a known cause ends in the whole cause, and what stands before it
/// is the same for every cause. A failure of the surrounding system shows its cause alone.
pub proof fn law_messages_end_in_their_cause(cause: Text)
    ensures
        SelectorErrorView::EnterScreen(cause).message() == "Failed to enter alternate screen: "@
            + cause,
        SelectorErrorView::LeaveScreen(cause).message() == "Failed to leave alternate screen: "@
            + cause,
        SelectorErrorView::Options(cause).message() == "Failed to build skim options: "@ + cause,
        SelectorErrorView::SendQuery(cause).message() == "Failed to send query: "@ + cause,
        SelectorErrorView::LockReceiver(cause).message() == "Failed to lock receiver: "@ + cause,
        SelectorErrorView::Polling(cause).message() == "Polling failed: "@ + cause,
        SelectorErrorView::Io(cause).message() == cause,
{
}

/// The model of a failure is the same failure with the same cause.
pub proof fn law_failure_model(cause: String)
    ensures
        SelectorError::EnterScreen(cause)@ == SelectorErrorView::EnterScreen(cause@),
        SelectorError::LeaveScreen(cause)@ == SelectorErrorView::LeaveScreen(cause@),
        SelectorError::Options(cause)@ == SelectorErrorView::Options(cause@),
        SelectorError::SendQuery(cause)@ == SelectorErrorView::SendQuery(cause@),
        SelectorError::LockReceiver(cause)@ == SelectorErrorView::LockReceiver(cause@),
        SelectorError::Polling(cause)@ == SelectorErrorView::Polling(cause@),
        SelectorError::Io(cause)@ == SelectorErrorView::Io(cause@),
        SelectorError::WrongResponse@ == SelectorErrorView::WrongResponse,
        SelectorError::NoStdout@ == SelectorErrorView::NoStdout,
{
}

} // verus!
