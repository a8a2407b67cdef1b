use vstd::prelude::*;

use crate::NvmeError;

verus! {

/// Lifecycle of a request handed to a caller. Transitions are monotonic:
/// `Submitted` to `Pending` on first poll, then to `Completed` or `Error`
/// exactly once, on delivery.
#[derive(Clone, Copy, Debug, PartialEq, Eq, Structural)]
pub enum State {
    Submitted,
    Pending,
    Completed,
    Error,
}

impl State {
    /// The state is terminal: the request has resolved.
    pub open spec fn spec_is_terminal(self) -> bool {
        self is Completed || self is Error
    }

    /// A short name for the state, for logs and error messages.
    pub fn describe(&self) -> (r: &'static str)
        ensures
            self is Submitted ==> r@ == "Submitted"@,
            self is Pending ==> r@ == "Waiting"@,
            self is Completed ==> r@ == "Completed"@,
            self is Error ==> r@ == "Error"@,
    {
        match self {
            State::Submitted => "Submitted",
            State::Pending => "Waiting",
            State::Completed => "Completed",
            State::Error => "Error",
        }
    }
}

/// What the poller delivered through a request's one-shot notifier.
#[derive(Clone, Copy, Debug, PartialEq, Eq, Structural)]
pub enum CompletionMessage {
    /// The device completed the command with status zero.
    Success,
    /// The device returned this nonzero status code.
    Fault(u16),
}

/// One poll of a request's one-shot receiver, seen from the state machine.
#[derive(Clone, Copy, Debug, PartialEq, Eq, Structural)]
pub enum ReceiverPoll {
    /// Nothing delivered yet.
    NotReady,
    /// The notifier delivered a completion message.
    Message(CompletionMessage),
    /// The sending side was dropped before delivering: the driver shut down.
    Closed,
}

/// The request state machine: what one poll of the receiver does to the
/// request. Nothing delivered leaves it pending; a success message resolves it
/// to `Ok`; a device fault resolves it to the reported NVMe status; a closed
/// channel resolves it to `ChannelClosed`.
pub fn resolve(ev: ReceiverPoll) -> (r: (State, Option<Result<(), NvmeError>>))
    ensures
        ev is NotReady ==> r == (State::Pending, None::<Result<(), NvmeError>>),
        ev == ReceiverPoll::Message(CompletionMessage::Success) ==> r == (
            State::Completed,
            Some(Ok::<(), NvmeError>(())),
        ),
        forall|code: u16|
            ev == ReceiverPoll::Message(CompletionMessage::Fault(code)) ==> r == (
                State::Error,
                Some(Err::<(), NvmeError>(NvmeError::NvmeStatus(code))),
            ),
        ev is Closed ==> r == (State::Error, Some(Err::<(), NvmeError>(NvmeError::ChannelClosed))),
{
    match ev {
        ReceiverPoll::NotReady => (State::Pending, None),
        ReceiverPoll::Message(CompletionMessage::Success) => (State::Completed, Some(Ok(()))),
        ReceiverPoll::Message(CompletionMessage::Fault(code)) => (
            State::Error,
            Some(Err(NvmeError::NvmeStatus(code))),
        ),
        ReceiverPoll::Closed => (State::Error, Some(Err(NvmeError::ChannelClosed))),
    }
}

} // verus!
