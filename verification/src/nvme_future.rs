use vstd::prelude::*;

use crate::queues::NvmeCompletion;

verus! {

/// Lifecycle of an awaitable command: freshly submitted, waiting with a waker
/// registered, or completed with the device's completion entry.
#[derive(Clone, Copy, Debug, PartialEq, Eq, Structural)]
pub enum State {
    Submitted,
    Waiting,
    Completed(NvmeCompletion),
}

/// The handle a caller awaits for one submitted command: the command
/// identifier, the caller's request identifier (its position within the
/// batch it was returned in), and the queue pair it was submitted on.
#[derive(Clone, Copy, Debug, PartialEq, Eq, Structural)]
pub struct Request {
    pub state: State,
    pub c_id: u16,
    pub r_id: usize,
    pub q_id: usize,
}

impl Request {
    /// A freshly submitted request.
    pub fn new(c_id: u16, r_id: usize, q_id: usize) -> (r: Request)
        ensures
            r == (Request { state: State::Submitted, c_id, r_id, q_id }),
    {
        Request { state: State::Submitted, c_id, r_id, q_id }
    }

    /// Delivers the completion entry: the request becomes terminal.
    pub fn complete(&mut self, completion: NvmeCompletion)
        ensures
            *final(self) == (Request { state: State::Completed(completion), ..*old(self) }),
    {
        self.state = State::Completed(completion);
    }

    /// One poll of the awaitable: a fresh request moves to `Waiting` (the
    /// caller registers its waker) and is not ready; a waiting one stays
    /// waiting; a completed one is ready with its completion entry.
    pub fn poll_step(&mut self) -> (r: Option<NvmeCompletion>)
        ensures
            old(self).state is Submitted ==> *final(self) == (Request {
                state: State::Waiting,
                ..*old(self)
            }) && r is None,
            old(self).state is Waiting ==> *final(self) == *old(self) && r is None,
            forall|c: NvmeCompletion|
                old(self).state == State::Completed(c) ==> *final(self) == *old(self) && r
                    == Some(c),
    {
        match self.state {
            State::Submitted => {
                self.state = State::Waiting;
                None
            },
            State::Waiting => None,
            State::Completed(completion) => Some(completion),
        }
    }
}

} // verus!
