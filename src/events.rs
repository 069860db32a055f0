//! The events a worker's loop reacts to.
use vstd::prelude::*;

verus! {

#[derive(Clone, Copy, Debug, PartialEq, Eq, Structural)]
pub enum Event {
    CtrlC,
    UnixStreamRead,
    UnixStreamWrite,
    NewStreamFd(i32),
    ServerStreamRead,
    QueuedRequests,
    PollPythonResponses,
    ServerStreamWrite,
    RequestReadTimeout,
    CasketResponseWrite,
    PythonCodeTimeout,
}

#[derive(Clone, Copy, Debug, PartialEq, Eq, Structural)]
pub enum Timeout {
    RequestRead,
    PythonCode,
}

} // verus!
