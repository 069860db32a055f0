//! The shutdown coordinator: when the server stops accepting, how long it
//! drains, and when it exits; and when a worker may exit.
use vstd::prelude::*;

verus! {

/// Whether the server serves, or drains since a time in milliseconds.
#[derive(Clone, Copy, Debug, PartialEq, Eq, Structural)]
pub enum ServerPhase {
    Running,
    Draining { since_ms: u64 },
}

/// What the server does next.
#[derive(Clone, Copy, Debug, PartialEq, Eq, Structural)]
pub enum ServerStep {
    /// Carry on in the given phase.
    Continue(ServerPhase),
    /// Stop accepting, close the idle sockets, and drain from the given time.
    StartDrain(ServerPhase),
    /// Exit; nothing is left in flight, or a second interrupt came.
    Exit,
    /// The grace time is over: shut the sockets still in flight and exit.
    ForceCloseAndExit,
}

pub open spec fn next_step(
    phase: ServerPhase,
    running: bool,
    poll_failed: bool,
    close_now: bool,
    now_ms: u64,
    wait_ms: u64,
    processing: usize,
) -> ServerStep {
    if close_now {
        ServerStep::Exit
    } else {
        match phase {
            ServerPhase::Running => if !running || poll_failed {
                ServerStep::StartDrain(ServerPhase::Draining { since_ms: now_ms })
            } else {
                ServerStep::Continue(phase)
            },
            ServerPhase::Draining { since_ms } => if processing == 0 {
                ServerStep::Exit
            } else if now_ms as int >= since_ms as int + wait_ms as int {
                ServerStep::ForceCloseAndExit
            } else {
                ServerStep::Continue(phase)
            },
        }
    }
}

/// Graceful shutdown: an interrupt stops a running server from accepting; a
/// draining server carries on only while sockets are with workers and the
/// grace time lasts, and exits, shutting what is left, once it is over; a
/// second interrupt exits at once.
pub proof fn lemma_graceful_shutdown(
    running: bool,
    poll_failed: bool,
    close_now: bool,
    now_ms: u64,
    wait_ms: u64,
    since_ms: u64,
    processing: usize,
)
    ensures
        close_now ==> next_step(ServerPhase::Running, running, poll_failed, close_now, now_ms, wait_ms, processing)
            == ServerStep::Exit,
        !close_now && !running ==> next_step(ServerPhase::Running, running, poll_failed, close_now, now_ms, wait_ms, processing)
            is StartDrain,
        ({
            let d = ServerPhase::Draining { since_ms };
            let r = next_step(d, running, poll_failed, close_now, now_ms, wait_ms, processing);
            &&& r is Continue ==> processing > 0 && (now_ms as int) < since_ms as int + wait_ms as int
            &&& !(r is StartDrain)
        }),
{
}

/// The decision of one turn of the server's loop, after its poll. A second
/// interrupt exits at once. A first interrupt, or a failed poll, starts the
/// drain. A draining server exits once no socket is with a worker, and shuts
/// what is left once the grace time `wait_ms` since the drain began is over.
pub fn server_step(
    phase: ServerPhase,
    running: bool,
    poll_failed: bool,
    close_now: bool,
    now_ms: u64,
    wait_ms: u64,
    processing: usize,
) -> (r: ServerStep)
    ensures
        r == next_step(phase, running, poll_failed, close_now, now_ms, wait_ms, processing),
{
    if close_now {
        return ServerStep::Exit;
    }
    match phase {
        ServerPhase::Running => if !running || poll_failed {
            ServerStep::StartDrain(ServerPhase::Draining { since_ms: now_ms })
        } else {
            ServerStep::Continue(phase)
        },
        ServerPhase::Draining { since_ms } => if processing == 0 {
            ServerStep::Exit
        } else if now_ms >= since_ms && now_ms - since_ms >= wait_ms {
            ServerStep::ForceCloseAndExit
        } else {
            ServerStep::Continue(phase)
        },
    }
}

/// Whether a worker may exit: at once on a second interrupt or once the grace
/// time is over; otherwise, once closing, only when it holds no socket, the
/// handlers hold and wait for no request, and nothing is left to send to the
/// server.
pub fn worker_should_exit(
    closing: bool,
    close_now: bool,
    grace_over: bool,
    holds_sockets: bool,
    handler_requests: usize,
    queued_requests: bool,
    data_to_send: bool,
) -> (r: bool)
    ensures
        r == (close_now || (closing && grace_over) || (closing && !holds_sockets && handler_requests == 0
            && !queued_requests && !data_to_send)),
{
    close_now || (closing && grace_over) || (closing && !holds_sockets && handler_requests == 0
        && !queued_requests && !data_to_send)
}

} // verus!
