//! A round-robin work queue over one channel per handler thread: each
//! request goes to the next living receiver, and a receiver whose thread died
//! is dropped.
use std::sync::mpsc;
use vstd::prelude::*;

verus! {

#[verifier::external_type_specification]
#[verifier::external_body]
#[verifier::reject_recursive_types(T)]
pub struct ExSender<T>(std::sync::mpsc::Sender<T>);

#[verifier::external_type_specification]
#[verifier::reject_recursive_types(T)]
pub struct ExSendError<T>(std::sync::mpsc::SendError<T>);

/// Relies on std::sync::mpsc::channel: a connected sender and receiver.
#[verifier::external_body]
fn channel<T>() -> (r: (mpsc::Sender<T>, mpsc::Receiver<T>)) {
    mpsc::channel()
}

/// Relies on std::sync::mpsc::Sender::send, which hands the value back when
/// the receiver is gone.
#[verifier::external_body]
fn send_one<T>(s: &mpsc::Sender<T>, t: T) -> (r: Result<(), T>)
    ensures
        r matches Err(u) ==> u == t,
{
    s.send(t).map_err(|e| e.0)
}

pub fn new<T>() -> (r: Sender<T>)
    ensures
        r.len() == 0,
        r.wf(),
{
    Sender { pos: 0, senders: Vec::new() }
}

/// The sending side: one channel per receiver, and the position of the last
/// one used.
#[verifier::reject_recursive_types(T)]
pub struct Sender<T> {
    pos: usize,
    senders: Vec<mpsc::Sender<T>>,
}

/// The receiving side of one handler thread.
#[verifier::reject_recursive_types(T)]
pub struct Receiver<T> {
    inner: mpsc::Receiver<T>,
}

impl<T> Receiver<T> {
    pub fn into_inner(self) -> mpsc::Receiver<T> {
        self.inner
    }
}

/// Where a send starts: the position after the last one used, wrapping.
pub open spec fn start_of(pos: nat, len: nat) -> nat {
    if pos + 1 >= len {
        0
    } else {
        pos + 1
    }
}

/// Drops the sender at `p`; the position stays, wrapping to the start when it
/// falls off the end.
pub open spec fn drop_at<U>(s: Seq<U>, p: nat) -> (Seq<U>, nat) {
    let s2 = s.remove(p as int);
    (s2, if p >= s2.len() {
        0
    } else {
        p
    })
}

/// The senders and position after `k` refusals in a row, starting at `p`.
pub open spec fn drop_run<U>(s: Seq<U>, p: nat, k: nat) -> (Seq<U>, nat)
    decreases k,
{
    if k == 0 {
        (s, p)
    } else {
        let (s2, p2) = drop_run(s, p, (k - 1) as nat);
        drop_at(s2, p2)
    }
}

impl<T> Sender<T> {
    /// The channels to the living receivers, in the order they were added.
    pub closed spec fn senders(&self) -> Seq<mpsc::Sender<T>> {
        self.senders@
    }

    /// The number of living receivers.
    pub open spec fn len(&self) -> nat {
        self.senders().len()
    }

    /// The position of the last receiver used.
    pub closed spec fn pos(&self) -> nat {
        self.pos as nat
    }

    pub closed spec fn wf(&self) -> bool {
        (self.senders@.len() == 0 && self.pos == 0) || self.pos < self.senders@.len()
    }

    /// Adds a receiver.
    pub fn new_recv(&mut self) -> (r: Receiver<T>)
        requires
            old(self).wf(),
        ensures
            final(self).wf(),
            final(self).len() == old(self).len() + 1,
            final(self).senders().drop_last() == old(self).senders(),
            final(self).pos() == old(self).pos(),
    {
        let (sx, rx) = channel();
        self.senders.push(sx);
        Receiver { inner: rx }
    }

    /// Sends `t` to the next receiver after the last one used. A receiver
    /// that is gone refuses `t`: its sender is dropped and `t` goes on to the
    /// one that takes its place, in cyclic order. On success the position
    /// names the sender that took `t`; the send fails, handing `t` back, only
    /// when no receiver is left.
    pub fn send(&mut self, t: T) -> (r: Result<(), mpsc::SendError<T>>)
        requires
            old(self).wf(),
        ensures
            final(self).wf(),
            exists|k: nat|
                k <= old(self).len() && (final(self).senders(), final(self).pos()) == drop_run(
                    old(self).senders(),
                    start_of(old(self).pos(), old(self).len()),
                    k,
                ),
            r is Err <==> final(self).len() == 0,
            r matches Err(e) ==> e.0 == t,
    {
        let ghost s0 = self.senders@;
        let ghost start = start_of(self.pos as nat, self.senders@.len());
        let ghost mut k: nat = 0;
        let ghost t0 = t;
        let mut t = t;
        self.pos = if self.senders.len() == 0 || self.pos + 1 >= self.senders.len() { 0 } else { self.pos + 1 };
        assert(self.pos == start);
        while self.senders.len() > 0
            invariant
                (self.senders@, self.pos as nat) == drop_run(s0, start, k),
                s0 == old(self).senders@,
                start == start_of(old(self).pos as nat, s0.len()),
                k + self.senders@.len() == s0.len(),
                self.senders@.len() > 0 ==> self.pos < self.senders@.len(),
                t == t0,
            decreases self.senders@.len(),
        {
            match send_one(&self.senders[self.pos], t) {
                Ok(()) => {
                    assert(k <= old(self).len() && (self.senders(), self.pos()) == drop_run(
                        old(self).senders(),
                        start_of(old(self).pos(), old(self).len()),
                        k,
                    ));
                    return Ok(());
                },
                Err(u) => {
                    t = u;
                },
            }
            self.senders.remove(self.pos);
            if self.pos == self.senders.len() {
                self.pos = 0;
            }
            proof {
                k = k + 1;
            }
        }
        assert(k <= old(self).len() && (self.senders(), self.pos()) == drop_run(
            old(self).senders(),
            start_of(old(self).pos(), old(self).len()),
            k,
        ));
        Err(mpsc::SendError(t))
    }
}

} // verus!
