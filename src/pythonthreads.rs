//! A worker's side of its handler threads: requests waiting to be sent, the
//! count of requests the handlers hold, and requests whose answer is to be
//! dropped because they timed out.
use crate::errors::RuntimeError;
use crate::http::{try_recv, HttpRequest, HttpResponse, Polled};
use crate::worker::{Action, ActionError};
use crate::workq;
use std::collections::HashSet;
use std::sync::mpsc::Receiver;
use vstd::prelude::*;

verus! {

broadcast use vstd::std_specs::hash::group_hash_axioms;

/// The most handler start times taken in one poll.
pub const CODE_START_BATCH: usize = 1024;

pub struct PythonThreads {
    queued_reqs: Vec<(u64, HttpRequest)>,
    num_pending_reqs: usize,
    req_send: workq::Sender<(u64, HttpRequest)>,
    resp_recv: Receiver<(u64, HttpResponse)>,
    python_code_start_recv: Receiver<(u64, u64)>,
    timed_out_reqs: HashSet<u64>,
}

/// Whether `a` is an answer that goes on to be written, for a token that is
/// not among the timed-out ones.
pub open spec fn answer_kept<S>(a: Result<Action<S>, ActionError<S>>, timed_out: Set<u64>) -> bool {
    a matches Ok(Action::ServerNewResponse((tk, _))) && !timed_out.contains(tk)
}

pub open spec fn answers_after<S>(rs: Seq<Result<Action<S>, ActionError<S>>>, from: int, to: int, timed_out: Set<u64>) -> bool {
    forall|i: int| from <= i < to ==> answer_kept(#[trigger] rs[i], timed_out)
}

pub open spec fn code_starts<S>(rs: Seq<Result<Action<S>, ActionError<S>>>, from: int, to: int) -> bool {
    forall|i: int| from <= i < to ==> (#[trigger] rs[i]) matches Ok(Action::ServerPythonCodeTimeoutNew(_))
}

impl PythonThreads {
    pub closed spec fn queued(&self) -> Seq<u64> {
        self.queued_reqs@.map_values(|q: (u64, HttpRequest)| q.0)
    }

    pub closed spec fn pending(&self) -> nat {
        self.num_pending_reqs as nat
    }

    pub closed spec fn timed_out(&self) -> Set<u64> {
        self.timed_out_reqs@
    }

    pub closed spec fn wf(&self) -> bool {
        self.req_send.wf()
    }

    /// Takes the channels of freshly started handler threads.
    pub fn new(
        req_send: workq::Sender<(u64, HttpRequest)>,
        python_code_start_recv: Receiver<(u64, u64)>,
        resp_recv: Receiver<(u64, HttpResponse)>,
    ) -> (r: Self)
        requires
            req_send.wf(),
        ensures
            r.wf(),
            r.queued().len() == 0,
            r.pending() == 0,
            r.timed_out().is_empty(),
    {
        PythonThreads {
            queued_reqs: Vec::new(),
            num_pending_reqs: 0,
            req_send,
            resp_recv,
            python_code_start_recv,
            timed_out_reqs: HashSet::new(),
        }
    }

    pub fn queue_http_req(&mut self, tk: u64, http_req: Box<HttpRequest>)
        ensures
            final(self).queued() == old(self).queued().push(tk),
            final(self).pending() == old(self).pending(),
            final(self).timed_out() == old(self).timed_out(),
            final(self).wf() == old(self).wf(),
    {
        self.queued_reqs.push((tk, *http_req));
        assert(final(self).queued() =~= old(self).queued().push(tk));
    }

    pub fn num_pending_reqs(&self) -> (r: usize)
        ensures
            r == self.pending(),
    {
        self.num_pending_reqs
    }

    pub fn has_queued_reqs(&self) -> (r: bool)
        ensures
            r == (self.queued().len() > 0),
    {
        self.queued_reqs.len() > 0
    }

    /// Hands every queued request to the handler threads, in order; fails when
    /// no handler thread is left.
    pub fn send_queued_requests(&mut self) -> (r: Result<(), RuntimeError>)
        requires
            old(self).wf(),
        ensures
            final(self).wf(),
            r is Ok ==> final(self).queued().len() == 0 && final(self).pending() as int == if old(self).pending()
                + old(self).queued().len() <= usize::MAX {
                (old(self).pending() + old(self).queued().len()) as int
            } else {
                usize::MAX as int
            },
            r matches Err(e) ==> e is PythonThreadsDied,
            old(self).queued().len() == 0 ==> r is Ok && final(self).pending() == old(self).pending(),
            final(self).timed_out() == old(self).timed_out(),
    {
        let mut queued = Vec::new();
        std::mem::swap(&mut queued, &mut self.queued_reqs);
        let ghost n = queued@.len();
        let ghost mut sent: int = 0;
        while queued.len() > 0
            invariant
                self.wf(),
                self.queued_reqs@.len() == 0,
                self.timed_out() == old(self).timed_out(),
                sent >= 0,
                sent + queued@.len() == n,
                n == old(self).queued().len(),
                self.num_pending_reqs as int == if old(self).pending() + sent <= usize::MAX {
                    old(self).pending() + sent
                } else {
                    usize::MAX as int
                },
            decreases queued@.len(),
        {
            assert(n > 0);
            let req = queued.remove(0);
            match self.req_send.send(req) {
                Ok(()) => {},
                Err(_) => {
                    return Err(RuntimeError::PythonThreadsDied);
                },
            }
            proof {
                sent = sent + 1;
            }
            if self.num_pending_reqs < usize::MAX {
                self.num_pending_reqs = self.num_pending_reqs + 1;
            }
        }
        assert(self.queued() =~= Seq::<u64>::empty());
        Ok(())
    }

    /// Marks the request of `tk` as timed out: its answer is to be dropped.
    pub fn timeout_request(&mut self, tk: u64)
        ensures
            final(self).timed_out() == old(self).timed_out().insert(tk),
            final(self).queued() == old(self).queued(),
            final(self).pending() == old(self).pending(),
            final(self).wf() == old(self).wf(),
    {
        self.timed_out_reqs.insert(tk);
    }

    /// Takes one answer of the handlers: it is dropped when its request timed
    /// out, and goes on to be written otherwise. Either way the handlers hold
    /// one request fewer.
    pub fn take_response<S>(&mut self, tk: u64, resp: HttpResponse) -> (r: Option<Action<S>>)
        ensures
            old(self).timed_out().contains(tk) ==> r is None && final(self).timed_out() == old(self).timed_out().remove(tk),
            !old(self).timed_out().contains(tk) ==> (r matches Some(Action::ServerNewResponse((t, b))) && t == tk && *b == resp
                && final(self).timed_out() == old(self).timed_out()),
            final(self).pending() == if old(self).pending() > 0 {
                (old(self).pending() - 1) as nat
            } else {
                0
            },
            final(self).queued() == old(self).queued(),
            final(self).wf() == old(self).wf(),
    {
        if self.num_pending_reqs > 0 {
            self.num_pending_reqs = self.num_pending_reqs - 1;
        }
        if self.timed_out_reqs.remove(&tk) {
            None
        } else {
            Some(Action::ServerNewResponse((tk, Box::new(resp))))
        }
    }

    /// Drains the handlers' start times and answers that have arrived into
    /// `results`; fails when the handler threads are gone.
    pub fn take_responses<S>(&mut self, results: &mut Vec<Result<Action<S>, ActionError<S>>>) -> (r: Result<(), RuntimeError>)
        ensures
            final(self).queued() == old(self).queued(),
            final(self).wf() == old(self).wf(),
            final(self).pending() <= old(self).pending(),
            final(results)@.len() >= old(results)@.len(),
            final(results)@.take(old(results)@.len() as int) == old(results)@,
            final(self).timed_out().subset_of(old(self).timed_out()),
            exists|m: int|
                old(results)@.len() <= m <= final(results)@.len() && code_starts(
                    final(results)@,
                    old(results)@.len() as int,
                    m,
                ) && #[trigger] answers_after(final(results)@, m, final(results)@.len() as int, final(self).timed_out()),
            r matches Err(e) ==> e is PythonThreadsDied,
    {
        let ghost r0 = results@;
        let mut budget: usize = CODE_START_BATCH;
        while budget > 0
            invariant
                self.queued() == old(self).queued(),
                self.wf() == old(self).wf(),
                self.pending() == old(self).pending(),
                results@.len() >= old(results)@.len(),
                r0 == old(results)@,
                results@.take(r0.len() as int) == r0,
                self.timed_out() == old(self).timed_out(),
                code_starts(results@, r0.len() as int, results@.len() as int),
            decreases budget,
        {
            match try_recv(&self.python_code_start_recv) {
                Polled::Item((tk, st)) => {
                    results.push(Ok(Action::ServerPythonCodeTimeoutNew((tk, st))));
                    assert(results@.take(r0.len() as int) =~= r0);
                },
                Polled::Empty => break,
                Polled::Closed => {
                    assert(answers_after(results@, results@.len() as int, results@.len() as int, self.timed_out()));
                    return Err(RuntimeError::PythonThreadsDied);
                },
            }
            budget = budget - 1;
        }
        let ghost m = results@.len() as int;
        loop
            invariant
                self.queued() == old(self).queued(),
                self.wf() == old(self).wf(),
                self.pending() <= old(self).pending(),
                results@.len() >= old(results)@.len(),
                r0 == old(results)@,
                results@.take(r0.len() as int) == r0,
                r0.len() <= m <= results@.len(),
                self.timed_out().subset_of(old(self).timed_out()),
                code_starts(results@, r0.len() as int, m),
                answers_after(results@, m, results@.len() as int, self.timed_out()),
            decreases self.pending(),
        {
            if self.num_pending_reqs == 0 {
                return Ok(());
            }
            match try_recv(&self.resp_recv) {
                Polled::Item((tk, resp)) => {
                    let ghost before = results@;
                    match self.take_response(tk, resp) {
                        Some(a) => {
                            results.push(Ok(a));
                            assert(results@.take(r0.len() as int) =~= r0);
                            assert(before.take(r0.len() as int) =~= r0);
                        },
                        None => {},
                    }
                    assert forall|i: int| m <= i < results@.len() implies answer_kept(#[trigger] results@[i], self.timed_out()) by {
                        if i < before.len() {
                            assert(results@[i] == before[i]);
                        }
                    }
                },
                Polled::Empty => {
                    return Ok(());
                },
                Polled::Closed => {
                    return Err(RuntimeError::PythonThreadsDied);
                },
            }
        }
    }
}

} // verus!
