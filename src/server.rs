//! The accepting server: socket tokens, the bound on open sockets, and its
//! ends of the workers' control streams.
use crate::msgs::{closed_tokens, kept_tokens, request_frame, scan_responses, Request, ServerMsgBuffer};
use std::collections::HashMap;
use vstd::prelude::*;
use vstd::std_specs::iter::IteratorSpec;

verus! {

broadcast use vstd::std_specs::hash::group_hash_axioms;

/// Each accepted socket starts a new generation of tokens, this far apart.
pub const NEW_STREAM_COUNT_INC: u64 = 0x100_0000;

/// A keep-alive round moves a token this far within its generation.
pub const KEEP_ALIVE_COUNT_INC: u64 = 0x80;

/// How many times one socket may come back for another request.
pub const MAX_KEEP_ALIVE_ROUNDS: u64 = 127;

/// The generation of a token: which accepted socket it names.
pub open spec fn generation(tk: u64) -> nat {
    tk as nat / NEW_STREAM_COUNT_INC as nat
}

/// How many keep-alive rounds a token's socket has been through.
pub open spec fn round(tk: u64) -> nat {
    (tk as nat % NEW_STREAM_COUNT_INC as nat) / KEEP_ALIVE_COUNT_INC as nat
}

/// The token of the next request on a socket that came back open, or `None`
/// once its rounds are used up and it is to be closed.
pub fn next_keep_alive_token(tk: u64) -> (r: Option<u64>)
    ensures
        round(tk) < MAX_KEEP_ALIVE_ROUNDS ==> r == Some((tk + KEEP_ALIVE_COUNT_INC) as u64),
        round(tk) >= MAX_KEEP_ALIVE_ROUNDS ==> r is None,
{
    if (tk % NEW_STREAM_COUNT_INC) / KEEP_ALIVE_COUNT_INC < MAX_KEEP_ALIVE_ROUNDS {
        assert(tk + KEEP_ALIVE_COUNT_INC <= u64::MAX) by (nonlinear_arith)
            requires
                (tk % 0x100_0000) / 0x80 < 127,
        ;
        Some(tk + KEEP_ALIVE_COUNT_INC)
    } else {
        None
    }
}

/// Keep-alive rounds on one socket give strictly increasing tokens of the same
/// generation, each one round further, and never more than the allowed
/// rounds: the round count never wraps.
pub proof fn lemma_keep_alive_tokens(tk: u64)
    requires
        round(tk) < MAX_KEEP_ALIVE_ROUNDS,
    ensures
        tk + KEEP_ALIVE_COUNT_INC <= u64::MAX,
        tk < tk + KEEP_ALIVE_COUNT_INC,
        generation((tk + KEEP_ALIVE_COUNT_INC) as u64) == generation(tk),
        round((tk + KEEP_ALIVE_COUNT_INC) as u64) == round(tk) + 1,
        round((tk + KEEP_ALIVE_COUNT_INC) as u64) <= MAX_KEEP_ALIVE_ROUNDS,
{
    let t = tk as nat;
    assert(t + 0x80 <= u64::MAX && (t + 0x80) / 0x100_0000 == t / 0x100_0000 && ((t + 0x80) % 0x100_0000) / 0x80
        == (t % 0x100_0000) / 0x80 + 1) by (nonlinear_arith)
        requires
            (t % 0x100_0000) / 0x80 < 127,
            t <= u64::MAX,
    ;
}

/// The sockets the server holds: waiting for a request, or handed to a worker.
pub struct ServerConns<S> {
    reading: HashMap<u64, S>,
    processing: HashMap<u64, S>,
    max_conns: usize,
    generation: u64,
}

pub struct ServerConnsView {
    pub reading: Set<u64>,
    pub processing: Set<u64>,
    pub max_conns: nat,
    /// The generation of the next accepted socket.
    pub generation: nat,
}

impl ServerConnsView {
    /// A socket is in one state at most, the open sockets stay within the
    /// bound, and every held token is of an earlier generation.
    pub open spec fn wf(self) -> bool {
        &&& self.reading.finite() && self.processing.finite()
        &&& self.reading.disjoint(self.processing)
        &&& self.reading.len() + self.processing.len() <= self.max_conns
        &&& forall|t: u64| #[trigger] (self.reading + self.processing).contains(t) ==> generation(t) < self.generation
    }
}

impl<S> View for ServerConns<S> {
    type V = ServerConnsView;

    closed spec fn view(&self) -> ServerConnsView {
        ServerConnsView {
            reading: self.reading@.dom(),
            processing: self.processing@.dom(),
            max_conns: self.max_conns as nat,
            generation: self.generation as nat,
        }
    }
}

/// The server never holds more sockets than its bound. Every operation of
/// `ServerConns` keeps its view well-formed.
pub proof fn lemma_server_connection_bound(c: ServerConnsView)
    requires
        c.wf(),
    ensures
        c.reading.len() + c.processing.len() <= c.max_conns,
        c.reading.disjoint(c.processing),
{
}

impl<S> ServerConns<S> {
    pub closed spec fn inv(&self) -> bool {
        &&& self@.wf()
        &&& self.generation >= 1
    }

    pub fn new(max_conns: usize) -> (r: Self)
        ensures
            r.inv(),
            r@.wf(),
            r@.reading.is_empty() && r@.processing.is_empty(),
            r@.max_conns == max_conns,
            r@.generation == 1,
    {
        let r = ServerConns { reading: HashMap::new(), processing: HashMap::new(), max_conns, generation: 1 };
        assert(r@.reading + r@.processing =~= Set::<u64>::empty());
        r
    }

    pub fn len(&self) -> (r: usize)
        requires
            self.inv(),
        ensures
            r == self@.reading.len() + self@.processing.len(),
    {
        self.reading.len() + self.processing.len()
    }

    /// The token the next accepted socket gets, if there is room for it.
    pub fn next_token(&self) -> (r: Option<u64>)
        requires
            self.inv(),
        ensures
            r is Some <==> (self@.reading.len() + self@.processing.len() < self@.max_conns && self@.generation
                < 0xff_ffff_ffff),
            r matches Some(tk) ==> tk == self@.generation * NEW_STREAM_COUNT_INC,
    {
        if self.reading.len() + self.processing.len() >= self.max_conns || self.generation >= 0xff_ffff_ffff {
            None
        } else {
            Some(self.generation * NEW_STREAM_COUNT_INC)
        }
    }

    /// Takes a freshly accepted socket under a token of a new generation, or
    /// hands it back when the server is full (or out of generations).
    pub fn accept(&mut self, s: S) -> (r: Result<u64, S>)
        requires
            old(self).inv(),
        ensures
            final(self).inv(),
            final(self)@.wf(),
            old(self)@.reading.len() + old(self)@.processing.len() >= old(self)@.max_conns ==> r is Err,
            r matches Ok(tk) ==> {
                &&& tk == old(self)@.generation * NEW_STREAM_COUNT_INC
                &&& generation(tk) == old(self)@.generation
                &&& round(tk) == 0
                &&& !(old(self)@.reading + old(self)@.processing).contains(tk)
                &&& final(self)@ == (ServerConnsView {
                    reading: old(self)@.reading.insert(tk),
                    generation: old(self)@.generation + 1,
                    ..old(self)@
                })
            },
            r is Err ==> final(self)@ == old(self)@,
            (old(self)@.reading.len() + old(self)@.processing.len() < old(self)@.max_conns
                && old(self)@.generation < 0xff_ffff_ffff) ==> r is Ok,
    {
        if self.reading.len() + self.processing.len() >= self.max_conns || self.generation >= 0xff_ffff_ffff {
            return Err(s);
        }
        let g = self.generation;
        let tk = g * NEW_STREAM_COUNT_INC;
        proof {
            let t = tk as nat;
            assert(t / 0x100_0000 == g as nat && (t % 0x100_0000) / 0x80 == 0) by (nonlinear_arith)
                requires
                    t == g as nat * 0x100_0000,
            ;
            assert(!(old(self)@.reading + old(self)@.processing).contains(tk));
        }
        self.reading.insert(tk, s);
        self.generation = g + 1;
        proof {
            assert(self@.reading.len() == old(self)@.reading.len() + 1);
            assert forall|t: u64| #[trigger] (self@.reading + self@.processing).contains(t) implies generation(t)
                < self@.generation by {
                if t != tk {
                    assert((old(self)@.reading + old(self)@.processing).contains(t));
                }
            }
        }
        Ok(tk)
    }

    /// Takes a socket that has a request to dispatch, or that is to be closed.
    pub fn take_reading(&mut self, tk: u64) -> (r: Option<S>)
        requires
            old(self).inv(),
        ensures
            final(self).inv(),
            final(self)@.wf(),
            r is Some <==> old(self)@.reading.contains(tk),
            final(self)@ == (ServerConnsView { reading: old(self)@.reading.remove(tk), ..old(self)@ }),
    {
        let r = self.reading.remove(&tk);
        proof {
            if old(self)@.reading.contains(tk) {
                assert(self@.reading.len() + 1 == old(self)@.reading.len());
            } else {
                assert(self@.reading =~= old(self)@.reading);
            }
            assert forall|t: u64| #[trigger] (self@.reading + self@.processing).contains(t) implies generation(t)
                < self@.generation by {
                assert((old(self)@.reading + old(self)@.processing).contains(t));
            }
        }
        r
    }

    /// Takes a socket that a worker gave back.
    pub fn take_processing(&mut self, tk: u64) -> (r: Option<S>)
        requires
            old(self).inv(),
        ensures
            final(self).inv(),
            final(self)@.wf(),
            r is Some <==> old(self)@.processing.contains(tk),
            final(self)@ == (ServerConnsView { processing: old(self)@.processing.remove(tk), ..old(self)@ }),
    {
        let r = self.processing.remove(&tk);
        proof {
            if old(self)@.processing.contains(tk) {
                assert(self@.processing.len() + 1 == old(self)@.processing.len());
            } else {
                assert(self@.processing =~= old(self)@.processing);
            }
            assert forall|t: u64| #[trigger] (self@.reading + self@.processing).contains(t) implies generation(t)
                < self@.generation by {
                assert((old(self)@.reading + old(self)@.processing).contains(t));
            }
        }
        r
    }

    fn insert_checked(&mut self, tk: u64, s: S, to_reading: bool) -> (r: Result<(), S>)
        requires
            old(self).inv(),
        ensures
            final(self).inv(),
            final(self)@.wf(),
            r is Ok <==> (!(old(self)@.reading + old(self)@.processing).contains(tk) && old(self)@.reading.len()
                + old(self)@.processing.len() < old(self)@.max_conns && generation(tk) < old(self)@.generation),
            r is Ok && to_reading ==> final(self)@ == (ServerConnsView { reading: old(self)@.reading.insert(tk), ..old(self)@ }),
            r is Ok && !to_reading ==> final(self)@ == (ServerConnsView {
                processing: old(self)@.processing.insert(tk),
                ..old(self)@
            }),
            r is Err ==> final(self)@ == old(self)@,
    {
        if self.reading.contains_key(&tk) || self.processing.contains_key(&tk) || self.reading.len()
            + self.processing.len() >= self.max_conns || tk / NEW_STREAM_COUNT_INC >= self.generation {
            return Err(s);
        }
        if to_reading {
            self.reading.insert(tk, s);
            assert(self@.reading.len() == old(self)@.reading.len() + 1);
        } else {
            self.processing.insert(tk, s);
            assert(self@.processing.len() == old(self)@.processing.len() + 1);
        }
        proof {
            assert forall|t: u64| #[trigger] (self@.reading + self@.processing).contains(t) implies generation(t)
                < self@.generation by {
                if t != tk {
                    assert((old(self)@.reading + old(self)@.processing).contains(t));
                }
            }
        }
        Ok(())
    }

    /// Waits for the next request on a socket again, under the token it was
    /// given back with; only tokens the server handed out fit.
    pub fn insert_reading(&mut self, tk: u64, s: S) -> (r: Result<(), S>)
        requires
            old(self).inv(),
        ensures
            final(self).inv(),
            final(self)@.wf(),
            r is Ok <==> (!(old(self)@.reading + old(self)@.processing).contains(tk) && old(self)@.reading.len()
                + old(self)@.processing.len() < old(self)@.max_conns && generation(tk) < old(self)@.generation),
            r is Ok ==> final(self)@ == (ServerConnsView { reading: old(self)@.reading.insert(tk), ..old(self)@ }),
            r is Err ==> final(self)@ == old(self)@,
    {
        self.insert_checked(tk, s, true)
    }

    /// Records that a socket went to a worker.
    pub fn insert_processing(&mut self, tk: u64, s: S) -> (r: Result<(), S>)
        requires
            old(self).inv(),
        ensures
            final(self).inv(),
            final(self)@.wf(),
            r is Ok <==> (!(old(self)@.reading + old(self)@.processing).contains(tk) && old(self)@.reading.len()
                + old(self)@.processing.len() < old(self)@.max_conns && generation(tk) < old(self)@.generation),
            r is Ok ==> final(self)@ == (ServerConnsView { processing: old(self)@.processing.insert(tk), ..old(self)@ }),
            r is Err ==> final(self)@ == old(self)@,
    {
        self.insert_checked(tk, s, false)
    }

    /// Hands over every socket that waits for a request, for shutdown.
    pub fn drain_reading(&mut self) -> (r: Vec<S>)
        requires
            old(self).inv(),
        ensures
            final(self).inv(),
            final(self)@.wf(),
            r@.len() == old(self)@.reading.len(),
            final(self)@ == (ServerConnsView { reading: Set::empty(), ..old(self)@ }),
    {
        let mut out: Vec<S> = Vec::new();
        let keys = self.reading_tokens();
        let mut i: usize = 0;
        while i < keys.len()
            invariant
                self.inv(),
                i <= keys@.len(),
                keys@.no_duplicates(),
                self@.reading == old(self)@.reading.difference(keys@.take(i as int).to_set()),
                old(self)@.reading == keys@.to_set(),
                self@.processing == old(self)@.processing,
                self@.max_conns == old(self)@.max_conns,
                self@.generation == old(self)@.generation,
                out@.len() == i,
            decreases keys@.len() - i,
        {
            let tk = keys[i];
            proof {
                let a = keys@.take(i as int);
                assert(keys@.take(i + 1) =~= a.push(tk));
                assert forall|x: u64| #[trigger] a.push(tk).to_set().contains(x) <==> a.to_set().insert(tk).contains(x) by {
                    if a.contains(x) {
                        let j = choose|j: int| 0 <= j < a.len() && a[j] == x;
                        assert(a.push(tk)[j] == x);
                    }
                    if x == tk {
                        assert(a.push(tk)[a.len() as int] == tk);
                    }
                    if a.push(tk).contains(x) && x != tk {
                        let j = choose|j: int| 0 <= j < a.len() + 1 && a.push(tk)[j] == x;
                        assert(a[j] == x);
                    }
                }
                assert(a.push(tk).to_set() =~= a.to_set().insert(tk));
                assert(keys@.take(i + 1).to_set() == keys@.take(i as int).to_set().insert(tk));
                assert(!keys@.take(i as int).contains(tk)) by {
                    if keys@.take(i as int).contains(tk) {
                        let j = choose|j: int| 0 <= j < i && keys@.take(i as int)[j] == tk;
                        assert(keys@[j] == keys@[i as int]);
                    }
                }
                assert(keys@.contains(tk)) by {
                    assert(keys@[i as int] == tk);
                }
                assert(keys@.to_set().contains(tk));
            }
            match self.take_reading(tk) {
                Some(s) => out.push(s),
                None => {},
            }
            proof {
                assert(self@.reading =~= old(self)@.reading.difference(keys@.take(i + 1).to_set()));
            }
            i = i + 1;
        }
        proof {
            assert(keys@.take(keys@.len() as int) =~= keys@);
            assert(self@.reading =~= Set::<u64>::empty());
            keys@.unique_seq_to_set();
        }
        out
    }

    fn reading_tokens(&self) -> (r: Vec<u64>)
        ensures
            r@.no_duplicates(),
            r@.to_set() == self@.reading,
    {
        let mut r: Vec<u64> = Vec::new();
        let ghost ks = self.reading.keys().remaining().unref();
        for k in it: self.reading.keys()
            invariant
                it.seq().unref() == ks,
                ks.no_duplicates(),
                ks.to_set() == self@.reading,
                r@ == ks.take(it.index() as int),
        {
            r.push(*k);
            assert(r@ =~= ks.take(it.index() + 1));
        }
        assert(r@ =~= ks);
        r
    }
    /// Hands over every socket that is with a worker, for a forced shutdown.
    pub fn drain_processing(&mut self) -> (r: Vec<S>)
        requires
            old(self).inv(),
        ensures
            final(self).inv(),
            final(self)@.wf(),
            r@.len() == old(self)@.processing.len(),
            final(self)@ == (ServerConnsView { processing: Set::empty(), ..old(self)@ }),
    {
        let mut out: Vec<S> = Vec::new();
        let keys = self.processing_tokens();
        let mut i: usize = 0;
        while i < keys.len()
            invariant
                self.inv(),
                i <= keys@.len(),
                keys@.no_duplicates(),
                self@.processing == old(self)@.processing.difference(keys@.take(i as int).to_set()),
                old(self)@.processing == keys@.to_set(),
                self@.reading == old(self)@.reading,
                self@.max_conns == old(self)@.max_conns,
                self@.generation == old(self)@.generation,
                out@.len() == i,
            decreases keys@.len() - i,
        {
            let tk = keys[i];
            proof {
                let a = keys@.take(i as int);
                assert(keys@.take(i + 1) =~= a.push(tk));
                assert forall|x: u64| #[trigger] a.push(tk).to_set().contains(x) <==> a.to_set().insert(tk).contains(x) by {
                    if a.contains(x) {
                        let j = choose|j: int| 0 <= j < a.len() && a[j] == x;
                        assert(a.push(tk)[j] == x);
                    }
                    if x == tk {
                        assert(a.push(tk)[a.len() as int] == tk);
                    }
                    if a.push(tk).contains(x) && x != tk {
                        let j = choose|j: int| 0 <= j < a.len() + 1 && a.push(tk)[j] == x;
                        assert(a[j] == x);
                    }
                }
                assert(a.push(tk).to_set() =~= a.to_set().insert(tk));
                assert(keys@.take(i + 1).to_set() == keys@.take(i as int).to_set().insert(tk));
                assert(!keys@.take(i as int).contains(tk)) by {
                    if keys@.take(i as int).contains(tk) {
                        let j = choose|j: int| 0 <= j < i && keys@.take(i as int)[j] == tk;
                        assert(keys@[j] == keys@[i as int]);
                    }
                }
                assert(keys@.contains(tk)) by {
                    assert(keys@[i as int] == tk);
                }
                assert(keys@.to_set().contains(tk));
            }
            match self.take_processing(tk) {
                Some(s) => out.push(s),
                None => {},
            }
            proof {
                assert(self@.processing =~= old(self)@.processing.difference(keys@.take(i + 1).to_set()));
            }
            i = i + 1;
        }
        proof {
            assert(keys@.take(keys@.len() as int) =~= keys@);
            assert(self@.processing =~= Set::<u64>::empty());
            keys@.unique_seq_to_set();
        }
        out
    }

    fn processing_tokens(&self) -> (r: Vec<u64>)
        ensures
            r@.no_duplicates(),
            r@.to_set() == self@.processing,
    {
        let mut r: Vec<u64> = Vec::new();
        let ghost ks = self.processing.keys().remaining().unref();
        for k in it: self.processing.keys()
            invariant
                it.seq().unref() == ks,
                ks.no_duplicates(),
                ks.to_set() == self@.processing,
                r@ == ks.take(it.index() as int),
        {
            r.push(*k);
            assert(r@ =~= ks.take(it.index() + 1));
        }
        assert(r@ =~= ks);
        r
    }
}

/// The readiness a control stream is registered for.
#[derive(Clone, Copy, Debug, PartialEq, Eq, Structural)]
pub enum StreamInterest {
    Not,
    Read,
    Write,
    ReadWrite,
}

impl StreamInterest {
    pub fn from_rw(poll_read: bool, poll_write: bool) -> (r: Self)
        ensures
            r == (if poll_read && poll_write {
                StreamInterest::ReadWrite
            } else if poll_read {
                StreamInterest::Read
            } else if poll_write {
                StreamInterest::Write
            } else {
                StreamInterest::Not
            }),
    {
        match (poll_read, poll_write) {
            (false, false) => StreamInterest::Not,
            (false, true) => StreamInterest::Write,
            (true, false) => StreamInterest::Read,
            (true, true) => StreamInterest::ReadWrite,
        }
    }
}

/// The change of registration that moves a stream from one interest to
/// another.
#[derive(Clone, Copy, Debug, PartialEq, Eq, Structural)]
pub enum Registration {
    Keep,
    Register(StreamInterest),
    Reregister(StreamInterest),
    Deregister,
}

pub open spec fn registration_for(current: StreamInterest, wanted: StreamInterest) -> Registration {
    if current == wanted {
        Registration::Keep
    } else if current == StreamInterest::Not {
        Registration::Register(wanted)
    } else if wanted == StreamInterest::Not {
        Registration::Deregister
    } else {
        Registration::Reregister(wanted)
    }
}

pub fn registration(current: StreamInterest, wanted: StreamInterest) -> (r: Registration)
    ensures
        r == registration_for(current, wanted),
{
    if current == wanted {
        Registration::Keep
    } else if current == StreamInterest::Not {
        Registration::Register(wanted)
    } else if wanted == StreamInterest::Not {
        Registration::Deregister
    } else {
        Registration::Reregister(wanted)
    }
}

/// The server's end of one worker's control stream, with the number of
/// sockets handed to that worker and not yet given back.
pub struct UnixStream<T> {
    token: u64,
    pub stream: T,
    msg_buffer: ServerMsgBuffer,
    interest: StreamInterest,
    num_reqs: usize,
}

impl<T> UnixStream<T> {
    pub fn new(token: u64, stream: T) -> (r: Self)
        ensures
            r.token() == token,
            r.num_reqs() == 0,
            r.interest() == StreamInterest::Not,
            r.msg_buffer()@.kept.len() == 0 && r.msg_buffer()@.closed.len() == 0,
            r.msg_buffer()@.to_send.len() == 0 && r.msg_buffer()@.write_buffer.len() == 0,
    {
        UnixStream { token, stream, num_reqs: 0, interest: StreamInterest::Not, msg_buffer: ServerMsgBuffer::new() }
    }

    pub closed spec fn token(&self) -> u64 {
        self.token
    }

    pub closed spec fn num_reqs(&self) -> usize {
        self.num_reqs
    }

    pub closed spec fn interest(&self) -> StreamInterest {
        self.interest
    }

    pub closed spec fn msg_buffer(&self) -> ServerMsgBuffer {
        self.msg_buffer
    }

    pub fn get_token(&self) -> (r: u64)
        ensures
            r == self.token(),
    {
        self.token
    }

    pub fn get_num_reqs(&self) -> (r: usize)
        ensures
            r == self.num_reqs(),
    {
        self.num_reqs
    }

    /// Takes bytes read from the control stream.
    pub fn read_stream(&mut self, data: &[u8]) -> (r: Result<(), crate::msgs::CorruptFrame>)
        ensures
            match scan_responses(old(self).msg_buffer()@.read_buffer + data@) {
                None => r is Err && final(self).msg_buffer()@ == old(self).msg_buffer()@,
                Some((ms, _)) => {
                    &&& r is Ok
                    &&& final(self).msg_buffer()@.kept == old(self).msg_buffer()@.kept + kept_tokens(ms)
                    &&& final(self).msg_buffer()@.closed == old(self).msg_buffer()@.closed + closed_tokens(ms)
                    &&& final(self).msg_buffer()@.to_send == old(self).msg_buffer()@.to_send
                },
            },
            final(self).token() == old(self).token(),
            final(self).num_reqs() == old(self).num_reqs(),
            final(self).interest() == old(self).interest(),
    {
        self.msg_buffer.read_unix_stream(data)
    }

    /// The descriptor to put on the stream next, if any.
    pub fn next_fd_to_send(&self) -> (r: Option<i32>)
        ensures
            self.msg_buffer()@.to_send.len() == 0 ==> r is None,
            self.msg_buffer()@.to_send.len() > 0 ==> r == Some(self.msg_buffer()@.to_send[0].fd),
    {
        self.msg_buffer.next_fd_to_send()
    }

    pub fn fd_sent(&mut self)
        requires
            old(self).msg_buffer()@.to_send.len() > 0,
        ensures
            final(self).msg_buffer()@.to_send == old(self).msg_buffer()@.to_send.drop_first(),
            final(self).msg_buffer()@.write_buffer == old(self).msg_buffer()@.write_buffer + request_frame(
                old(self).msg_buffer()@.to_send[0],
            ),
            final(self).token() == old(self).token(),
            final(self).num_reqs() == old(self).num_reqs(),
            final(self).interest() == old(self).interest(),
    {
        self.msg_buffer.fd_sent();
    }

    pub fn unsent(&self) -> (r: &[u8])
        ensures
            r@ == self.msg_buffer()@.write_buffer,
    {
        self.msg_buffer.unsent()
    }

    /// Records that `written` bytes went onto the stream.
    pub fn write_stream(&mut self, written: usize)
        requires
            written <= old(self).msg_buffer()@.write_buffer.len(),
        ensures
            final(self).msg_buffer()@.write_buffer == old(self).msg_buffer()@.write_buffer.subrange(
                written as int,
                old(self).msg_buffer()@.write_buffer.len() as int,
            ),
            final(self).msg_buffer()@.to_send == old(self).msg_buffer()@.to_send,
            final(self).token() == old(self).token(),
            final(self).num_reqs() == old(self).num_reqs(),
            final(self).interest() == old(self).interest(),
    {
        self.msg_buffer.write_unix_stream(written);
    }

    /// The registration the stream needs now: read while the worker holds
    /// sockets, write while there is something to send; and the interest it
    /// then has.
    pub fn reregister_plan(&self) -> (r: (Registration, StreamInterest))
        ensures
            r.1 == (if self.num_reqs() > 0 && (self.msg_buffer()@.to_send.len() > 0 || self.msg_buffer()@.write_buffer.len() > 0) {
                StreamInterest::ReadWrite
            } else if self.num_reqs() > 0 {
                StreamInterest::Read
            } else if self.msg_buffer()@.to_send.len() > 0 || self.msg_buffer()@.write_buffer.len() > 0 {
                StreamInterest::Write
            } else {
                StreamInterest::Not
            }),
            r.0 == registration_for(self.interest(), r.1),
    {
        let wanted = StreamInterest::from_rw(self.num_reqs > 0, self.msg_buffer.has_data_to_send());
        (registration(self.interest, wanted), wanted)
    }

    /// Records the interest the stream is now registered for.
    pub fn set_interest(&mut self, interest: StreamInterest)
        ensures
            final(self).interest() == interest,
            final(self).token() == old(self).token(),
            final(self).num_reqs() == old(self).num_reqs(),
            final(self).msg_buffer() == old(self).msg_buffer(),
    {
        self.interest = interest;
    }

    fn next_stream_tk(&mut self) -> (r: Option<u64>)
        ensures
            final(self).num_reqs() == if r is Some {
                sat_sub(old(self).num_reqs() as nat, 1)
            } else {
                old(self).num_reqs() as nat
            },
            final(self).token() == old(self).token(),
            final(self).interest() == old(self).interest(),
            final(self).msg_buffer()@.closed == old(self).msg_buffer()@.closed,
            old(self).msg_buffer()@.kept.len() == 0 ==> r is None && final(self).msg_buffer()@.kept.len() == 0,
            old(self).msg_buffer()@.kept.len() > 0 ==> r == Some(old(self).msg_buffer()@.kept[0])
                && final(self).msg_buffer()@.kept == old(self).msg_buffer()@.kept.drop_first(),
    {
        let r = self.msg_buffer.next_stream_tk();
        if r.is_some() && self.num_reqs > 0 {
            self.num_reqs = self.num_reqs - 1;
        }
        r
    }

    fn next_stream_close_tk(&mut self) -> (r: Option<u64>)
        ensures
            final(self).num_reqs() == if r is Some {
                sat_sub(old(self).num_reqs() as nat, 1)
            } else {
                old(self).num_reqs() as nat
            },
            final(self).token() == old(self).token(),
            final(self).interest() == old(self).interest(),
            final(self).msg_buffer()@.kept == old(self).msg_buffer()@.kept,
            old(self).msg_buffer()@.closed.len() == 0 ==> r is None && final(self).msg_buffer()@.closed.len() == 0,
            old(self).msg_buffer()@.closed.len() > 0 ==> r == Some(old(self).msg_buffer()@.closed[0])
                && final(self).msg_buffer()@.closed == old(self).msg_buffer()@.closed.drop_first(),
    {
        let r = self.msg_buffer.next_stream_close_tk();
        if r.is_some() && self.num_reqs > 0 {
            self.num_reqs = self.num_reqs - 1;
        }
        r
    }

    fn msg_send_tcp_stream(&mut self, tk: u64, fd: i32)
        ensures
            final(self).token() == old(self).token(),
            final(self).interest() == old(self).interest(),
            final(self).num_reqs() == if old(self).num_reqs() < usize::MAX {
                (old(self).num_reqs() + 1) as usize
            } else {
                old(self).num_reqs()
            },
            final(self).msg_buffer()@.to_send == old(self).msg_buffer()@.to_send.push(Request { token: tk, fd }),
    {
        if self.num_reqs < usize::MAX {
            self.num_reqs = self.num_reqs + 1;
        }
        self.msg_buffer.req_tcp_stream_fd(tk, fd);
    }

    /// Takes every token given back open, oldest first.
    fn drain_kept(&mut self) -> (r: Vec<u64>)
        ensures
            r@ == old(self).msg_buffer()@.kept,
            final(self).msg_buffer()@.kept.len() == 0,
            final(self).token() == old(self).token(),
            final(self).num_reqs() == sat_sub(old(self).num_reqs() as nat, old(self).msg_buffer()@.kept.len()),
    {
        let mut r: Vec<u64> = Vec::new();
        loop
            invariant
                r@ + self.msg_buffer()@.kept == old(self).msg_buffer()@.kept,
                self.token() == old(self).token(),
                self.num_reqs() == sat_sub(old(self).num_reqs() as nat, r@.len()),
            ensures
                r@ == old(self).msg_buffer()@.kept,
                self.msg_buffer()@.kept.len() == 0,
                self.token() == old(self).token(),
                self.num_reqs() == sat_sub(old(self).num_reqs() as nat, old(self).msg_buffer()@.kept.len()),
            decreases self.msg_buffer()@.kept.len(),
        {
            let ghost k0 = self.msg_buffer()@.kept;
            match self.next_stream_tk() {
                Some(tk) => {
                    r.push(tk);
                    assert(r@ + self.msg_buffer()@.kept =~= old(self).msg_buffer()@.kept) by {
                        assert(k0 =~= seq![tk] + k0.drop_first());
                    }
                },
                None => {
                    assert(r@ =~= old(self).msg_buffer()@.kept);
                    break;
                },
            }
        }
        r
    }

    /// Takes every token whose socket is to be closed, oldest first.
    fn drain_closed(&mut self) -> (r: Vec<u64>)
        ensures
            r@ == old(self).msg_buffer()@.closed,
            final(self).msg_buffer()@.closed.len() == 0,
            final(self).token() == old(self).token(),
            final(self).num_reqs() == sat_sub(old(self).num_reqs() as nat, old(self).msg_buffer()@.closed.len()),
    {
        let mut r: Vec<u64> = Vec::new();
        loop
            invariant
                r@ + self.msg_buffer()@.closed == old(self).msg_buffer()@.closed,
                self.token() == old(self).token(),
                self.num_reqs() == sat_sub(old(self).num_reqs() as nat, r@.len()),
            ensures
                r@ == old(self).msg_buffer()@.closed,
                self.msg_buffer()@.closed.len() == 0,
                self.token() == old(self).token(),
                self.num_reqs() == sat_sub(old(self).num_reqs() as nat, old(self).msg_buffer()@.closed.len()),
            decreases self.msg_buffer()@.closed.len(),
        {
            let ghost k0 = self.msg_buffer()@.closed;
            match self.next_stream_close_tk() {
                Some(tk) => {
                    r.push(tk);
                    assert(r@ + self.msg_buffer()@.closed =~= old(self).msg_buffer()@.closed) by {
                        assert(k0 =~= seq![tk] + k0.drop_first());
                    }
                },
                None => {
                    assert(r@ =~= old(self).msg_buffer()@.closed);
                    break;
                },
            }
        }
        r
    }
}

/// `a - b`, or zero.
pub open spec fn sat_sub(a: nat, b: nat) -> nat {
    if a >= b {
        (a - b) as nat
    } else {
        0
    }
}

/// The index of the first stream with the fewest sockets handed out.
pub open spec fn is_least_loaded<T>(ss: Seq<UnixStream<T>>, i: int) -> bool {
    &&& 0 <= i < ss.len()
    &&& forall|j: int| 0 <= j < ss.len() ==> ss[i].num_reqs() <= #[trigger] ss[j].num_reqs()
    &&& forall|j: int| 0 <= j < i ==> ss[i].num_reqs() < #[trigger] ss[j].num_reqs()
}

/// The server's ends of all workers' control streams.
pub struct UnixStreams<T> {
    pub streams: Vec<UnixStream<T>>,
}

/// The concatenated queues of tokens given back open.
pub open spec fn all_kept<T>(ss: Seq<UnixStream<T>>) -> Seq<u64>
    decreases ss.len(),
{
    if ss.len() == 0 {
        seq![]
    } else {
        all_kept(ss.drop_last()) + ss.last().msg_buffer()@.kept
    }
}

/// The concatenated queues of tokens whose sockets are to be closed.
pub open spec fn all_closed<T>(ss: Seq<UnixStream<T>>) -> Seq<u64>
    decreases ss.len(),
{
    if ss.len() == 0 {
        seq![]
    } else {
        all_closed(ss.drop_last()) + ss.last().msg_buffer()@.closed
    }
}

impl<T> UnixStreams<T> {
    pub fn new(streams: Vec<UnixStream<T>>) -> (r: Self)
        ensures
            r.streams@ == streams@,
    {
        UnixStreams { streams }
    }

    /// The position of the stream with token `tk`.
    pub fn position(&self, tk: u64) -> (r: Option<usize>)
        ensures
            r matches Some(i) ==> i < self.streams@.len() && self.streams@[i as int].token() == tk,
            r is None ==> forall|j: int| 0 <= j < self.streams@.len() ==> #[trigger] self.streams@[j].token() != tk,
    {
        let mut i: usize = 0;
        while i < self.streams.len()
            invariant
                i <= self.streams@.len(),
                forall|j: int| 0 <= j < i ==> #[trigger] self.streams@[j].token() != tk,
            decreases self.streams@.len() - i,
        {
            if self.streams[i].get_token() == tk {
                return Some(i);
            }
            i = i + 1;
        }
        None
    }

    /// The first stream with the fewest sockets handed out.
    pub fn least_loaded(&self) -> (r: usize)
        requires
            self.streams@.len() > 0,
        ensures
            is_least_loaded(self.streams@, r as int),
    {
        let mut ind: usize = 0;
        let mut i: usize = 1;
        while i < self.streams.len()
            invariant
                1 <= i <= self.streams@.len(),
                ind < i,
                forall|j: int| 0 <= j < i ==> self.streams@[ind as int].num_reqs() <= #[trigger] self.streams@[j].num_reqs(),
                forall|j: int| 0 <= j < ind ==> self.streams@[ind as int].num_reqs() < #[trigger] self.streams@[j].num_reqs(),
            decreases self.streams@.len() - i,
        {
            if self.streams[i].get_num_reqs() < self.streams[ind].get_num_reqs() {
                ind = i;
            }
            i = i + 1;
        }
        ind
    }

    /// Queues the dispatch of socket `fd` under `tk` on the least loaded
    /// worker's stream; returns that stream's position.
    pub fn msg_send_tcp_stream(&mut self, tk: u64, fd: i32) -> (r: usize)
        requires
            old(self).streams@.len() > 0,
        ensures
            is_least_loaded(old(self).streams@, r as int),
            final(self).streams@.len() == old(self).streams@.len(),
            final(self).streams@[r as int].num_reqs() == if old(self).streams@[r as int].num_reqs() < usize::MAX {
                (old(self).streams@[r as int].num_reqs() + 1) as usize
            } else {
                old(self).streams@[r as int].num_reqs()
            },
            final(self).streams@[r as int].msg_buffer()@.to_send == old(self).streams@[r as int].msg_buffer()@.to_send.push(
                Request { token: tk, fd },
            ),
            forall|j: int| 0 <= j < old(self).streams@.len() && j != r ==> #[trigger] final(self).streams@[j] == old(self).streams@[j],
    {
        let i = self.least_loaded();
        let mut s = self.streams.remove(i);
        s.msg_send_tcp_stream(tk, fd);
        self.streams.insert(i, s);
        assert forall|j: int| 0 <= j < old(self).streams@.len() && j != i implies #[trigger] self.streams@[j] == old(self).streams@[j] by {
        }
        i
    }

    /// Takes every token given back open, stream by stream, oldest first.
    pub fn next_stream_tks(&mut self) -> (r: Vec<u64>)
        ensures
            forall|j: int|
                0 <= j < old(self).streams@.len() ==> {
                    &&& (#[trigger] final(self).streams@[j]).num_reqs() == sat_sub(
                        old(self).streams@[j].num_reqs() as nat,
                        old(self).streams@[j].msg_buffer()@.kept.len(),
                    )
                    &&& final(self).streams@[j].msg_buffer()@.kept.len() == 0
                    &&& final(self).streams@[j].token() == old(self).streams@[j].token()
                },
            r@ == all_kept(old(self).streams@),
            final(self).streams@.len() == old(self).streams@.len(),
    {
        let mut tks: Vec<u64> = Vec::new();
        let mut i: usize = 0;
        let n = self.streams.len();
        while i < n
            invariant
                n == self.streams@.len() == old(self).streams@.len(),
                i <= n,
                tks@ == all_kept(old(self).streams@.take(i as int)),
                forall|j: int| i <= j < n ==> #[trigger] self.streams@[j] == old(self).streams@[j],
                forall|j: int|
                    0 <= j < i ==> {
                        &&& (#[trigger] self.streams@[j]).num_reqs() == sat_sub(
                            old(self).streams@[j].num_reqs() as nat,
                            old(self).streams@[j].msg_buffer()@.kept.len(),
                        )
                        &&& self.streams@[j].msg_buffer()@.kept.len() == 0
                        &&& self.streams@[j].token() == old(self).streams@[j].token()
                    },
            decreases n - i,
        {
            let mut s = self.streams.remove(i);
            let mut got = s.drain_kept();
            tks.append(&mut got);
            self.streams.insert(i, s);
            proof {
                assert(old(self).streams@.take(i + 1).drop_last() =~= old(self).streams@.take(i as int));
                assert forall|j: int| i + 1 <= j < n implies #[trigger] self.streams@[j] == old(self).streams@[j] by {
                }
            }
            i = i + 1;
        }
        assert(old(self).streams@.take(n as int) =~= old(self).streams@);
        tks
    }

    /// Takes every token whose socket is to be closed, stream by stream,
    /// oldest first.
    pub fn next_stream_close_tks(&mut self) -> (r: Vec<u64>)
        ensures
            forall|j: int|
                0 <= j < old(self).streams@.len() ==> {
                    &&& (#[trigger] final(self).streams@[j]).num_reqs() == sat_sub(
                        old(self).streams@[j].num_reqs() as nat,
                        old(self).streams@[j].msg_buffer()@.closed.len(),
                    )
                    &&& final(self).streams@[j].msg_buffer()@.closed.len() == 0
                    &&& final(self).streams@[j].token() == old(self).streams@[j].token()
                },
            r@ == all_closed(old(self).streams@),
            final(self).streams@.len() == old(self).streams@.len(),
    {
        let mut tks: Vec<u64> = Vec::new();
        let mut i: usize = 0;
        let n = self.streams.len();
        while i < n
            invariant
                n == self.streams@.len() == old(self).streams@.len(),
                i <= n,
                tks@ == all_closed(old(self).streams@.take(i as int)),
                forall|j: int| i <= j < n ==> #[trigger] self.streams@[j] == old(self).streams@[j],
                forall|j: int|
                    0 <= j < i ==> {
                        &&& (#[trigger] self.streams@[j]).num_reqs() == sat_sub(
                            old(self).streams@[j].num_reqs() as nat,
                            old(self).streams@[j].msg_buffer()@.closed.len(),
                        )
                        &&& self.streams@[j].msg_buffer()@.closed.len() == 0
                        &&& self.streams@[j].token() == old(self).streams@[j].token()
                    },
            decreases n - i,
        {
            let mut s = self.streams.remove(i);
            let mut got = s.drain_closed();
            tks.append(&mut got);
            self.streams.insert(i, s);
            proof {
                assert(old(self).streams@.take(i + 1).drop_last() =~= old(self).streams@.take(i as int));
                assert forall|j: int| i + 1 <= j < n implies #[trigger] self.streams@[j] == old(self).streams@[j] by {
                }
            }
            i = i + 1;
        }
        assert(old(self).streams@.take(n as int) =~= old(self).streams@);
        tks
    }
}

} // verus!
