//! A worker's connection states: which socket is being read, waits for its
//! handler, is being written, or gets a fixed error response, and how many
//! requests it admits at once.
use crate::encoder::{decimal, header_line, push_decimal, push_header_line, push_str, status_line};
use crate::events::Timeout;
use crate::http::{HttpError, HttpRequest, HttpResponse};
use crate::request::{read_outcome, Reader, State as ReadState};
use crate::writer::{State as WriteState, Writer};
use std::collections::HashMap;
use vstd::prelude::*;
use vstd::string::StringSliceAdditionalSpecFns;

verus! {

broadcast use vstd::std_specs::hash::group_hash_axioms;

/// A fixed response that the server itself sends before closing a socket.
pub struct CasketResponse {
    pub code: u16,
    pub response: Vec<u8>,
    pub reason: &'static str,
    pub bytes_sent: usize,
}

/// The bytes of a fixed response: a status line, a plain-text body of the
/// reason, and `Connection: Close`.
pub open spec fn casket_bytes(code: u16, status: Seq<u8>, reason: Seq<u8>) -> Seq<u8> {
    status_line(code, status) + header_line("Content-Type".spec_bytes(), "text/plain".spec_bytes())
        + header_line("Content-Length".spec_bytes(), decimal(reason.len()))
        + header_line("Connection".spec_bytes(), "Close".spec_bytes())
        + header_line("Server".spec_bytes(), "Casket".spec_bytes()) + "\r\n".spec_bytes() + reason
}

fn casket_response(code: u16, status: &str, reason: &'static str) -> (r: CasketResponse)
    ensures
        r.code == code,
        r.reason == reason,
        r.bytes_sent == 0,
        r.response@ == casket_bytes(code, status.spec_bytes(), reason.spec_bytes()),
{
    let mut b: Vec<u8> = Vec::new();
    push_str(&mut b, "HTTP/1.1 ");
    push_decimal(&mut b, code as u64);
    push_str(&mut b, " ");
    push_str(&mut b, status);
    push_str(&mut b, "\r\n");
    push_header_line(&mut b, "Content-Type", "text/plain");
    let mut len: Vec<u8> = Vec::new();
    push_decimal(&mut len, reason.as_bytes().len() as u64);
    let ghost before = b@;
    push_str(&mut b, "Content-Length");
    push_str(&mut b, ": ");
    b.extend_from_slice(len.as_slice());
    push_str(&mut b, "\r\n");
    assert(b@ =~= before + header_line("Content-Length".spec_bytes(), decimal(reason.spec_bytes().len())));
    push_header_line(&mut b, "Connection", "Close");
    push_header_line(&mut b, "Server", "Casket");
    push_str(&mut b, "\r\n");
    push_str(&mut b, reason);
    assert(b@ =~= casket_bytes(code, status.spec_bytes(), reason.spec_bytes()));
    CasketResponse { code, response: b, reason, bytes_sent: 0 }
}

/// The request was not read in time.
pub fn new_408_timeout() -> (r: CasketResponse)
    ensures
        r.code == 408,
        r.bytes_sent == 0,
        r.reason@ == "request read timeout"@,
        r.response@ == casket_bytes(408, "Request Timeout".spec_bytes(), "request read timeout".spec_bytes()),
{
    casket_response(408, "Request Timeout", "request read timeout")
}

/// The worker has no room for another request.
pub fn new_503_service_busy() -> (r: CasketResponse)
    ensures
        r.code == 503,
        r.bytes_sent == 0,
        r.reason@ == "service busy"@,
        r.response@ == casket_bytes(503, "Service Unavailable".spec_bytes(), "service busy".spec_bytes()),
{
    casket_response(503, "Service Unavailable", "service busy")
}

/// The handler did not answer in time.
pub fn new_504_gateway_timeout() -> (r: CasketResponse)
    ensures
        r.code == 504,
        r.bytes_sent == 0,
        r.reason@ == "gateway timeout"@,
        r.response@ == casket_bytes(504, "Gateway Timeout".spec_bytes(), "gateway timeout".spec_bytes()),
{
    casket_response(504, "Gateway Timeout", "gateway timeout")
}

impl CasketResponse {
    /// The bytes not yet written.
    pub fn unsent(&self) -> (r: &[u8])
        requires
            self.bytes_sent <= self.response@.len(),
        ensures
            r@ == self.response@.subrange(self.bytes_sent as int, self.response@.len() as int),
    {
        let n = self.response.len();
        &self.response.as_slice()[self.bytes_sent..n]
    }
}

/// Where an error came from.
#[derive(Clone, Copy)]
pub enum ErrorSource {
    Server,
}

/// A failed exchange on the socket `tcp_stream` of `token`.
pub struct ActionError<S> {
    pub source: ErrorSource,
    pub error: HttpError,
    pub token: u64,
    pub tcp_stream: S,
}

/// The next step for one socket of a worker, after an event on it.
pub enum Action<S> {
    NewServerRequest((u64, S)),
    ServerContinueRead((u64, Reader, S)),
    ServerReadDone((u64, Box<HttpRequest>, S)),
    ServerStreamEOF((u64, S)),
    ServerNewResponse((u64, Box<HttpResponse>)),
    ServerContinueWrite((u64, Writer, S)),
    ServerDoneWrite((u64, Box<HttpResponse>, S)),
    ServerCasketResponseNew((u64, S, CasketResponse)),
    ServerCasketResponseContinue((u64, S, CasketResponse)),
    ServerCasketResponseDone((u64, S, CasketResponse)),
    /// The handler began on the request of the token at the given time, in
    /// milliseconds.
    ServerPythonCodeTimeoutNew((u64, u64)),
}

/// Feeds the bytes of one read to the socket's reader.
pub fn event_server_stream_read<S>(tk: u64, tcp_stream: S, reader: Reader, data: &[u8]) -> (r: Result<Action<S>, ActionError<S>>)
    ensures
        match r {
            Err(e) => e.token == tk && e.tcp_stream == tcp_stream && read_outcome(reader@, data@, Err(e.error)),
            Ok(Action::ServerContinueRead((t, rd, s))) => t == tk && s == tcp_stream && read_outcome(
                reader@,
                data@,
                Ok(ReadState::Partial(rd)),
            ),
            Ok(Action::ServerReadDone((t, req, s))) => t == tk && s == tcp_stream && read_outcome(
                reader@,
                data@,
                Ok(ReadState::Complete(req)),
            ),
            Ok(Action::ServerStreamEOF((t, s))) => t == tk && s == tcp_stream && read_outcome(
                reader@,
                data@,
                Ok(ReadState::StreamEOF),
            ),
            _ => false,
        },
{
    match reader.read_tcp_stream(data) {
        Err(error) => Err(ActionError { token: tk, error, source: ErrorSource::Server, tcp_stream }),
        Ok(ReadState::Partial(reader)) => Ok(Action::ServerContinueRead((tk, reader, tcp_stream))),
        Ok(ReadState::Complete(http_req)) => Ok(Action::ServerReadDone((tk, http_req, tcp_stream))),
        Ok(ReadState::StreamEOF) => Ok(Action::ServerStreamEOF((tk, tcp_stream))),
    }
}

/// Records a write of `written` bytes of the socket's response.
pub fn event_server_stream_write<S>(tk: u64, tcp_stream: S, writer: Writer, written: usize) -> (r: Action<S>)
    requires
        written <= writer@.unsent.len(),
    ensures
        ({
            let rest = writer@.unsent.subrange(written as int, writer@.unsent.len() as int);
            if rest.len() == 0 && !writer@.body_open {
                r matches Action::ServerDoneWrite((t, _, s)) && t == tk && s == tcp_stream
            } else {
                r matches Action::ServerContinueWrite((t, w, s)) && t == tk && s == tcp_stream && w@.unsent == rest
            }
        }),
{
    match writer.write_tcp_stream(written) {
        WriteState::Partial(writer) => Action::ServerContinueWrite((tk, writer, tcp_stream)),
        WriteState::Done(http_resp) => Action::ServerDoneWrite((tk, http_resp, tcp_stream)),
    }
}

/// Records a write of `written` bytes of a fixed response.
pub fn event_casket_response_write<S>(tk: u64, tcp_stream: S, casket_resp: CasketResponse, written: usize) -> (r: Action<S>)
    requires
        casket_resp.bytes_sent + written <= casket_resp.response@.len(),
    ensures
        ({
            let sent = casket_resp.bytes_sent + written;
            if sent == casket_resp.response@.len() {
                r matches Action::ServerCasketResponseDone((t, s, c)) && t == tk && s == tcp_stream && c.bytes_sent == sent
                    && c.code == casket_resp.code
            } else {
                r matches Action::ServerCasketResponseContinue((t, s, c)) && t == tk && s == tcp_stream && c.bytes_sent == sent
                    && c.response == casket_resp.response
            }
        }),
{
    let mut c = casket_resp;
    let n = c.response.len();
    c.bytes_sent = c.bytes_sent + written;
    if c.bytes_sent == n {
        Action::ServerCasketResponseDone((tk, tcp_stream, c))
    } else {
        Action::ServerCasketResponseContinue((tk, tcp_stream, c))
    }
}

/// The sockets a worker holds, each in exactly one state, keyed by token.
pub struct Connections<S> {
    reading: HashMap<u64, (S, Reader)>,
    pending: HashMap<u64, S>,
    writing: HashMap<u64, (S, Writer)>,
    casket: HashMap<u64, (S, CasketResponse)>,
    max_requests: usize,
}

/// The tokens in each state, and the bound on admitted requests.
pub struct ConnectionsView {
    pub reading: Set<u64>,
    pub pending: Set<u64>,
    pub writing: Set<u64>,
    pub casket: Set<u64>,
    pub max_requests: nat,
}

impl ConnectionsView {
    /// The tokens held in any state.
    pub open spec fn held(self) -> Set<u64> {
        self.reading + self.pending + self.writing + self.casket
    }

    /// The requests bound for or back from the handlers: those waiting for
    /// an answer and those whose answer is being written. Sockets still being
    /// read are admitted but not yet counted.
    pub open spec fn in_flight(self) -> nat {
        self.pending.len() + self.writing.len()
    }

    /// No token is in two states, and the handler-bound requests stay within
    /// the bound.
    pub open spec fn wf(self) -> bool {
        &&& self.reading.finite() && self.pending.finite() && self.writing.finite() && self.casket.finite()
        &&& self.reading.disjoint(self.pending)
        &&& self.reading.disjoint(self.writing)
        &&& self.reading.disjoint(self.casket)
        &&& self.pending.disjoint(self.writing)
        &&& self.pending.disjoint(self.casket)
        &&& self.writing.disjoint(self.casket)
        &&& self.in_flight() <= self.max_requests
    }
}

impl<S> View for Connections<S> {
    type V = ConnectionsView;

    closed spec fn view(&self) -> ConnectionsView {
        ConnectionsView {
            reading: self.reading@.dom(),
            pending: self.pending@.dom(),
            writing: self.writing@.dom(),
            casket: self.casket@.dom(),
            max_requests: self.max_requests as nat,
        }
    }
}

/// In a well-formed worker, the requests waiting for or getting an answer
/// never exceed the bound, and a token is in one state at most. Every
/// operation of `Connections` keeps its view well-formed.
pub proof fn lemma_worker_admission_bound(c: ConnectionsView, tk: u64)
    requires
        c.wf(),
    ensures
        c.pending.len() + c.writing.len() <= c.max_requests,
        c.reading.contains(tk) ==> !c.pending.contains(tk) && !c.writing.contains(tk) && !c.casket.contains(tk),
        c.pending.contains(tk) ==> !c.writing.contains(tk) && !c.casket.contains(tk),
        c.writing.contains(tk) ==> !c.casket.contains(tk),
{
}

impl<S> Connections<S> {
    pub closed spec fn inv(&self) -> bool {
        &&& self@.wf()
        &&& self.pending@.len() + self.writing@.len() <= self.max_requests
    }

    pub fn new(max_requests: usize) -> (r: Self)
        ensures
            r.inv(),
            r@.wf(),
            r@.held().is_empty(),
            r@.max_requests == max_requests,
    {
        let r = Connections {
            reading: HashMap::new(),
            pending: HashMap::new(),
            writing: HashMap::new(),
            casket: HashMap::new(),
            max_requests,
        };
        assert(r@.held() =~= Set::<u64>::empty());
        r
    }

    pub fn contains(&self, tk: u64) -> (r: bool)
        ensures
            r == self@.held().contains(tk),
    {
        self.reading.contains_key(&tk) || self.pending.contains_key(&tk) || self.writing.contains_key(&tk)
            || self.casket.contains_key(&tk)
    }

    /// Whether another request can be admitted: not while closing, and only
    /// below the bound.
    pub fn admits(&self, closing: bool) -> (r: bool)
        requires
            self.inv(),
        ensures
            r == (!closing && self@.in_flight() < self@.max_requests),
    {
        !closing && self.pending.len() + self.writing.len() < self.max_requests
    }

    /// Whether no socket is held.
    pub fn is_idle(&self) -> (r: bool)
        ensures
            r == self@.held().is_empty(),
    {
        let r = self.reading.is_empty() && self.pending.is_empty() && self.writing.is_empty() && self.casket.is_empty();
        assert(r ==> self@.held() =~= Set::<u64>::empty());
        assert(!r ==> !self@.held().is_empty()) by {
            if !self.reading@.is_empty() {
                let k = choose|k: u64| self.reading@.dom().contains(k);
                assert(self@.held().contains(k));
            } else if !self.pending@.is_empty() {
                let k = choose|k: u64| self.pending@.dom().contains(k);
                assert(self@.held().contains(k));
            } else if !self.writing@.is_empty() {
                let k = choose|k: u64| self.writing@.dom().contains(k);
                assert(self@.held().contains(k));
            } else if !self.casket@.is_empty() {
                let k = choose|k: u64| self.casket@.dom().contains(k);
                assert(self@.held().contains(k));
            }
        }
        r
    }

    /// Starts reading the request of a fresh socket, if the token is new;
    /// otherwise hands the socket back.
    pub fn insert_reading(&mut self, tk: u64, s: S, reader: Reader) -> (r: Result<(), S>)
        requires
            old(self).inv(),
        ensures
            final(self).inv(),
            final(self)@.wf(),
            r is Ok <==> !old(self)@.held().contains(tk),
            r is Ok ==> final(self)@ == (ConnectionsView { reading: old(self)@.reading.insert(tk), ..old(self)@ }),
            r is Err ==> final(self)@ == old(self)@ && r == Err::<(), S>(s),
    {
        if self.contains(tk) {
            return Err(s);
        }
        self.reading.insert(tk, (s, reader));
        Ok(())
    }

    /// Parks a socket whose request goes to the handlers, if the token is new
    /// and the handlers have room; otherwise hands the socket back.
    pub fn insert_pending(&mut self, tk: u64, s: S) -> (r: Result<(), S>)
        requires
            old(self).inv(),
        ensures
            final(self).inv(),
            final(self)@.wf(),
            r is Ok <==> !old(self)@.held().contains(tk) && old(self)@.in_flight() < old(self)@.max_requests,
            r is Ok ==> final(self)@ == (ConnectionsView { pending: old(self)@.pending.insert(tk), ..old(self)@ }),
            r is Err ==> final(self)@ == old(self)@ && r == Err::<(), S>(s),
    {
        if self.contains(tk) || !self.admits(false) {
            return Err(s);
        }
        self.pending.insert(tk, s);
        assert(self@.pending.len() == old(self)@.pending.len() + 1);
        Ok(())
    }

    /// Starts writing the response of a socket.
    pub fn insert_writing(&mut self, tk: u64, s: S, writer: Writer) -> (r: Result<(), (S, Writer)>)
        requires
            old(self).inv(),
        ensures
            final(self).inv(),
            final(self)@.wf(),
            r is Ok <==> !old(self)@.held().contains(tk) && old(self)@.in_flight() < old(self)@.max_requests,
            r is Ok ==> final(self)@ == (ConnectionsView { writing: old(self)@.writing.insert(tk), ..old(self)@ }),
            r is Err ==> final(self)@ == old(self)@,
    {
        if self.contains(tk) || !self.admits(false) {
            return Err((s, writer));
        }
        self.writing.insert(tk, (s, writer));
        assert(self@.writing.len() == old(self)@.writing.len() + 1);
        Ok(())
    }

    /// Starts sending a fixed response on a socket; these do not count
    /// against the bound.
    pub fn insert_casket(&mut self, tk: u64, s: S, c: CasketResponse) -> (r: Result<(), S>)
        requires
            old(self).inv(),
        ensures
            final(self).inv(),
            final(self)@.wf(),
            r is Ok <==> !old(self)@.held().contains(tk),
            r is Ok ==> final(self)@ == (ConnectionsView { casket: old(self)@.casket.insert(tk), ..old(self)@ }),
            r is Err ==> final(self)@ == old(self)@ && r == Err::<(), S>(s),
    {
        if self.contains(tk) {
            return Err(s);
        }
        self.casket.insert(tk, (s, c));
        Ok(())
    }

    pub fn take_reading(&mut self, tk: u64) -> (r: Option<(S, Reader)>)
        requires
            old(self).inv(),
        ensures
            final(self).inv(),
            final(self)@.wf(),
            r is Some <==> old(self)@.reading.contains(tk),
            final(self)@ == (ConnectionsView { reading: old(self)@.reading.remove(tk), ..old(self)@ }),
    {
        let r = self.reading.remove(&tk);
        proof {
            if old(self)@.reading.contains(tk) {
                assert(self@.reading.len() + 1 == old(self)@.reading.len());
            } else {
                assert(self@.reading =~= old(self)@.reading);
            }
        }
        r
    }

    pub fn take_pending(&mut self, tk: u64) -> (r: Option<S>)
        requires
            old(self).inv(),
        ensures
            final(self).inv(),
            final(self)@.wf(),
            r is Some <==> old(self)@.pending.contains(tk),
            final(self)@ == (ConnectionsView { pending: old(self)@.pending.remove(tk), ..old(self)@ }),
    {
        let r = self.pending.remove(&tk);
        proof {
            if old(self)@.pending.contains(tk) {
                assert(self@.pending.len() + 1 == old(self)@.pending.len());
            } else {
                assert(self@.pending =~= old(self)@.pending);
            }
        }
        r
    }

    pub fn take_writing(&mut self, tk: u64) -> (r: Option<(S, Writer)>)
        requires
            old(self).inv(),
        ensures
            final(self).inv(),
            final(self)@.wf(),
            r is Some <==> old(self)@.writing.contains(tk),
            final(self)@ == (ConnectionsView { writing: old(self)@.writing.remove(tk), ..old(self)@ }),
    {
        let r = self.writing.remove(&tk);
        proof {
            if old(self)@.writing.contains(tk) {
                assert(self@.writing.len() + 1 == old(self)@.writing.len());
            } else {
                assert(self@.writing =~= old(self)@.writing);
            }
        }
        r
    }

    /// A timer fired for `tk`. A read timeout ends a socket still being read
    /// with a 408; a handler timeout ends a socket still waiting for its
    /// handler with a 504. The socket leaves its state and comes back with
    /// the response to send; any other timer is stale and changes nothing.
    pub fn on_timeout(&mut self, tk: u64, t: Timeout) -> (r: Option<(S, CasketResponse)>)
        requires
            old(self).inv(),
        ensures
            final(self).inv(),
            final(self)@.wf(),
            (t == Timeout::RequestRead && old(self)@.reading.contains(tk)) ==> {
                &&& r matches Some((_, c)) && c.code == 408 && c.bytes_sent == 0 && c.response@ == casket_bytes(
                    408,
                    "Request Timeout".spec_bytes(),
                    "request read timeout".spec_bytes(),
                )
                &&& final(self)@ == (ConnectionsView { reading: old(self)@.reading.remove(tk), ..old(self)@ })
            },
            (t == Timeout::PythonCode && old(self)@.pending.contains(tk)) ==> {
                &&& r matches Some((_, c)) && c.code == 504 && c.bytes_sent == 0 && c.response@ == casket_bytes(
                    504,
                    "Gateway Timeout".spec_bytes(),
                    "gateway timeout".spec_bytes(),
                )
                &&& final(self)@ == (ConnectionsView { pending: old(self)@.pending.remove(tk), ..old(self)@ })
            },
            !((t == Timeout::RequestRead && old(self)@.reading.contains(tk)) || (t == Timeout::PythonCode
                && old(self)@.pending.contains(tk))) ==> r is None && final(self)@ == old(self)@,
    {
        match t {
            Timeout::RequestRead => if !self.reading.contains_key(&tk) {
                None
            } else {
                match self.take_reading(tk) {
                    Some((s, _)) => Some((s, new_408_timeout())),
                    None => None,
                }
            },
            Timeout::PythonCode => if !self.pending.contains_key(&tk) {
                None
            } else {
                match self.take_pending(tk) {
                    Some(s) => Some((s, new_504_gateway_timeout())),
                    None => None,
                }
            },
        }
    }

    pub fn take_casket(&mut self, tk: u64) -> (r: Option<(S, CasketResponse)>)
        requires
            old(self).inv(),
        ensures
            final(self).inv(),
            final(self)@.wf(),
            r is Some <==> old(self)@.casket.contains(tk),
            final(self)@ == (ConnectionsView { casket: old(self)@.casket.remove(tk), ..old(self)@ }),
    {
        self.casket.remove(&tk)
    }
}

} // verus!
