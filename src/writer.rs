//! Writing a response to a socket: the head, then body chunks as the handler
//! produces them.
use crate::encoder::pair_views;
use crate::http::{response_head, try_recv, HttpResponse, Polled};
use vstd::prelude::*;

verus! {

/// Writes one response to its socket.
pub struct Writer {
    http_resp: Box<HttpResponse>,
    buffer: Vec<u8>,
    body_len: usize,
}

/// The state of a `Writer`.
pub struct WriterView {
    /// Bytes not yet written to the socket.
    pub unsent: Seq<u8>,
    /// Whether more body chunks may come.
    pub body_open: bool,
    /// The body bytes taken so far, up to `usize::MAX`.
    pub body_len: nat,
}

/// What a write led to.
pub enum State {
    Partial(Writer),
    Done(Box<HttpResponse>),
}

impl View for Writer {
    type V = WriterView;

    closed spec fn view(&self) -> WriterView {
        WriterView {
            unsent: self.buffer@,
            body_open: self.http_resp.resp_body is Some,
            body_len: self.body_len as nat,
        }
    }
}

impl Writer {
    /// Starts a response: its head is the first thing to be written. The
    /// buffer handed in is reused.
    pub fn new(http_resp: Box<HttpResponse>, buffer: Vec<u8>) -> (r: Self)
        ensures
            r@.unsent == response_head(
                http_resp.code,
                http_resp.reason@,
                pair_views(http_resp.resp_headers@),
                http_resp.context.trace_id@,
                http_resp.keep_alive,
            ),
            r@.body_open == http_resp.resp_body is Some,
            r@.body_len == 0,
    {
        let mut buffer = buffer;
        http_resp.write_header(&mut buffer);
        Writer { http_resp, buffer, body_len: 0 }
    }

    /// Takes what the body channel held: a chunk goes behind the unsent
    /// bytes, a closed channel ends the body.
    pub fn take_chunk(&mut self, c: Polled<Vec<u8>>)
        ensures
            match c {
                Polled::Item(b) => final(self)@ == (WriterView {
                    unsent: old(self)@.unsent + b@,
                    body_len: if old(self)@.body_len + b@.len() <= usize::MAX {
                        old(self)@.body_len + b@.len()
                    } else {
                        usize::MAX as nat
                    },
                    ..old(self)@
                }),
                Polled::Empty => final(self)@ == old(self)@,
                Polled::Closed => final(self)@ == (WriterView { body_open: false, ..old(self)@ }),
            },
    {
        match c {
            Polled::Item(b) => {
                let n = b.len();
                let ghost b0 = self.buffer@;
                self.buffer.extend_from_slice(b.as_slice());
                assert(self.buffer@ == b0 + b@);
                if n <= usize::MAX - self.body_len {
                    self.body_len = self.body_len + n;
                } else {
                    self.body_len = usize::MAX;
                }
            },
            Polled::Empty => {},
            Polled::Closed => {
                self.http_resp.resp_body = None;
            },
        }
    }

    /// Polls the body channel once, if it is still open, and takes what it
    /// held.
    pub fn poll_body(&mut self)
        ensures
            !old(self)@.body_open ==> final(self)@ == old(self)@,
            final(self)@.unsent.len() >= old(self)@.unsent.len(),
            final(self)@.unsent.subrange(0, old(self)@.unsent.len() as int) == old(self)@.unsent,
    {
        let c = match &self.http_resp.resp_body {
            Some(rx) => try_recv(rx),
            None => Polled::Empty,
        };
        self.take_chunk(c);
        assert(final(self)@.unsent.subrange(0, old(self)@.unsent.len() as int) =~= old(self)@.unsent);
    }

    /// The bytes not yet written to the socket.
    pub fn unsent(&self) -> (r: &[u8])
        ensures
            r@ == self@.unsent,
    {
        self.buffer.as_slice()
    }

    /// Records that the first `written` unsent bytes went to the socket. The
    /// response is done when nothing is left to send and the body is closed;
    /// it then records the body length it sent.
    pub fn write_tcp_stream(self, written: usize) -> (r: State)
        requires
            written <= self@.unsent.len(),
        ensures
            ({
                let rest = self@.unsent.subrange(written as int, self@.unsent.len() as int);
                if rest.len() == 0 && !self@.body_open {
                    r matches State::Done(resp) && resp.resp_content_length == Some(self@.body_len as usize)
                        && resp.resp_body is None
                } else {
                    r matches State::Partial(w) && w@ == (WriterView { unsent: rest, ..self@ })
                }
            }),
    {
        let mut w = self;
        let rest = w.buffer.split_off(written);
        w.buffer = rest;
        if w.buffer.len() == 0 && w.http_resp.resp_body.is_none() {
            let mut resp = w.http_resp;
            resp.resp_content_length = Some(w.body_len);
            State::Done(resp)
        } else {
            State::Partial(w)
        }
    }
}

} // verus!
