//! Control messages between the server and a worker, and their framing.
//!
//! Server to worker: `Dispatch` frames, a one-byte length followed by the
//! message body. Worker to server: `Complete` frames, a four-byte big-endian
//! length followed by the message body. Bodies are bincode encodings.
use vstd::bytes::{
    lemma_auto_spec_u32_to_from_le_bytes, lemma_auto_spec_u64_to_from_le_bytes,
    spec_u32_from_le_bytes, spec_u32_to_le_bytes, spec_u64_from_le_bytes, spec_u64_to_le_bytes,
};
use std::collections::{HashMap, VecDeque};
use vstd::prelude::*;
use vstd::utf8::{decode_utf8, encode_utf8, valid_utf8};

verus! {

/// The message the server sends to hand a socket to a worker. The socket itself
/// travels beside it as an ancillary file descriptor; `fd` is the server's own
/// number for it.
#[derive(Clone, Copy, Debug, PartialEq, Eq, Structural)]
pub struct Request {
    pub token: u64,
    pub fd: i32,
}

/// The message a worker sends when it is done with a socket.
pub struct Response {
    pub token: u64,
    pub fd: i32,
    pub keep_alive: bool,
    pub error: Option<String>,
}

/// The mathematical value of a `Response`.
pub struct ResponseView {
    pub token: u64,
    pub fd: i32,
    pub keep_alive: bool,
    pub error: Option<Seq<char>>,
}

impl View for Response {
    type V = ResponseView;

    open spec fn view(&self) -> ResponseView {
        ResponseView {
            token: self.token,
            fd: self.fd,
            keep_alive: self.keep_alive,
            error: match self.error {
                Some(s) => Some(s@),
                None => None,
            },
        }
    }
}

/// Whether the server may keep the socket of this response open.
pub open spec fn reusable(m: ResponseView) -> bool {
    m.keep_alive && m.error is None
}

/// The error text of a response is short enough for a frame's four-byte
/// length.
pub open spec fn error_fits(m: ResponseView) -> bool {
    match m.error {
        None => true,
        Some(s) => encode_utf8(s).len() <= 0xffff_0000,
    }
}

pub open spec fn le_i32(x: i32) -> Seq<u8> {
    spec_u32_to_le_bytes(#[verifier::truncate] (x as u32))
}

pub open spec fn le_bool(b: bool) -> u8 {
    if b {
        1
    } else {
        0
    }
}

/// The bincode body of a request: the token as eight little-endian bytes, then
/// the descriptor as four.
pub open spec fn request_body(token: u64, fd: i32) -> Seq<u8> {
    spec_u64_to_le_bytes(token) + le_i32(fd)
}

pub open spec fn request_of_body(b: Seq<u8>) -> Option<Request> {
    if b.len() >= 12 {
        Some(
            Request {
                token: spec_u64_from_le_bytes(b.subrange(0, 8)),
                fd: #[verifier::truncate] (spec_u32_from_le_bytes(b.subrange(8, 12)) as i32),
            },
        )
    } else {
        None
    }
}

/// The bincode body of a response: token, descriptor, keep-alive byte, then
/// the optional error as a tag byte and, when present, a little-endian
/// eight-byte length and the UTF-8 bytes.
pub open spec fn response_body(m: ResponseView) -> Seq<u8> {
    spec_u64_to_le_bytes(m.token) + le_i32(m.fd) + seq![le_bool(m.keep_alive)] + match m.error {
        None => seq![0u8],
        Some(s) => seq![1u8] + spec_u64_to_le_bytes(encode_utf8(s).len() as u64) + encode_utf8(
            s,
        ),
    }
}

pub open spec fn response_of_body(b: Seq<u8>) -> Option<ResponseView> {
    if b.len() < 14 || b[12] > 1 || b[13] > 1 {
        None
    } else {
        let token = spec_u64_from_le_bytes(b.subrange(0, 8));
        let fd = #[verifier::truncate] (spec_u32_from_le_bytes(b.subrange(8, 12)) as i32);
        let keep_alive = b[12] == 1;
        if b[13] == 0 {
            Some(ResponseView { token, fd, keep_alive, error: None })
        } else if b.len() < 22 {
            None
        } else {
            let n = spec_u64_from_le_bytes(b.subrange(14, 22));
            if n > b.len() - 22 {
                None
            } else {
                let s = b.subrange(22, 22 + n);
                if valid_utf8(s) {
                    Some(ResponseView { token, fd, keep_alive, error: Some(decode_utf8(s)) })
                } else {
                    None
                }
            }
        }
    }
}

/// Relies on bincode::serialize of a `(u64, i32)` pair: fixed-width
/// little-endian fields in order.
#[verifier::external_body]
fn serialize_request(token: u64, fd: i32) -> (r: Vec<u8>)
    ensures
        r@ == request_body(token, fd),
{
    bincode::serialize(&(token, fd)).unwrap_or_default()
}

/// Relies on bincode::deserialize of a `(u64, i32)` pair, which reads the first
/// twelve bytes and ignores any after them.
#[verifier::external_body]
fn deserialize_request(b: &[u8]) -> (r: Option<Request>)
    ensures
        r == request_of_body(b@),
{
    bincode::deserialize::<(u64, i32)>(b).ok().map(|(token, fd)| Request { token, fd })
}

/// Relies on bincode::serialize of a `(u64, i32, bool, Option<String>)` tuple.
#[verifier::external_body]
fn serialize_response(m: &Response) -> (r: Vec<u8>)
    ensures
        r@ == response_body(m@),
{
    bincode::serialize(&(m.token, m.fd, m.keep_alive, &m.error)).unwrap_or_default()
}

/// Relies on bincode::deserialize of a `(u64, i32, bool, Option<String>)`
/// tuple, which rejects a bool or tag byte above one and a string that is not
/// UTF-8, and ignores bytes after the value.
#[verifier::external_body]
fn deserialize_response(b: &[u8]) -> (r: Option<Response>)
    ensures
        match r {
            Some(m) => response_of_body(b@) == Some(m@),
            None => response_of_body(b@) is None,
        },
{
    bincode::deserialize::<(u64, i32, bool, Option<String>)>(b).ok().map(
        |(token, fd, keep_alive, error)| Response { token, fd, keep_alive, error },
    )
}

proof fn lemma_i32_bytes(x: i32)
    ensures
        le_i32(x).len() == 4,
        #[verifier::truncate] (spec_u32_from_le_bytes(le_i32(x)) as i32) == x,
{
    lemma_auto_spec_u32_to_from_le_bytes();
    let u: u32 = #[verifier::truncate] (x as u32);
    assert(spec_u32_to_le_bytes(u).len() == 4);
    assert(spec_u32_from_le_bytes(spec_u32_to_le_bytes(u)) == u);
    assert(le_i32(x) == spec_u32_to_le_bytes(u));
    assert((#[verifier::truncate] ((#[verifier::truncate] (x as u32)) as i32)) == x) by (bit_vector);
}

/// A request body decodes to the request it encodes.
pub proof fn lemma_request_body_round_trip(token: u64, fd: i32)
    ensures
        request_of_body(request_body(token, fd)) == Some(Request { token, fd }),
{
    lemma_auto_spec_u64_to_from_le_bytes();
    lemma_i32_bytes(fd);
    let b = request_body(token, fd);
    assert(b.subrange(0, 8) == spec_u64_to_le_bytes(token));
    assert(b.subrange(8, 12) == le_i32(fd));
}

/// A response body decodes to the response it encodes.
pub proof fn lemma_response_body_round_trip(m: ResponseView)
    requires
        error_fits(m),
    ensures
        response_of_body(response_body(m)) == Some(m),
{
    lemma_auto_spec_u64_to_from_le_bytes();
    lemma_i32_bytes(m.fd);
    let b = response_body(m);
    assert(b.subrange(0, 8) == spec_u64_to_le_bytes(m.token));
    assert(b.subrange(8, 12) == le_i32(m.fd));
    assert(b[12] == le_bool(m.keep_alive));
    match m.error {
        None => {},
        Some(s) => {
            let e = encode_utf8(s);
            let n = e.len() as u64;
            assert(b[13] == 1u8);
            assert(b.subrange(14, 22) == spec_u64_to_le_bytes(n));
            vstd::utf8::encode_utf8_valid_utf8(s);
            vstd::utf8::encode_utf8_decode_utf8(s);
            assert(b.subrange(22, 22 + n) == e);
        },
    }
}

/// Four bytes, most significant first.
pub open spec fn be32(n: nat) -> Seq<u8> {
    seq![(n / 0x100_0000) as u8, ((n / 0x1_0000) % 0x100) as u8, ((n / 0x100) % 0x100) as u8, (n % 0x100) as u8]
}

pub open spec fn be32_of(b: Seq<u8>) -> nat {
    (b[0] as nat) * 0x100_0000 + (b[1] as nat) * 0x1_0000 + (b[2] as nat) * 0x100 + (b[3] as nat)
}

/// The frame that carries a request: the body length in one byte, then the body.
pub open spec fn request_frame(m: Request) -> Seq<u8> {
    seq![12u8] + request_body(m.token, m.fd)
}

/// The frame that carries a response: the body length in four big-endian bytes,
/// then the body.
pub open spec fn response_frame(m: ResponseView) -> Seq<u8> {
    be32(response_body(m).len()) + response_body(m)
}

/// The requests that the complete frames at the start of `b` carry, and how
/// many bytes those frames take; `None` where a complete frame holds no
/// request.
pub open spec fn scan_requests(b: Seq<u8>) -> Option<(Seq<Request>, nat)>
    decreases b.len(),
{
    if b.len() == 0 || b.len() < 1 + b[0] {
        Some((seq![], 0))
    } else {
        let n = b[0] as int;
        match request_of_body(b.subrange(1, 1 + n)) {
            None => None,
            Some(m) => match scan_requests(b.subrange(1 + n, b.len() as int)) {
                None => None,
                Some((ms, k)) => Some((seq![m] + ms, (1 + n + k) as nat)),
            },
        }
    }
}

/// The responses that the complete frames at the start of `b` carry, and how
/// many bytes those frames take; `None` where a complete frame holds no
/// response.
pub open spec fn scan_responses(b: Seq<u8>) -> Option<(Seq<ResponseView>, nat)>
    decreases b.len(),
{
    if b.len() < 4 || b.len() < 4 + be32_of(b) {
        Some((seq![], 0))
    } else {
        let n = be32_of(b) as int;
        match response_of_body(b.subrange(4, 4 + n)) {
            None => None,
            Some(m) => match scan_responses(b.subrange(4 + n, b.len() as int)) {
                None => None,
                Some((ms, k)) => Some((seq![m] + ms, (4 + n + k) as nat)),
            },
        }
    }
}

/// The tokens of the responses whose socket the server keeps, in order.
pub open spec fn kept_tokens(ms: Seq<ResponseView>) -> Seq<u64>
    decreases ms.len(),
{
    if ms.len() == 0 {
        seq![]
    } else if reusable(ms[0]) {
        seq![ms[0].token] + kept_tokens(ms.drop_first())
    } else {
        kept_tokens(ms.drop_first())
    }
}

/// The tokens of the responses whose socket the server closes, in order.
pub open spec fn closed_tokens(ms: Seq<ResponseView>) -> Seq<u64>
    decreases ms.len(),
{
    if ms.len() == 0 {
        seq![]
    } else if !reusable(ms[0]) {
        seq![ms[0].token] + closed_tokens(ms.drop_first())
    } else {
        closed_tokens(ms.drop_first())
    }
}

/// The values of a sequence of responses.
pub open spec fn views(ms: Seq<Response>) -> Seq<ResponseView> {
    ms.map_values(|m: Response| m@)
}

/// A complete frame on the control stream held no valid message.
#[derive(Clone, Copy, Debug, PartialEq, Eq, Structural)]
pub struct CorruptFrame;

fn be32_value(b: &[u8]) -> (n: usize)
    requires
        b@.len() >= 4,
    ensures
        n == be32_of(b@),
{
    (b[0] as usize) * 0x100_0000 + (b[1] as usize) * 0x1_0000 + (b[2] as usize) * 0x100 + (b[3] as usize)
}

/// Splits the complete request frames at the start of `b` off.
fn take_request_frames(b: &[u8]) -> (r: Option<(Vec<Request>, usize)>)
    ensures
        match r {
            None => scan_requests(b@) is None,
            Some((ms, k)) => k <= b@.len() && scan_requests(b@) == Some((ms@, k as nat)),
        },
{
    let mut ms: Vec<Request> = Vec::new();
    let mut p: usize = 0;
    proof {
        assert(b@.subrange(0, b@.len() as int) == b@);
        assert forall|rest: Seq<Request>| ms@ + rest == rest by {
            assert(ms@ + rest =~= rest);
        }
    }
    while p < b.len() && b.len() - p >= 1 + b[p] as usize
        invariant
            p <= b@.len(),
            scan_requests(b@) == match scan_requests(b@.subrange(p as int, b@.len() as int)) {
                None => None,
                Some((rest, k)) => Some((ms@ + rest, (p + k) as nat)),
            },
        decreases b@.len() - p,
    {
        let tail = Ghost(b@.subrange(p as int, b@.len() as int));
        let n = b[p] as usize;
        let body = &b[p + 1..p + 1 + n];
        assert(body@ == tail@.subrange(1, 1 + n));
        assert(tail@.subrange(1 + n, tail@.len() as int) == b@.subrange(
            (p + 1 + n) as int,
            b@.len() as int,
        ));
        match deserialize_request(body) {
            None => {
                return None;
            },
            Some(m) => {
                proof {
                    assert(ms@.push(m) == ms@ + seq![m]);
                    assert forall|rest: Seq<Request>| (ms@ + (seq![m] + rest)) == ms@.push(m) + rest by {
                        assert((ms@ + (seq![m] + rest)) =~= ms@.push(m) + rest);
                    }
                }
                ms.push(m);
                p = p + 1 + n;
            },
        }
    }
    proof {
        let tail = b@.subrange(p as int, b@.len() as int);
        assert(scan_requests(tail) == Some((Seq::<Request>::empty(), 0nat)));
        assert(ms@ + Seq::<Request>::empty() == ms@);
    }
    Some((ms, p))
}

/// Splits the complete response frames at the start of `b` off.
fn take_response_frames(b: &[u8]) -> (r: Option<(Vec<Response>, usize)>)
    ensures
        match r {
            None => scan_responses(b@) is None,
            Some((ms, k)) => k <= b@.len() && scan_responses(b@) == Some((views(ms@), k as nat)),
        },
{
    let mut ms: Vec<Response> = Vec::new();
    let mut p: usize = 0;
    proof {
        assert(b@.subrange(0, b@.len() as int) == b@);
        assert(views(ms@) =~= Seq::<ResponseView>::empty());
        assert forall|rest: Seq<ResponseView>| #[trigger] (views(ms@) + rest) == rest by {
            assert(views(ms@) + rest =~= rest);
        }
    }
    while b.len() - p >= 4 && b.len() - p - 4 >= be32_value(&b[p..p + 4])
        invariant
            p <= b@.len(),
            scan_responses(b@) == match scan_responses(b@.subrange(p as int, b@.len() as int)) {
                None => None,
                Some((rest, k)) => Some((views(ms@) + rest, (p + k) as nat)),
            },
        decreases b@.len() - p,
    {
        let tail = Ghost(b@.subrange(p as int, b@.len() as int));
        let head = &b[p..p + 4];
        assert(head@ == tail@.subrange(0, 4));
        let n = be32_value(head);
        assert(n == be32_of(tail@));
        let body = &b[p + 4..p + 4 + n];
        assert(body@ == tail@.subrange(4, 4 + n));
        assert(tail@.subrange(4 + n, tail@.len() as int) == b@.subrange(
            (p + 4 + n) as int,
            b@.len() as int,
        ));
        match deserialize_response(body) {
            None => {
                return None;
            },
            Some(m) => {
                let ghost old_ms = ms@;
                ms.push(m);
                proof {
                    assert(views(ms@) =~= views(old_ms).push(m@));
                    assert forall|rest: Seq<ResponseView>|
                        (views(old_ms) + (seq![m@] + rest)) == views(ms@) + rest by {
                        assert((views(old_ms) + (seq![m@] + rest)) =~= views(ms@) + rest);
                    }
                }
                p = p + 4 + n;
            },
        }
    }
    proof {
        let tail = b@.subrange(p as int, b@.len() as int);
        assert(scan_responses(tail) == Some((Seq::<ResponseView>::empty(), 0nat)));
        assert(views(ms@) + Seq::<ResponseView>::empty() == views(ms@));
    }
    Some((ms, p))
}

fn push_request_frame(buf: &mut Vec<u8>, m: Request)
    ensures
        final(buf)@ == old(buf)@ + request_frame(m),
{
    proof {
        lemma_auto_spec_u64_to_from_le_bytes();
        lemma_auto_spec_u32_to_from_le_bytes();
        lemma_i32_bytes(m.fd);
    }
    let body = serialize_request(m.token, m.fd);
    buf.push(12u8);
    buf.extend_from_slice(body.as_slice());
    assert(final(buf)@ =~= old(buf)@ + request_frame(m));
}

/// Appends the frame of `m` where its body fits a four-byte length; reports
/// whether it did.
fn push_response_frame(buf: &mut Vec<u8>, m: &Response) -> (fits: bool)
    ensures
        fits == (response_body(m@).len() <= 0xffff_ffff),
        fits ==> final(buf)@ == old(buf)@ + response_frame(m@),
        !fits ==> final(buf)@ == old(buf)@,
{
    let body = serialize_response(m);
    let n = body.len();
    if n > 0xffff_ffff {
        return false;
    }
    buf.push((n / 0x100_0000) as u8);
    buf.push(((n / 0x1_0000) % 0x100) as u8);
    buf.push(((n / 0x100) % 0x100) as u8);
    buf.push((n % 0x100) as u8);
    buf.extend_from_slice(body.as_slice());
    assert(final(buf)@ =~= old(buf)@ + response_frame(m@));
    true
}

/// Drops the first `n` bytes of `buf`.
fn drop_front(buf: &mut Vec<u8>, n: usize)
    requires
        n <= old(buf)@.len(),
    ensures
        final(buf)@ == old(buf)@.subrange(n as int, old(buf)@.len() as int),
{
    let rest = buf.split_off(n);
    *buf = rest;
}

/// The server's end of the control stream to one worker.
pub struct ServerMsgBuffer {
    read_buffer: Vec<u8>,
    stream_tks: VecDeque<u64>,
    stream_close_tks: VecDeque<u64>,
    to_send: VecDeque<Request>,
    write_buffer: Vec<u8>,
}

/// The state of a `ServerMsgBuffer`.
pub struct ServerMsgBufferView {
    /// Bytes received that do not yet make a complete frame.
    pub read_buffer: Seq<u8>,
    /// Tokens whose sockets come back open, oldest first.
    pub kept: Seq<u64>,
    /// Tokens whose sockets are to be closed, oldest first.
    pub closed: Seq<u64>,
    /// Dispatches whose descriptor is not yet handed to the stream.
    pub to_send: Seq<Request>,
    /// Encoded frames not yet written to the stream.
    pub write_buffer: Seq<u8>,
}

impl View for ServerMsgBuffer {
    type V = ServerMsgBufferView;

    closed spec fn view(&self) -> ServerMsgBufferView {
        ServerMsgBufferView {
            read_buffer: self.read_buffer@,
            kept: self.stream_tks@,
            closed: self.stream_close_tks@,
            to_send: self.to_send@,
            write_buffer: self.write_buffer@,
        }
    }
}

impl ServerMsgBuffer {
    pub fn new() -> (r: Self)
        ensures
            r@.read_buffer.len() == 0,
            r@.kept.len() == 0,
            r@.closed.len() == 0,
            r@.to_send.len() == 0,
            r@.write_buffer.len() == 0,
    {
        ServerMsgBuffer {
            read_buffer: Vec::new(),
            stream_tks: VecDeque::new(),
            stream_close_tks: VecDeque::new(),
            to_send: VecDeque::new(),
            write_buffer: Vec::new(),
        }
    }

    /// Takes bytes read from the stream and decodes every complete frame in
    /// what has been received. On a frame that holds no response nothing
    /// changes and the stream is to be treated as broken.
    pub fn read_unix_stream(&mut self, data: &[u8]) -> (r: Result<(), CorruptFrame>)
        ensures
            match scan_responses(old(self)@.read_buffer + data@) {
                None => r is Err && final(self)@ == old(self)@,
                Some((ms, k)) => {
                    &&& r is Ok
                    &&& final(self)@.read_buffer == (old(self)@.read_buffer + data@).subrange(
                        k as int,
                        (old(self)@.read_buffer + data@).len() as int,
                    )
                    &&& final(self)@.kept == old(self)@.kept + kept_tokens(ms)
                    &&& final(self)@.closed == old(self)@.closed + closed_tokens(ms)
                    &&& final(self)@.to_send == old(self)@.to_send
                    &&& final(self)@.write_buffer == old(self)@.write_buffer
                },
            },
    {
        let mut all = self.read_buffer.clone();
        all.extend_from_slice(data);
        assert(all@ == old(self)@.read_buffer + data@);
        match take_response_frames(all.as_slice()) {
            None => Err(CorruptFrame),
            Some((ms, k)) => {
                let ghost all_ms = views(ms@);
                let mut i: usize = 0;
                while i < ms.len()
                    invariant
                        0 <= i <= ms@.len(),
                        all_ms == views(ms@),
                        self.stream_tks@ == old(self).stream_tks@ + kept_tokens(all_ms.take(i as int)),
                        self.stream_close_tks@ == old(self).stream_close_tks@ + closed_tokens(all_ms.take(i as int)),
                        self.to_send@ == old(self).to_send@,
                        self.write_buffer@ == old(self).write_buffer@,
                    decreases ms@.len() - i,
                {
                    let m = &ms[i];
                    proof {
                        lemma_tokens_push(all_ms.take(i as int), m@);
                        assert(all_ms.take(i as int).push(m@) == all_ms.take(i + 1));
                    }
                    if m.keep_alive && m.error.is_none() {
                        self.stream_tks.push_back(m.token);
                    } else {
                        self.stream_close_tks.push_back(m.token);
                    }
                    i = i + 1;
                }
                assert(all_ms.take(ms@.len() as int) == all_ms);
                drop_front(&mut all, k);
                self.read_buffer = all;
                Ok(())
            },
        }
    }

    /// The oldest token whose socket came back open.
    pub fn next_stream_tk(&mut self) -> (r: Option<u64>)
        ensures
            old(self)@.kept.len() == 0 ==> r is None && final(self)@ == old(self)@,
            old(self)@.kept.len() > 0 ==> {
                &&& r == Some(old(self)@.kept[0])
                &&& final(self)@ == (ServerMsgBufferView { kept: old(self)@.kept.drop_first(), ..old(self)@ })
            },
    {
        self.stream_tks.pop_front()
    }

    /// The oldest token whose socket is to be closed.
    pub fn next_stream_close_tk(&mut self) -> (r: Option<u64>)
        ensures
            old(self)@.closed.len() == 0 ==> r is None && final(self)@ == old(self)@,
            old(self)@.closed.len() > 0 ==> {
                &&& r == Some(old(self)@.closed[0])
                &&& final(self)@ == (ServerMsgBufferView { closed: old(self)@.closed.drop_first(), ..old(self)@ })
            },
    {
        self.stream_close_tks.pop_front()
    }

    /// Queues a dispatch of the socket `fd` under `tk`.
    pub fn req_tcp_stream_fd(&mut self, tk: u64, fd: i32)
        ensures
            final(self)@ == (ServerMsgBufferView {
                to_send: old(self)@.to_send.push(Request { token: tk, fd }),
                ..old(self)@
            }),
    {
        self.to_send.push_back(Request { token: tk, fd });
    }

    /// The descriptor of the oldest dispatch whose descriptor is not yet on the
    /// stream.
    pub fn next_fd_to_send(&self) -> (r: Option<i32>)
        ensures
            self@.to_send.len() == 0 ==> r is None,
            self@.to_send.len() > 0 ==> r == Some(self@.to_send[0].fd),
    {
        if self.to_send.len() == 0 {
            None
        } else {
            Some(self.to_send[0].fd)
        }
    }

    /// Records that the descriptor of the oldest queued dispatch went onto the
    /// stream, and encodes its message behind it.
    pub fn fd_sent(&mut self)
        requires
            old(self)@.to_send.len() > 0,
        ensures
            final(self)@ == (ServerMsgBufferView {
                to_send: old(self)@.to_send.drop_first(),
                write_buffer: old(self)@.write_buffer + request_frame(old(self)@.to_send[0]),
                ..old(self)@
            }),
    {
        let m = self.to_send.pop_front();
        if let Some(m) = m {
            push_request_frame(&mut self.write_buffer, m);
        }
    }

    /// The encoded bytes not yet written to the stream.
    pub fn unsent(&self) -> (r: &[u8])
        ensures
            r@ == self@.write_buffer,
    {
        self.write_buffer.as_slice()
    }

    /// Records that the first `written` unsent bytes were written to the stream.
    pub fn write_unix_stream(&mut self, written: usize)
        requires
            written <= old(self)@.write_buffer.len(),
        ensures
            final(self)@ == (ServerMsgBufferView {
                write_buffer: old(self)@.write_buffer.subrange(written as int, old(self)@.write_buffer.len() as int),
                ..old(self)@
            }),
    {
        drop_front(&mut self.write_buffer, written);
    }

    pub fn has_data_to_send(&self) -> (r: bool)
        ensures
            r == (self@.to_send.len() > 0 || self@.write_buffer.len() > 0),
    {
        self.to_send.len() > 0 || self.write_buffer.len() > 0
    }
}

spec fn token_if(b: bool, t: u64) -> Seq<u64> {
    if b {
        seq![t]
    } else {
        seq![]
    }
}

proof fn lemma_tokens_push(ms: Seq<ResponseView>, m: ResponseView)
    ensures
        kept_tokens(ms.push(m)) == kept_tokens(ms) + token_if(reusable(m), m.token),
        closed_tokens(ms.push(m)) == closed_tokens(ms) + token_if(!reusable(m), m.token),
    decreases ms.len(),
{
    if ms.len() == 0 {
        assert(ms.push(m).drop_first() == ms);
        assert(kept_tokens(ms.push(m)) =~= kept_tokens(ms) + token_if(reusable(m), m.token));
        assert(closed_tokens(ms.push(m)) =~= closed_tokens(ms) + token_if(!reusable(m), m.token));
    } else {
        lemma_tokens_push(ms.drop_first(), m);
        assert(ms.push(m).drop_first() == ms.drop_first().push(m));
        assert(kept_tokens(ms.push(m)) =~= kept_tokens(ms) + token_if(reusable(m), m.token));
        assert(closed_tokens(ms.push(m)) =~= closed_tokens(ms) + token_if(!reusable(m), m.token));
    }
}

broadcast use vstd::std_specs::hash::group_hash_axioms;

/// A worker's end of the control stream to the server.
pub struct WorkerMsgBuffer {
    read_buffer: Vec<u8>,
    write_buffer: Vec<u8>,
    server_fds: HashMap<u64, i32>,
    stream_fds: VecDeque<i32>,
    stream_msgs: VecDeque<Request>,
}

/// The state of a `WorkerMsgBuffer`.
pub struct WorkerMsgBufferView {
    /// Bytes received that do not yet make a complete frame.
    pub read_buffer: Seq<u8>,
    /// Encoded frames not yet written to the stream.
    pub write_buffer: Seq<u8>,
    /// For each socket the worker holds, the server's descriptor number.
    pub server_fds: Map<u64, i32>,
    /// Descriptors received and not yet paired with a dispatch.
    pub fds: Seq<i32>,
    /// Dispatches received and not yet paired with a descriptor.
    pub msgs: Seq<Request>,
}

impl View for WorkerMsgBuffer {
    type V = WorkerMsgBufferView;

    closed spec fn view(&self) -> WorkerMsgBufferView {
        WorkerMsgBufferView {
            read_buffer: self.read_buffer@,
            write_buffer: self.write_buffer@,
            server_fds: self.server_fds@,
            fds: self.stream_fds@,
            msgs: self.stream_msgs@,
        }
    }
}

/// The response a worker sends for `tk`, whose server descriptor is `fd`.
pub open spec fn completion(tk: u64, fd: i32, keep_alive: bool, error: Option<Seq<char>>) -> ResponseView {
    ResponseView { token: tk, fd, keep_alive, error }
}

impl WorkerMsgBuffer {
    pub fn new() -> (r: Self)
        ensures
            r@.read_buffer.len() == 0,
            r@.write_buffer.len() == 0,
            r@.server_fds.is_empty(),
            r@.fds.len() == 0,
            r@.msgs.len() == 0,
    {
        WorkerMsgBuffer {
            read_buffer: Vec::new(),
            write_buffer: Vec::new(),
            server_fds: HashMap::new(),
            stream_fds: VecDeque::new(),
            stream_msgs: VecDeque::new(),
        }
    }

    /// Takes bytes read from the stream and decodes every complete frame in
    /// what has been received. On a frame that holds no request nothing
    /// changes and the stream is to be treated as broken.
    pub fn read_unix_stream(&mut self, data: &[u8]) -> (r: Result<(), CorruptFrame>)
        ensures
            match scan_requests(old(self)@.read_buffer + data@) {
                None => r is Err && final(self)@ == old(self)@,
                Some((ms, k)) => {
                    &&& r is Ok
                    &&& final(self)@.read_buffer == (old(self)@.read_buffer + data@).subrange(
                        k as int,
                        (old(self)@.read_buffer + data@).len() as int,
                    )
                    &&& final(self)@.msgs == old(self)@.msgs + ms
                    &&& final(self)@.fds == old(self)@.fds
                    &&& final(self)@.server_fds == old(self)@.server_fds
                    &&& final(self)@.write_buffer == old(self)@.write_buffer
                },
            },
    {
        let mut all = self.read_buffer.clone();
        all.extend_from_slice(data);
        assert(all@ == old(self)@.read_buffer + data@);
        match take_request_frames(all.as_slice()) {
            None => Err(CorruptFrame),
            Some((ms, k)) => {
                let mut i: usize = 0;
                while i < ms.len()
                    invariant
                        0 <= i <= ms@.len(),
                        self.stream_msgs@ == old(self).stream_msgs@ + ms@.take(i as int),
                        self.stream_fds@ == old(self).stream_fds@,
                        self.server_fds@ == old(self).server_fds@,
                        self.write_buffer@ == old(self).write_buffer@,
                    decreases ms@.len() - i,
                {
                    self.stream_msgs.push_back(ms[i]);
                    assert(ms@.take(i as int).push(ms@[i as int]) == ms@.take(i + 1));
                    i = i + 1;
                }
                assert(ms@.take(ms@.len() as int) == ms@);
                drop_front(&mut all, k);
                self.read_buffer = all;
                Ok(())
            },
        }
    }

    /// Takes a descriptor that arrived on the stream.
    pub fn receive_fd(&mut self, fd: i32)
        ensures
            final(self)@ == (WorkerMsgBufferView { fds: old(self)@.fds.push(fd), ..old(self)@ }),
    {
        self.stream_fds.push_back(fd);
    }

    /// Pairs the oldest unpaired descriptor with the oldest unpaired dispatch,
    /// and remembers the server's descriptor number for its token.
    pub fn next_stream_fd(&mut self) -> (r: Option<(u64, i32)>)
        ensures
            (old(self)@.fds.len() == 0 || old(self)@.msgs.len() == 0) ==> r is None && final(self)@ == old(self)@,
            (old(self)@.fds.len() > 0 && old(self)@.msgs.len() > 0) ==> {
                let m = old(self)@.msgs[0];
                &&& r == Some((m.token, old(self)@.fds[0]))
                &&& final(self)@ == (WorkerMsgBufferView {
                    fds: old(self)@.fds.drop_first(),
                    msgs: old(self)@.msgs.drop_first(),
                    server_fds: old(self)@.server_fds.insert(m.token, m.fd),
                    ..old(self)@
                })
            },
    {
        if self.stream_fds.len() == 0 || self.stream_msgs.len() == 0 {
            return None;
        }
        let fd = self.stream_fds.pop_front();
        let msg = self.stream_msgs.pop_front();
        match (fd, msg) {
            (Some(fd), Some(msg)) => {
                self.server_fds.insert(msg.token, msg.fd);
                Some((msg.token, fd))
            },
            _ => None,
        }
    }

    /// Whether the worker holds the socket of `tk`.
    pub fn owns_token(&self, tk: u64) -> (r: bool)
        ensures
            r == self@.server_fds.contains_key(tk),
    {
        self.server_fds.contains_key(&tk)
    }

    pub fn has_data_to_send(&self) -> (r: bool)
        ensures
            r == (self@.write_buffer.len() > 0),
    {
        self.write_buffer.len() > 0
    }

    /// The encoded bytes not yet written to the stream.
    pub fn unsent(&self) -> (r: &[u8])
        ensures
            r@ == self@.write_buffer,
    {
        self.write_buffer.as_slice()
    }

    /// Records that the first `written` unsent bytes were written to the stream.
    pub fn write_unix_stream(&mut self, written: usize)
        requires
            written <= old(self)@.write_buffer.len(),
        ensures
            final(self)@ == (WorkerMsgBufferView {
                write_buffer: old(self)@.write_buffer.subrange(written as int, old(self)@.write_buffer.len() as int),
                ..old(self)@
            }),
    {
        drop_front(&mut self.write_buffer, written);
    }

    /// Gives the socket of `tk` back to the server: forgets it and encodes
    /// the response, unless its error text is too long for a frame.
    fn respond(&mut self, tk: u64, keep_alive: bool, error: Option<String>)
        requires
            old(self)@.server_fds.contains_key(tk),
        ensures
            ({
                let m = completion(tk, old(self)@.server_fds[tk], keep_alive, match error {
                    Some(s) => Some(s@),
                    None => None,
                });
                &&& final(self)@.server_fds == old(self)@.server_fds.remove(tk)
                &&& final(self)@.write_buffer == if response_body(m).len() <= 0xffff_ffff {
                    old(self)@.write_buffer + response_frame(m)
                } else {
                    old(self)@.write_buffer
                }
                &&& final(self)@.read_buffer == old(self)@.read_buffer
                &&& final(self)@.fds == old(self)@.fds
                &&& final(self)@.msgs == old(self)@.msgs
            }),
    {
        let fd = self.server_fds.remove(&tk);
        let fd = match fd {
            Some(fd) => fd,
            None => -1,
        };
        let resp = Response { token: tk, fd, keep_alive, error };
        push_response_frame(&mut self.write_buffer, &resp);
    }

    /// Gives the socket of `tk` back after an I/O error on it; the server
    /// closes it.
    pub fn resp_io_error(&mut self, tk: u64, err: &str)
        requires
            old(self)@.server_fds.contains_key(tk),
        ensures
            final(self)@ == respond_spec(old(self)@, tk, false, Some("i/o error with stream-"@ + err@)),
    {
        let mut e = String::from_str("i/o error with stream-");
        e.append(err);
        self.respond(tk, false, Some(e));
    }

    /// Gives the socket of `tk` back after a malformed request; the server
    /// closes it.
    pub fn resp_bad_client(&mut self, tk: u64)
        requires
            old(self)@.server_fds.contains_key(tk),
        ensures
            final(self)@ == respond_spec(old(self)@, tk, false, Some("badly formed client request"@)),
    {
        let e = String::from_str("badly formed client request");
        self.respond(tk, false, Some(e));
    }

    /// Gives the socket of `tk` back after it could not be registered for
    /// readiness; the server closes it.
    pub fn resp_stream_reg_error(&mut self, tk: u64, err: &str)
        requires
            old(self)@.server_fds.contains_key(tk),
        ensures
            final(self)@ == respond_spec(
                old(self)@,
                tk,
                false,
                Some("couldn't register stream with mio-"@ + err@),
            ),
    {
        let mut e = String::from_str("couldn't register stream with mio-");
        e.append(err);
        self.respond(tk, false, Some(e));
    }

    /// Gives the socket of `tk` back after its exchange finished; the server
    /// keeps it when `keep_alive` holds.
    pub fn resp_stream_done_ok(&mut self, tk: u64, keep_alive: bool)
        requires
            old(self)@.server_fds.contains_key(tk),
        ensures
            final(self)@ == respond_spec(old(self)@, tk, keep_alive, None),
    {
        self.respond(tk, keep_alive, None);
    }
}

/// The state after the socket of `tk` is given back with the given response
/// fields.
pub open spec fn respond_spec(
    s: WorkerMsgBufferView,
    tk: u64,
    keep_alive: bool,
    error: Option<Seq<char>>,
) -> WorkerMsgBufferView {
    let m = completion(tk, s.server_fds[tk], keep_alive, error);
    WorkerMsgBufferView {
        server_fds: s.server_fds.remove(tk),
        write_buffer: if response_body(m).len() <= 0xffff_ffff {
            s.write_buffer + response_frame(m)
        } else {
            s.write_buffer
        },
        ..s
    }
}

proof fn lemma_be32_round_trip(n: nat)
    requires
        n <= 0xffff_ffff,
    ensures
        be32(n).len() == 4,
        be32_of(be32(n)) == n,
{
    let b = be32(n);
    assert(b[0] as nat == n / 0x100_0000);
    assert(b[1] as nat == (n / 0x1_0000) % 0x100);
    assert(b[2] as nat == (n / 0x100) % 0x100);
    assert(b[3] as nat == n % 0x100);
    assert((n / 0x100_0000) * 0x100_0000 + ((n / 0x1_0000) % 0x100) * 0x1_0000 + ((n / 0x100) % 0x100)
        * 0x100 + n % 0x100 == n) by (nonlinear_arith)
        requires
            n <= 0xffff_ffff,
    ;
}

/// A request frame in front of further bytes decodes to its request, followed
/// by whatever those bytes decode to.
pub proof fn lemma_request_frame_round_trip(m: Request, rest: Seq<u8>)
    ensures
        scan_requests(request_frame(m) + rest) == match scan_requests(rest) {
            None => None,
            Some((ms, k)) => Some((seq![m] + ms, 13 + k)),
        },
{
    lemma_auto_spec_u64_to_from_le_bytes();
    lemma_i32_bytes(m.fd);
    lemma_request_body_round_trip(m.token, m.fd);
    let b = request_frame(m) + rest;
    assert(b[0] == 12u8);
    assert(b.subrange(1, 13) == request_body(m.token, m.fd));
    assert(b.subrange(13, b.len() as int) == rest);
}

/// A response frame in front of further bytes decodes to its response,
/// followed by whatever those bytes decode to.
pub proof fn lemma_response_frame_round_trip(m: ResponseView, rest: Seq<u8>)
    requires
        error_fits(m),
    ensures
        scan_responses(response_frame(m) + rest) == match scan_responses(rest) {
            None => None,
            Some((ms, k)) => Some((seq![m] + ms, 4 + response_body(m).len() + k)),
        },
{
    lemma_auto_spec_u64_to_from_le_bytes();
    lemma_i32_bytes(m.fd);
    lemma_response_body_round_trip(m);
    let body = response_body(m);
    let n = body.len() as int;
    assert(n <= 0xffff_ffff) by {
        match m.error {
            None => {},
            Some(s) => {},
        }
    }
    lemma_be32_round_trip(n as nat);
    let b = response_frame(m) + rest;
    assert(b.subrange(0, 4) == be32(n as nat));
    assert(be32_of(b) == be32_of(be32(n as nat)));
    assert(b.subrange(4, 4 + n) == body);
    assert(b.subrange(4 + n, b.len() as int) == rest);
}

/// A worker answers a dispatched socket once: the answer encodes one response
/// for its token, carrying the server's descriptor number, and afterwards the
/// worker no longer holds the token, so no second answer can follow until the
/// server dispatches the socket again.
pub proof fn lemma_single_completion(
    s: WorkerMsgBufferView,
    tk: u64,
    keep_alive: bool,
    error: Option<Seq<char>>,
)
    requires
        s.server_fds.contains_key(tk),
        error_fits(completion(tk, s.server_fds[tk], keep_alive, error)),
    ensures
        !respond_spec(s, tk, keep_alive, error).server_fds.contains_key(tk),
        respond_spec(s, tk, keep_alive, error).write_buffer == s.write_buffer + response_frame(
            completion(tk, s.server_fds[tk], keep_alive, error),
        ),
        scan_responses(response_frame(completion(tk, s.server_fds[tk], keep_alive, error)))
            == Some((seq![completion(tk, s.server_fds[tk], keep_alive, error)], response_frame(completion(tk, s.server_fds[tk], keep_alive, error)).len())),
{
    let m = completion(tk, s.server_fds[tk], keep_alive, error);
    lemma_auto_spec_u64_to_from_le_bytes();
    lemma_i32_bytes(m.fd);
    assert(response_body(m).len() <= 0xffff_ffff) by {
        match m.error {
            None => {},
            Some(e) => {},
        }
    }
    lemma_response_frame_round_trip(m, seq![]);
    assert(response_frame(m) + Seq::<u8>::empty() == response_frame(m));
    assert(scan_responses(Seq::<u8>::empty()) == Some((Seq::<ResponseView>::empty(), 0nat)));
    assert(seq![m] + Seq::<ResponseView>::empty() == seq![m]);
}

/// An answer that carries an error, or that does not keep the socket alive,
/// reaches the server as a close of its token and never as a socket to keep:
/// the server shuts the socket and does not dispatch it again.
pub proof fn lemma_failed_answer_closes(m: ResponseView, rest: Seq<u8>)
    requires
        error_fits(m),
        !reusable(m),
    ensures
        scan_responses(response_frame(m) + rest) matches Some((ms, _)) ==> {
            &&& ms[0] == m
            &&& kept_tokens(ms) == kept_tokens(ms.drop_first())
            &&& closed_tokens(ms) == seq![m.token] + closed_tokens(ms.drop_first())
        },
        scan_responses(response_frame(m)) matches Some((ms, _)) && kept_tokens(ms).len() == 0 && closed_tokens(ms)
            == seq![m.token],
{
    lemma_response_frame_round_trip(m, rest);
    lemma_response_frame_round_trip(m, seq![]);
    assert(response_frame(m) + Seq::<u8>::empty() == response_frame(m));
    assert(scan_responses(Seq::<u8>::empty()) == Some((Seq::<ResponseView>::empty(), 0nat)));
    let one = seq![m] + Seq::<ResponseView>::empty();
    assert(one.drop_first() =~= Seq::<ResponseView>::empty());
    assert(kept_tokens(Seq::<ResponseView>::empty()) == Seq::<u64>::empty());
    assert(closed_tokens(Seq::<ResponseView>::empty()) == Seq::<u64>::empty());
    assert(closed_tokens(one) =~= seq![m.token]);
    match scan_responses(rest) {
        None => {},
        Some((ms2, _)) => {
            assert((seq![m] + ms2).drop_first() =~= ms2);
        },
    }
}

/// Reading in parts changes nothing: the frames found in `x` followed by the
/// frames found in what is left of `x` with `y` behind it are the frames
/// found in `x + y`. A partial frame is kept until its bytes arrive.
pub proof fn lemma_response_scan_split(x: Seq<u8>, y: Seq<u8>)
    ensures
        match scan_responses(x) {
            None => scan_responses(x + y) is None,
            Some((ms, k)) => k <= x.len() && scan_responses(x + y) == match scan_responses(
                x.subrange(k as int, x.len() as int) + y,
            ) {
                None => None,
                Some((ms2, k2)) => Some((ms + ms2, k + k2)),
            },
        },
    decreases x.len(),
{
    let xy = x + y;
    if x.len() < 4 || x.len() < 4 + be32_of(x) {
        assert(x.subrange(0, x.len() as int) == x);
        match scan_responses(xy) {
            None => {},
            Some((ms2, k2)) => {
                assert(Seq::<ResponseView>::empty() + ms2 == ms2);
            },
        }
    } else {
        let n = be32_of(x) as int;
        assert(xy.subrange(0, 4) == x.subrange(0, 4));
        assert(be32_of(xy) == be32_of(x));
        assert(xy.subrange(4, 4 + n) == x.subrange(4, 4 + n));
        let x2 = x.subrange(4 + n, x.len() as int);
        assert(xy.subrange(4 + n, xy.len() as int) == x2 + y);
        lemma_response_scan_split(x2, y);
        match scan_responses(x2) {
            None => {},
            Some((ms, k)) => {
                assert(x.subrange((4 + n + k) as int, x.len() as int) == x2.subrange(k as int, x2.len() as int));
                match scan_responses(x2.subrange(k as int, x2.len() as int) + y) {
                    None => {},
                    Some((ms2, k2)) => {
                        let m = response_of_body(x.subrange(4, 4 + n))->0;
                        assert(seq![m] + (ms + ms2) == (seq![m] + ms) + ms2);
                    },
                }
            },
        }
    }
}

/// Reading dispatch frames in parts changes nothing, as for responses.
pub proof fn lemma_request_scan_split(x: Seq<u8>, y: Seq<u8>)
    ensures
        match scan_requests(x) {
            None => scan_requests(x + y) is None,
            Some((ms, k)) => k <= x.len() && scan_requests(x + y) == match scan_requests(
                x.subrange(k as int, x.len() as int) + y,
            ) {
                None => None,
                Some((ms2, k2)) => Some((ms + ms2, k + k2)),
            },
        },
    decreases x.len(),
{
    let xy = x + y;
    if x.len() == 0 || x.len() < 1 + x[0] {
        assert(x.subrange(0, x.len() as int) == x);
        match scan_requests(xy) {
            None => {},
            Some((ms2, k2)) => {
                assert(Seq::<Request>::empty() + ms2 == ms2);
            },
        }
    } else {
        let n = x[0] as int;
        assert(xy[0] == x[0]);
        assert(xy.subrange(1, 1 + n) == x.subrange(1, 1 + n));
        let x2 = x.subrange(1 + n, x.len() as int);
        assert(xy.subrange(1 + n, xy.len() as int) == x2 + y);
        lemma_request_scan_split(x2, y);
        match scan_requests(x2) {
            None => {},
            Some((ms, k)) => {
                assert(x.subrange((1 + n + k) as int, x.len() as int) == x2.subrange(k as int, x2.len() as int));
                match scan_requests(x2.subrange(k as int, x2.len() as int) + y) {
                    None => {},
                    Some((ms2, k2)) => {
                        let m = request_of_body(x.subrange(1, 1 + n))->0;
                        assert(seq![m] + (ms + ms2) == (seq![m] + ms) + ms2);
                    },
                }
            },
        }
    }
}

} // verus!
