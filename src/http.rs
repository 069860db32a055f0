//! Request context, response header serialization and the small value
//! formats they need.
use crate::encoder::{decimal, header_line, header_lines, pair_views, push_header_line, push_header_lines, push_str, push_decimal, status_line};
use crate::request::{eq_ci, is_digit, parse_usize, usize_text};
use random_fast_rng::{FastRng, Random};
use std::sync::mpsc::Receiver;
use vstd::prelude::*;
use vstd::slice::slice_to_vec;
use vstd::string::*;
use vstd::utf8::{decode_utf8, encode_utf8, is_char_boundary, valid_utf8};

verus! {

/// The lower-case hexadecimal digit of `d`, for `d < 16`.
pub open spec fn hex_digit(d: nat) -> char {
    if d < 10 {
        (48 + d) as char
    } else {
        (87 + d) as char
    }
}

/// Two lower-case hexadecimal digits for each byte, most significant first.
pub open spec fn hex_of(b: Seq<u8>) -> Seq<char>
    decreases b.len(),
{
    if b.len() == 0 {
        seq![]
    } else {
        hex_of(b.drop_last()) + seq![hex_digit(b.last() as nat / 16), hex_digit(b.last() as nat % 16)]
    }
}

/// Whether `s` is the hexadecimal text of some byte string of length `n`.
pub open spec fn is_hex_id(s: Seq<char>, n: nat) -> bool {
    exists|b: Seq<u8>| b.len() == n && s == hex_of(b)
}

/// Relies on hex::encode: two lower-case digits for each byte, in order.
#[verifier::external_body]
fn hex_encode(b: &[u8]) -> (r: String)
    ensures
        r@ == hex_of(b@),
{
    hex::encode(b)
}

/// Relies on random_fast_rng::FastRng, seeded from the clock, filling a
/// buffer; nothing is promised of the bytes.
#[verifier::external_body]
fn random_bytes(n: usize) -> (r: Vec<u8>)
    ensures
        r@.len() == n,
{
    let mut v = vec![0u8; n];
    FastRng::new().fill_bytes(&mut v);
    v
}

/// Relies on std::string::String::from_utf8: the bytes become a string
/// exactly when they are valid UTF-8.
#[verifier::external_body]
pub(crate) fn string_from_utf8(b: Vec<u8>) -> (r: Option<String>)
    ensures
        match r {
            Some(s) => valid_utf8(b@) && s@ == decode_utf8(b@),
            None => !valid_utf8(b@),
        },
{
    String::from_utf8(b).ok()
}

/// The tracing context of one request.
#[derive(Clone)]
pub struct Context {
    pub trace_id: String,
    pub span_id: String,
    pub parent_id: Option<String>,
}

impl Context {
    /// A fresh context: a random 16-byte trace id, a random 8-byte span id and
    /// no parent.
    pub fn new() -> (r: Self)
        ensures
            is_hex_id(r.trace_id@, 16),
            is_hex_id(r.span_id@, 8),
            r.parent_id is None,
    {
        let t = random_bytes(16);
        let s = random_bytes(8);
        let trace_id = hex_encode(t.as_slice());
        let span_id = hex_encode(s.as_slice());
        Context { trace_id, span_id, parent_id: None }
    }

    /// A context that continues the trace `trace_id` under the span
    /// `parent_id`, with a fresh random 8-byte span id.
    pub fn from_vals(trace_id: &str, parent_id: &str) -> (r: Self)
        ensures
            r.trace_id@ == trace_id@,
            is_hex_id(r.span_id@, 8),
            r.parent_id matches Some(p) && p@ == parent_id@,
    {
        let s = random_bytes(8);
        let span_id = hex_encode(s.as_slice());
        Context {
            trace_id: String::from_str(trace_id),
            span_id,
            parent_id: Some(String::from_str(parent_id)),
        }
    }

    pub fn parent_id_as_ref(&self) -> (r: Option<&str>)
        ensures
            match self.parent_id {
                Some(p) => r matches Some(q) && q@ == p@,
                None => r is None,
            },
    {
        match &self.parent_id {
            Some(p) => Some(p.as_str()),
            None => None,
        }
    }
}

pub open spec fn is_hex_byte(c: u8) -> bool {
    (48 <= c <= 57) || (97 <= c <= 102)
}

pub open spec fn all_hex(b: Seq<u8>) -> bool {
    forall|i: int| 0 <= i < b.len() ==> is_hex_byte(#[trigger] b[i])
}

/// A `traceparent` header value: `00-`, 32 lower-case hex digits for the
/// trace, `-`, 16 for the parent span, `-`, and two for the flags.
pub open spec fn valid_traceparent(b: Seq<u8>) -> bool {
    &&& b.len() == 55
    &&& b[0] == 48 && b[1] == 48 && b[2] == 45
    &&& all_hex(b.subrange(3, 35))
    &&& b[35] == 45
    &&& all_hex(b.subrange(36, 52))
    &&& b[52] == 45
    &&& all_hex(b.subrange(53, 55))
}

fn all_hex_in(b: &[u8], from: usize, to: usize) -> (r: bool)
    requires
        from <= to <= b@.len(),
    ensures
        r == all_hex(b@.subrange(from as int, to as int)),
{
    let mut i = from;
    while i < to
        invariant
            from <= i <= to <= b@.len(),
            all_hex(b@.subrange(from as int, i as int)),
        decreases to - i,
    {
        let c = b[i];
        if !((48 <= c && c <= 57) || (97 <= c && c <= 102)) {
            assert(b@.subrange(from as int, to as int)[i - from] == c);
            return false;
        }
        assert forall|j: int| 0 <= j < i + 1 - from implies is_hex_byte(
            #[trigger] b@.subrange(from as int, i + 1)[j],
        ) by {
            if j < i - from {
                assert(b@.subrange(from as int, i + 1)[j] == b@.subrange(from as int, i as int)[j]);
            }
        }
        i = i + 1;
    }
    true
}

/// Reads a `traceparent` header value into a context that continues its trace
/// with a fresh span.
pub fn parse_context(val: &str) -> (r: Result<Context, &'static str>)
    ensures
        r is Ok <==> valid_traceparent(val.spec_bytes()),
        r matches Ok(c) ==> {
            &&& c.trace_id@ == decode_utf8(val.spec_bytes().subrange(3, 35))
            &&& c.parent_id matches Some(p) && p@ == decode_utf8(val.spec_bytes().subrange(36, 52))
            &&& is_hex_id(c.span_id@, 8)
        },
{
    let b = val.as_bytes();
    if b.len() < 2 || b[0] != 48 || b[1] != 48 || (b.len() > 2 && b[2] != 45) {
        return Err("unsupported traceparent version");
    }
    if b.len() != 55 || b[35] != 45 || b[52] != 45 {
        return Err("badly formed traceparent header");
    }
    if !all_hex_in(b, 3, 35) {
        return Err("trace_id is not a hexstring");
    }
    if !all_hex_in(b, 36, 52) {
        return Err("parent_id is not a hexstring");
    }
    if !all_hex_in(b, 53, 55) {
        return Err("flags are not a hexstring");
    }
    proof {
        broadcast use vstd::utf8::group_utf8_lib;

        assert(valid_utf8(val.spec_bytes()));
        assert(b@.subrange(3, 35)[0] == b@[3]);
        assert(is_hex_byte(b@[3]));
        assert(b@.subrange(3, 35)[32 - 1] == b@[34]);
        vstd::utf8::is_char_boundary_iff_not_is_continuation_byte(val.spec_bytes(), 3);
        vstd::utf8::is_char_boundary_iff_not_is_continuation_byte(val.spec_bytes(), 35);
        vstd::utf8::is_char_boundary_iff_not_is_continuation_byte(val.spec_bytes(), 36);
        assert(b@.subrange(36, 52)[0] == b@[36]);
        assert(is_hex_byte(b@[36]));
        assert(is_char_boundary(val.spec_bytes(), 3));
        assert(is_char_boundary(val.spec_bytes(), 35));
        assert(is_char_boundary(val.spec_bytes(), 36));
        vstd::utf8::is_char_boundary_iff_not_is_continuation_byte(val.spec_bytes(), 52);
        assert(is_char_boundary(val.spec_bytes(), 52));
    }
    let (head, _) = val.split_at(52);
    proof {
        broadcast use vstd::utf8::group_utf8_lib;

        assert(valid_utf8(head.spec_bytes()));
        assert(head.spec_bytes()[35] == 45);
        assert(head.spec_bytes()[3] == b@[3]);
        assert(head.spec_bytes()[36] == b@[36]);
        vstd::utf8::is_char_boundary_iff_not_is_continuation_byte(head.spec_bytes(), 3);
        vstd::utf8::is_char_boundary_iff_not_is_continuation_byte(head.spec_bytes(), 35);
        vstd::utf8::is_char_boundary_iff_not_is_continuation_byte(head.spec_bytes(), 36);
        assert(is_char_boundary(head.spec_bytes(), 3));
        assert(is_char_boundary(head.spec_bytes(), 35));
        assert(is_char_boundary(head.spec_bytes(), 36));
    }
    let (front, parent) = head.split_at(36);
    proof {
        broadcast use vstd::utf8::group_utf8_lib;

        assert(valid_utf8(front.spec_bytes()));
        assert(front.spec_bytes()[3] == b@[3]);
        vstd::utf8::is_char_boundary_iff_not_is_continuation_byte(front.spec_bytes(), 3);
        vstd::utf8::is_char_boundary_iff_not_is_continuation_byte(front.spec_bytes(), 35);
        assert(is_char_boundary(front.spec_bytes(), 3));
        assert(is_char_boundary(front.spec_bytes(), 35));
    }
    let (front, _) = front.split_at(35);
    proof {
        broadcast use vstd::utf8::group_utf8_lib;

        assert(valid_utf8(front.spec_bytes()));
        assert(front.spec_bytes()[3] == b@[3]);
        vstd::utf8::is_char_boundary_iff_not_is_continuation_byte(front.spec_bytes(), 3);
        assert(is_char_boundary(front.spec_bytes(), 3));
    }
    let (_, trace) = front.split_at(3);
    proof {
        broadcast use vstd::utf8::group_utf8_lib;

        assert(trace.spec_bytes() == val.spec_bytes().subrange(3, 35));
        assert(parent.spec_bytes() == val.spec_bytes().subrange(36, 52));
        assert(decode_utf8(encode_utf8(trace@)) == trace@);
        assert(decode_utf8(encode_utf8(parent@)) == parent@);
    }
    Ok(Context::from_vals(trace, parent))
}

#[verifier::external_type_specification]
#[verifier::external_body]
pub struct ExMethod(http_types::Method);

#[verifier::external_type_specification]
#[verifier::external_body]
pub struct ExUrl(http_types::Url);

#[verifier::external_type_specification]
#[verifier::external_body]
pub struct ExIoError(std::io::Error);

#[verifier::external_type_specification]
#[verifier::external_body]
#[verifier::reject_recursive_types(T)]
pub struct ExReceiver<T>(std::sync::mpsc::Receiver<T>);

/// What a channel held when it was polled.
pub enum Polled<T> {
    Item(T),
    Empty,
    Closed,
}

/// Relies on std::sync::mpsc::Receiver::try_recv: an item, nothing yet, or a
/// channel whose senders are all gone; which one depends on other threads.
#[verifier::external_body]
pub(crate) fn try_recv<T>(rx: &Receiver<T>) -> (r: Polled<T>) {
    match rx.try_recv() {
        Ok(t) => Polled::Item(t),
        Err(std::sync::mpsc::TryRecvError::Empty) => Polled::Empty,
        Err(std::sync::mpsc::TryRecvError::Disconnected) => Polled::Closed,
    }
}

/// Why a socket's exchange failed.
pub enum HttpError {
    Io((&'static str, std::io::Error)),
    HeaderParse(httparse::Error),
    BadValue(&'static str),
}

/// A parsed request with its whole body.
pub struct HttpRequest {
    pub method: http_types::Method,
    pub url: http_types::Url,
    /// The text `url` was parsed from.
    pub url_text: String,
    pub headers: Vec<(String, String)>,
    pub context: Context,
    pub keep_alive: bool,
    pub content_type: Option<String>,
    pub content_length: usize,
    pub body: Option<Vec<u8>>,
}

/// The status and header fields that the application answered with.
pub struct HttpResponseHeader {
    pub code: u16,
    pub reason: String,
    pub headers: Vec<(String, String)>,
}

/// A response on its way to the socket, with what is logged of its request.
pub struct HttpResponse {
    pub method: http_types::Method,
    pub url: http_types::Url,
    pub code: u16,
    pub reason: String,
    pub context: Context,
    pub keep_alive: bool,
    pub req_headers: Vec<(String, String)>,
    pub req_content_length: usize,
    pub resp_headers: Vec<(String, String)>,
    pub resp_content_length: Option<usize>,
    pub resp_body: Option<Receiver<Vec<u8>>>,
}

/// The length that the last well-formed `Content-Length` field declares.
pub open spec fn declared_length(hs: Seq<(Seq<char>, Seq<char>)>) -> Option<nat>
    decreases hs.len(),
{
    if hs.len() == 0 {
        None
    } else {
        let (n, v) = hs.last();
        if eq_ci(encode_utf8(n), "Content-Length".spec_bytes()) && usize_text(encode_utf8(v)) is Some {
            usize_text(encode_utf8(v))
        } else {
            declared_length(hs.drop_last())
        }
    }
}

/// A response head: the status line, the application's fields, then
/// `X-TraceId`, `Connection` and `Server`, and a blank line.
pub open spec fn response_head(
    code: u16,
    reason: Seq<char>,
    hs: Seq<(Seq<char>, Seq<char>)>,
    trace_id: Seq<char>,
    keep_alive: bool,
) -> Seq<u8> {
    status_line(code, encode_utf8(reason)) + header_lines(hs) + header_line(
        "X-TraceId".spec_bytes(),
        encode_utf8(trace_id),
    ) + header_line(
        "Connection".spec_bytes(),
        if keep_alive {
            "Keep-Alive".spec_bytes()
        } else {
            "Close".spec_bytes()
        },
    ) + header_line("Server".spec_bytes(), "Casket".spec_bytes()) + "\r\n".spec_bytes()
}

impl HttpRequest {
    /// Joins a request with the application's answer to it.
    pub fn into_http_response(self, header: HttpResponseHeader, body: Receiver<Vec<u8>>) -> (r: HttpResponse)
        ensures
            r.code == header.code,
            r.reason@ == header.reason@,
            r.context == self.context,
            r.keep_alive == self.keep_alive,
            r.req_headers@ == self.headers@,
            r.req_content_length == self.content_length,
            r.resp_headers@ == header.headers@,
            match declared_length(pair_views(header.headers@)) {
                Some(n) => r.resp_content_length == Some(n as usize),
                None => r.resp_content_length is None,
            },
            r.resp_body is Some,
    {
        let mut resp_content_length: Option<usize> = None;
        let mut i: usize = 0;
        while i < header.headers.len()
            invariant
                i <= header.headers@.len(),
                match declared_length(pair_views(header.headers@.take(i as int))) {
                    Some(n) => resp_content_length == Some(n as usize),
                    None => resp_content_length is None,
                },
            decreases header.headers@.len() - i,
        {
            let name = header.headers[i].0.as_str();
            let value = header.headers[i].1.as_str();
            let is_len = crate::request::eq_ignore_ascii_case(name.as_bytes(), "Content-Length".as_bytes());
            proof {
                let pv = pair_views(header.headers@.take(i + 1));
                assert(pv.drop_last() =~= pair_views(header.headers@.take(i as int)));
                assert(pv.last() == (header.headers@[i as int].0@, header.headers@[i as int].1@));
            }
            if is_len {
                match parse_usize(value.as_bytes()) {
                    Some(n) => {
                        resp_content_length = Some(n);
                    },
                    None => {},
                }
            }
            i = i + 1;
        }
        assert(header.headers@.take(header.headers@.len() as int) =~= header.headers@);
        HttpResponse {
            method: self.method,
            url: self.url,
            code: header.code,
            reason: header.reason,
            context: self.context,
            keep_alive: self.keep_alive,
            req_headers: self.headers,
            req_content_length: self.content_length,
            resp_headers: header.headers,
            resp_content_length,
            resp_body: Some(body),
        }
    }
}

impl HttpResponse {
    /// Replaces the contents of `buf` with the response head.
    pub fn write_header(&self, buf: &mut Vec<u8>)
        ensures
            final(buf)@ == response_head(
                self.code,
                self.reason@,
                pair_views(self.resp_headers@),
                self.context.trace_id@,
                self.keep_alive,
            ),
    {
        buf.clear();
        push_str(buf, "HTTP/1.1 ");
        push_decimal(buf, self.code as u64);
        push_str(buf, " ");
        push_str(buf, self.reason.as_str());
        push_str(buf, "\r\n");
        push_header_lines(buf, &self.resp_headers);
        push_header_line(buf, "X-TraceId", self.context.trace_id.as_str());
        if self.keep_alive {
            push_header_line(buf, "Connection", "Keep-Alive");
        } else {
            push_header_line(buf, "Connection", "Close");
        }
        push_header_line(buf, "Server", "Casket");
        push_str(buf, "\r\n");
        assert(final(buf)@ =~= response_head(
            self.code,
            self.reason@,
            pair_views(self.resp_headers@),
            self.context.trace_id@,
            self.keep_alive,
        ));
    }
}

proof fn lemma_decimal_digits(n: nat)
    ensures
        forall|i: int| 0 <= i < decimal(n).len() ==> is_digit(#[trigger] decimal(n)[i]),
        decimal(n).len() > 0,
    decreases n,
{
    if n >= 10 {
        lemma_decimal_digits(n / 10);
        assert forall|i: int| 0 <= i < decimal(n).len() implies is_digit(#[trigger] decimal(n)[i]) by {
            if i < decimal(n / 10).len() {
                assert(decimal(n)[i] == decimal(n / 10)[i]);
            }
        }
    }
}

/// The decimal text of `n`.
pub fn decimal_string(n: u64) -> (r: String)
    ensures
        encode_utf8(r@) == decimal(n as nat),
{
    let mut b: Vec<u8> = Vec::new();
    push_decimal(&mut b, n);
    proof {
        lemma_decimal_digits(n as nat);
        assert(b@ == decimal(n as nat));
        assert(b@.subrange(0, 0) =~= Seq::<u8>::empty());
        assert(vstd::utf8::partial_valid_utf8(b@, 0));
        assert forall|i: int| 0 <= 0 <= i < b@.len() <= b@.len() implies #[trigger] vstd::utf8::is_leading_byte_width_1(b@[i]) by {
            assert(is_digit(decimal(n as nat)[i]));
        }
        vstd::utf8::partial_valid_utf8_extend_ascii_block(b@, 0, b@.len() as int);
        assert(b@.subrange(0, b@.len() as int) =~= b@);
    }
    let ghost bytes = b@;
    match string_from_utf8(b) {
        Some(s) => {
            proof {
                vstd::utf8::decode_utf8_encode_utf8(bytes);
            }
            s
        },
        None => String::new(),
    }
}

/// What became of an application that raised an exception: the formatted
/// traceback and the exception's value.
pub struct ExecError {
    pub traceback: String,
    pub value: String,
}

/// The 500 response for an application error: with the traceback as a
/// plain-text body and the value in `X-Error`, or with an empty body.
pub fn handle_wsgi_exec_err(body_stacktrace: bool, err: ExecError) -> (r: (HttpResponseHeader, Vec<u8>))
    ensures
        r.0.code == 500,
        r.0.reason@ == "Internal Server Error"@,
        body_stacktrace ==> {
            &&& r.1@ == encode_utf8(err.traceback@)
            &&& r.0.headers@.len() == 3
            &&& r.0.headers@[0].0@ == "Content-Length"@
            &&& encode_utf8(r.0.headers@[0].1@) == decimal(encode_utf8(err.traceback@).len())
            &&& r.0.headers@[1].0@ == "Content-Type"@
            &&& r.0.headers@[1].1@ == "text/plain; charset=UTF-8"@
            &&& r.0.headers@[2].0@ == "X-Error"@
            &&& r.0.headers@[2].1@ == err.value@
        },
        !body_stacktrace ==> {
            &&& r.1@.len() == 0
            &&& r.0.headers@.len() == 1
            &&& r.0.headers@[0].0@ == "Content-Length"@
            &&& r.0.headers@[0].1@ == "0"@
        },
{
    if body_stacktrace {
        let body = slice_to_vec(err.traceback.as_str().as_bytes());
        let len = decimal_string(body.len() as u64);
        let mut headers: Vec<(String, String)> = Vec::new();
        headers.push((String::from_str("Content-Length"), len));
        headers.push((String::from_str("Content-Type"), String::from_str("text/plain; charset=UTF-8")));
        headers.push((String::from_str("X-Error"), err.value));
        (HttpResponseHeader { code: 500, reason: String::from_str("Internal Server Error"), headers }, body)
    } else {
        let mut headers: Vec<(String, String)> = Vec::new();
        headers.push((String::from_str("Content-Length"), String::from_str("0")));
        (HttpResponseHeader { code: 500, reason: String::from_str("Internal Server Error"), headers }, Vec::new())
    }
}

} // verus!
