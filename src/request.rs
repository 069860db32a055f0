//! Reading an HTTP/1.1 request from a socket: the head through httparse, the
//! rules that turn it into a request, and a `Content-Length` body.
use crate::http::{is_hex_id, parse_context, string_from_utf8, valid_traceparent, Context, HttpError, HttpRequest};
use vstd::prelude::*;
use vstd::slice::slice_to_vec;
use vstd::string::*;
use vstd::utf8::{decode_utf8, encode_utf8, valid_utf8};

verus! {

#[verifier::external_type_specification]
#[verifier::external_body]
pub struct ExParseError(httparse::Error);

/// What httparse made of the bytes received so far.
pub enum Head {
    Partial,
    Complete(ParsedHead),
    Invalid(httparse::Error),
}

/// A complete request head: its size in bytes, the method and target of the
/// request line, and the header fields in order.
pub struct ParsedHead {
    pub size: usize,
    pub method: String,
    pub path: String,
    pub headers: Vec<(String, Vec<u8>)>,
}

/// The value of a `Head`.
pub enum HeadView {
    Partial,
    Complete { size: nat, method: Seq<char>, path: Seq<char>, headers: Seq<(Seq<char>, Seq<u8>)> },
    Invalid,
}

impl View for Head {
    type V = HeadView;

    open spec fn view(&self) -> HeadView {
        match self {
            Head::Partial => HeadView::Partial,
            Head::Complete(h) => HeadView::Complete {
                size: h.size as nat,
                method: h.method@,
                path: h.path@,
                headers: head_views(h.headers@),
            },
            Head::Invalid(_) => HeadView::Invalid,
        }
    }
}

/// What httparse's `Request::parse` makes of `buf`, with room for 24 header
/// fields.
pub uninterp spec fn parsed_head(buf: Seq<u8>) -> HeadView;

/// Relies on httparse::Request::parse: a partial head, a complete head of
/// `size <= buf.len()` bytes with its method, target and fields, or an error.
#[verifier::external_body]
fn parse_head(buf: &[u8]) -> (r: Head)
    ensures
        r@ == parsed_head(buf@),
        r@ matches HeadView::Complete { size, .. } ==> size <= buf@.len(),
{
    let mut headers = [httparse::EMPTY_HEADER; 24];
    let mut req = httparse::Request::new(&mut headers);
    match req.parse(buf) {
        Ok(httparse::Status::Partial) => Head::Partial,
        Err(e) => Head::Invalid(e),
        Ok(httparse::Status::Complete(size)) => Head::Complete(ParsedHead {
            size,
            method: req.method.unwrap_or_default().to_string(),
            path: req.path.unwrap_or_default().to_string(),
            headers: req.headers.iter().map(|h| (h.name.to_string(), h.value.to_vec())).collect(),
        }),
    }
}

/// The ASCII upper case of a text.
pub open spec fn ascii_upper(m: Seq<char>) -> Seq<char> {
    m.map_values(|c: char| if 'a' <= c <= 'z' {
        ((c as u32) - 32) as char
    } else {
        c
    })
}

/// The method names http-types knows.
pub open spec fn method_names() -> Seq<Seq<char>> {
    seq![
        "ACL"@,
        "BASELINE-CONTROL"@,
        "BIND"@,
        "CHECKIN"@,
        "CHECKOUT"@,
        "CONNECT"@,
        "COPY"@,
        "DELETE"@,
        "GET"@,
        "HEAD"@,
        "LABEL"@,
        "LINK"@,
        "LOCK"@,
        "MERGE"@,
        "MKACTIVITY"@,
        "MKCALENDAR"@,
        "MKCOL"@,
        "MKREDIRECTREF"@,
        "MKWORKSPACE"@,
        "MOVE"@,
        "OPTIONS"@,
        "ORDERPATCH"@,
        "PATCH"@,
        "POST"@,
        "PRI"@,
        "PROPFIND"@,
        "PROPPATCH"@,
        "PUT"@,
        "REBIND"@,
        "REPORT"@,
        "SEARCH"@,
        "TRACE"@,
        "UNBIND"@,
        "UNCHECKOUT"@,
        "UNLINK"@,
        "UNLOCK"@,
        "UPDATE"@,
        "UPDATEREDIRECTREF"@,
        "VERSION-CONTROL"@,
    ]
}

/// Whether http-types knows `m` as a request method: its ASCII upper case is
/// one of the names it lists.
pub open spec fn method_known(m: Seq<char>) -> bool {
    method_names().contains(ascii_upper(m))
}

/// Relies on http_types::Method's `FromStr`: it upper-cases the text (ASCII
/// letters only) and succeeds exactly on the names of its list.
#[verifier::external_body]
fn parse_method(m: &str) -> (r: Option<http_types::Method>)
    ensures
        r is Some <==> method_known(m@),
{
    m.parse::<http_types::Method>().ok()
}

/// Whether http-types (the url crate) accepts `s` as an absolute URL.
pub uninterp spec fn url_parses(s: Seq<char>) -> bool;

/// Relies on http_types::Url::parse: it succeeds exactly on the URLs it
/// accepts.
#[verifier::external_body]
fn parse_url(s: &str) -> (r: Option<http_types::Url>)
    ensures
        r is Some <==> url_parses(s@),
{
    http_types::Url::parse(s).ok()
}

/// The ASCII lower case of a byte.
pub open spec fn lower(c: u8) -> u8 {
    if 65 <= c <= 90 {
        (c + 32) as u8
    } else {
        c
    }
}

/// Equality of byte strings up to ASCII case.
pub open spec fn eq_ci(a: Seq<u8>, b: Seq<u8>) -> bool {
    a.len() == b.len() && forall|i: int| 0 <= i < a.len() ==> lower(#[trigger] a[i]) == lower(b[i])
}

pub fn eq_ignore_ascii_case(a: &[u8], b: &[u8]) -> (r: bool)
    ensures
        r == eq_ci(a@, b@),
{
    if a.len() != b.len() {
        return false;
    }
    let mut i: usize = 0;
    while i < a.len()
        invariant
            a@.len() == b@.len(),
            i <= a@.len(),
            forall|j: int| 0 <= j < i ==> lower(#[trigger] a@[j]) == lower(b@[j]),
        decreases a@.len() - i,
    {
        let x = a[i];
        let y = b[i];
        let lx = if 65 <= x && x <= 90 { x + 32 } else { x };
        let ly = if 65 <= y && y <= 90 { y + 32 } else { y };
        if lx != ly {
            return false;
        }
        i = i + 1;
    }
    true
}

pub open spec fn has_prefix(a: Seq<u8>, p: Seq<u8>) -> bool {
    p.len() <= a.len() && a.subrange(0, p.len() as int) == p
}

fn starts_with(a: &[u8], p: &[u8]) -> (r: bool)
    ensures
        r == has_prefix(a@, p@),
{
    if p.len() > a.len() {
        return false;
    }
    let mut i: usize = 0;
    while i < p.len()
        invariant
            p@.len() <= a@.len(),
            i <= p@.len(),
            forall|j: int| 0 <= j < i ==> a@[j] == p@[j],
        decreases p@.len() - i,
    {
        if a[i] != p[i] {
            assert(a@.subrange(0, p@.len() as int)[i as int] != p@[i as int]);
            return false;
        }
        i = i + 1;
    }
    assert(a@.subrange(0, p@.len() as int) =~= p@);
    true
}

pub open spec fn is_digit(c: u8) -> bool {
    48 <= c <= 57
}

pub open spec fn all_digits(d: Seq<u8>) -> bool {
    forall|i: int| 0 <= i < d.len() ==> is_digit(#[trigger] d[i])
}

/// The text after an optional leading `+`.
pub open spec fn unsigned_digits(b: Seq<u8>) -> Seq<u8> {
    if b.len() > 0 && b[0] == 43 {
        b.drop_first()
    } else {
        b
    }
}

/// The number that the ASCII digits `d` spell.
pub open spec fn digits_value(d: Seq<u8>) -> nat
    decreases d.len(),
{
    if d.len() == 0 {
        0
    } else {
        digits_value(d.drop_last()) * 10 + (d.last() - 48) as nat
    }
}

/// What `usize::from_str` makes of the text `b`: an optional `+`, then one or
/// more ASCII digits whose value fits a `usize`.
pub open spec fn usize_text(b: Seq<u8>) -> Option<nat> {
    let d = unsigned_digits(b);
    if d.len() == 0 || !all_digits(d) {
        None
    } else if digits_value(d) > usize::MAX {
        None
    } else {
        Some(digits_value(d))
    }
}

pub fn parse_usize(b: &[u8]) -> (r: Option<usize>)
    ensures
        match usize_text(b@) {
            Some(n) => r == Some(n as usize),
            None => r is None,
        },
{
    let start: usize = if b.len() > 0 && b[0] == 43 { 1 } else { 0 };
    let ghost d = unsigned_digits(b@);
    assert(d =~= b@.subrange(start as int, b@.len() as int));
    if start == b.len() {
        return None;
    }
    let mut value: usize = 0;
    let mut overflow = false;
    let mut i: usize = start;
    while i < b.len()
        invariant
            start <= i <= b@.len(),
            d == b@.subrange(start as int, b@.len() as int),
            d == unsigned_digits(b@),
            forall|j: int| start <= j < i ==> is_digit(#[trigger] b@[j]),
            !overflow ==> value == digits_value(b@.subrange(start as int, i as int)),
            overflow ==> digits_value(b@.subrange(start as int, i as int)) > usize::MAX,
        decreases b@.len() - i,
    {
        let c = b[i];
        if c < 48 || c > 57 {
            assert(d[i - start] == c);
            assert(!all_digits(d));
            return None;
        }
        let ghost prev = b@.subrange(start as int, i as int);
        assert(b@.subrange(start as int, i + 1).drop_last() =~= prev);
        let digit = (c - 48) as usize;
        if !overflow {
            if value > (usize::MAX - digit) / 10 {
                overflow = true;
            } else {
                value = value * 10 + digit;
            }
        }
        i = i + 1;
    }
    assert(b@.subrange(start as int, b@.len() as int) == d);
    assert forall|j: int| 0 <= j < d.len() implies is_digit(#[trigger] d[j]) by {
        assert(d[j] == b@[start + j]);
    }
    assert(all_digits(d));
    if overflow {
        None
    } else {
        Some(value)
    }
}

/// Why a complete head does not make a request.
#[derive(Clone, Copy, PartialEq, Eq, Structural)]
pub enum Fault {
    Method,
    NotUtf8,
    ContentLength,
    MissingHost,
    AbsoluteUrl,
    Path,
}

pub open spec fn fault_text(f: Fault) -> Seq<char> {
    match f {
        Fault::Method => "http request with unrecognised method"@,
        Fault::NotUtf8 => "header value not utf8"@,
        Fault::ContentLength => "Content-Length not uint"@,
        Fault::MissingHost => "http request missing host header"@,
        Fault::AbsoluteUrl => "invalid http path"@,
        Fault::Path => "invalid path in http header"@,
    }
}

fn fault_message(f: Fault) -> (r: &'static str)
    ensures
        r@ == fault_text(f),
{
    match f {
        Fault::Method => "http request with unrecognised method",
        Fault::NotUtf8 => "header value not utf8",
        Fault::ContentLength => "Content-Length not uint",
        Fault::MissingHost => "http request missing host header",
        Fault::AbsoluteUrl => "invalid http path",
        Fault::Path => "invalid path in http header",
    }
}

/// What the header fields of a head say about the request.
pub struct HeadFacts {
    pub content_type: Option<Seq<char>>,
    pub content_length: nat,
    pub host: Option<Seq<char>>,
    /// The last well-formed `traceparent` value.
    pub trace: Option<Seq<u8>>,
    pub keep_alive: bool,
    pub headers: Seq<(Seq<char>, Seq<char>)>,
}

pub open spec fn no_facts() -> HeadFacts {
    HeadFacts {
        content_type: None,
        content_length: 0,
        host: None,
        trace: None,
        keep_alive: true,
        headers: seq![],
    }
}

pub open spec fn named(name: Seq<char>, n: &str) -> bool {
    eq_ci(encode_utf8(name), n.spec_bytes())
}

/// The facts after one more header field. A value must be UTF-8; the last
/// `Content-Type`, `Content-Length`, `Host` and well-formed `traceparent`
/// count; `Connection: close` ends keep-alive. Names and `close` are matched
/// without regard to ASCII case.
pub open spec fn add_field(f: HeadFacts, name: Seq<char>, v: Seq<u8>) -> Result<HeadFacts, Fault> {
    if !valid_utf8(v) {
        Err(Fault::NotUtf8)
    } else if named(name, "Content-Length") && usize_text(v) is None {
        Err(Fault::ContentLength)
    } else {
        Ok(
            HeadFacts {
                content_type: if named(name, "Content-Type") {
                    Some(decode_utf8(v))
                } else {
                    f.content_type
                },
                content_length: if named(name, "Content-Length") {
                    usize_text(v)->0
                } else {
                    f.content_length
                },
                host: if named(name, "Host") {
                    Some(decode_utf8(v))
                } else {
                    f.host
                },
                trace: if named(name, "Traceparent") && valid_traceparent(v) {
                    Some(v)
                } else {
                    f.trace
                },
                keep_alive: f.keep_alive && !(named(name, "Connection") && eq_ci(v, "Close".spec_bytes())),
                headers: f.headers.push((name, decode_utf8(v))),
            },
        )
    }
}

/// The facts of a list of header fields, or the fault of the first field that
/// has one.
pub open spec fn head_facts(hs: Seq<(Seq<char>, Seq<u8>)>) -> Result<HeadFacts, Fault>
    decreases hs.len(),
{
    if hs.len() == 0 {
        Ok(no_facts())
    } else {
        match head_facts(hs.drop_last()) {
            Err(e) => Err(e),
            Ok(f) => add_field(f, hs.last().0, hs.last().1),
        }
    }
}

pub open spec fn is_absolute(path: Seq<char>) -> bool {
    has_prefix(encode_utf8(path), "http://".spec_bytes()) || has_prefix(
        encode_utf8(path),
        "https://".spec_bytes(),
    )
}

/// The absolute URL of a request target: an absolute target as it is, an
/// origin-form target behind `http://` and the host.
pub open spec fn target_url(path: Seq<char>, host: Seq<char>) -> Option<Seq<char>> {
    if is_absolute(path) {
        Some(path)
    } else if has_prefix(encode_utf8(path), "/".spec_bytes()) {
        Some("http://"@ + host + path)
    } else {
        None
    }
}

/// What a complete head makes: the facts of its fields and the URL of the
/// request, or the first fault among method, fields, host and target.
pub open spec fn head_request(method: Seq<char>, path: Seq<char>, hs: Seq<(Seq<char>, Seq<u8>)>) -> Result<(HeadFacts, Seq<char>), Fault> {
    if !method_known(method) {
        Err(Fault::Method)
    } else {
        match head_facts(hs) {
            Err(e) => Err(e),
            Ok(f) => match f.host {
                None => Err(Fault::MissingHost),
                Some(host) => match target_url(path, host) {
                    None => Err(Fault::Path),
                    Some(u) => if url_parses(u) {
                        Ok((f, u))
                    } else if is_absolute(path) {
                        Err(Fault::AbsoluteUrl)
                    } else {
                        Err(Fault::Path)
                    },
                },
            },
        }
    }
}

/// Whether `ctx` is the context that the facts call for: the last
/// well-formed `traceparent` continued under a fresh span, or else a fresh
/// trace.
pub open spec fn context_of(ctx: Context, trace: Option<Seq<u8>>) -> bool {
    &&& is_hex_id(ctx.span_id@, 8)
    &&& match trace {
        Some(v) => {
            &&& ctx.trace_id@ == decode_utf8(v.subrange(3, 35))
            &&& ctx.parent_id matches Some(p) && p@ == decode_utf8(v.subrange(36, 52))
        },
        None => is_hex_id(ctx.trace_id@, 16) && ctx.parent_id is None,
    }
}

/// A request whose head has been read, while its body arrives.
pub struct PartialHttpReq {
    pub method: http_types::Method,
    pub headers: Vec<(String, String)>,
    pub url: http_types::Url,
    /// The text `url` was parsed from.
    pub url_text: String,
    pub content_type: Option<String>,
    pub content_length: usize,
    pub keep_alive: bool,
    pub body: Vec<u8>,
    pub context: Context,
}

pub open spec fn opt_view(o: Option<String>) -> Option<Seq<char>> {
    match o {
        Some(s) => Some(s@),
        None => None,
    }
}

pub open spec fn head_views(hs: Seq<(String, Vec<u8>)>) -> Seq<(Seq<char>, Seq<u8>)> {
    hs.map_values(|f: (String, Vec<u8>)| (f.0@, f.1@))
}

/// Whether a partial request carries what the facts of its head say.
pub open spec fn partial_matches(p: PartialHttpReq, f: HeadFacts, u: Seq<char>) -> bool {
    &&& p.url_text@ == u
    &&& opt_view(p.content_type) == f.content_type
    &&& p.content_length as nat == f.content_length
    &&& p.keep_alive == f.keep_alive
    &&& crate::encoder::pair_views(p.headers@) == f.headers
    &&& context_of(p.context, f.trace)
}

/// Whether a request carries what the facts of its head say, with `body`.
pub open spec fn request_matches(r: HttpRequest, f: HeadFacts, u: Seq<char>, body: Seq<u8>) -> bool {
    &&& r.url_text@ == u
    &&& opt_view(r.content_type) == f.content_type
    &&& r.content_length as nat == f.content_length
    &&& r.keep_alive == f.keep_alive
    &&& crate::encoder::pair_views(r.headers@) == f.headers
    &&& context_of(r.context, f.trace)
    &&& r.body matches Some(b) && b@ == body
}

proof fn lemma_facts_step(hs: Seq<(Seq<char>, Seq<u8>)>, i: int)
    requires
        0 <= i < hs.len(),
    ensures
        head_facts(hs.take(i + 1)) == match head_facts(hs.take(i)) {
            Err(e) => Err(e),
            Ok(f) => add_field(f, hs[i].0, hs[i].1),
        },
{
    assert(hs.take(i + 1).drop_last() =~= hs.take(i));
}

proof fn lemma_facts_err(hs: Seq<(Seq<char>, Seq<u8>)>, j: int, e: Fault)
    requires
        0 <= j <= hs.len(),
        head_facts(hs.take(j)) == Err::<HeadFacts, Fault>(e),
    ensures
        head_facts(hs) == Err::<HeadFacts, Fault>(e),
    decreases hs.len() - j,
{
    if j == hs.len() {
        assert(hs.take(j) =~= hs);
    } else {
        lemma_facts_step(hs, j);
        lemma_facts_err(hs, j + 1, e);
    }
}

impl PartialHttpReq {
    /// Reads a complete head into a request without its body.
    pub fn new(head: &ParsedHead) -> (r: Result<Self, HttpError>)
        ensures
            match head_request(head.method@, head.path@, head_views(head.headers@)) {
                Err(f) => r matches Err(HttpError::BadValue(m)) && m@ == fault_text(f),
                Ok((f, u)) => r matches Ok(p) && partial_matches(p, f, u) && p.body@.len() == 0,
            },
    {
        let method = match parse_method(head.method.as_str()) {
            Some(m) => m,
            None => {
                return Err(HttpError::BadValue(fault_message(Fault::Method)));
            },
        };
        let ghost hs = head_views(head.headers@);
        let mut headers: Vec<(String, String)> = Vec::new();
        let mut content_type: Option<String> = None;
        let mut host: Option<String> = None;
        let mut keep_alive = true;
        let mut content_length: usize = 0;
        let mut context: Option<Context> = None;
        let ghost mut trace: Option<Seq<u8>> = None;
        let mut i: usize = 0;
        assert(hs.take(0) =~= Seq::<(Seq<char>, Seq<u8>)>::empty());
        assert(crate::encoder::pair_views(headers@) =~= Seq::<(Seq<char>, Seq<char>)>::empty());
        while i < head.headers.len()
            invariant
                i <= head.headers@.len(),
                hs == head_views(head.headers@),
                method_known(head.method@),
                head_facts(hs.take(i as int)) == Ok::<HeadFacts, Fault>(HeadFacts {
                    content_type: opt_view(content_type),
                    content_length: content_length as nat,
                    host: opt_view(host),
                    trace,
                    keep_alive,
                    headers: crate::encoder::pair_views(headers@),
                }),
                match trace {
                    Some(v) => context matches Some(c) && context_of(c, Some(v)),
                    None => context is None,
                },
            decreases head.headers@.len() - i,
        {
            proof {
                lemma_facts_step(hs, i as int);
            }
            let name = &head.headers[i].0;
            let value = match string_from_utf8(head.headers[i].1.clone()) {
                Some(v) => v,
                None => {
                    proof {
                        lemma_facts_err(hs, i + 1, Fault::NotUtf8);
                    }
                    return Err(HttpError::BadValue(fault_message(Fault::NotUtf8)));
                },
            };
            let ghost v = head.headers@[i as int].1@;
            let nb = name.as_str().as_bytes();
            let vb = value.as_str().as_bytes();
            proof {
                vstd::utf8::decode_utf8_encode_utf8(v);
                assert(vb@ == v);
            }
            if eq_ignore_ascii_case(nb, "Content-Type".as_bytes()) {
                content_type = Some(value.clone());
            }
            if eq_ignore_ascii_case(nb, "Content-Length".as_bytes()) {
                match parse_usize(vb) {
                    Some(n) => {
                        content_length = n;
                    },
                    None => {
                        proof {
                            lemma_facts_err(hs, i + 1, Fault::ContentLength);
                        }
                        return Err(HttpError::BadValue(fault_message(Fault::ContentLength)));
                    },
                }
            }
            if eq_ignore_ascii_case(nb, "Host".as_bytes()) {
                host = Some(value.clone());
            }
            if eq_ignore_ascii_case(nb, "Traceparent".as_bytes()) {
                match parse_context(value.as_str()) {
                    Ok(ctx) => {
                        context = Some(ctx);
                        proof {
                            trace = Some(v);
                        }
                    },
                    Err(_) => {},
                }
            }
            if eq_ignore_ascii_case(nb, "Connection".as_bytes()) && eq_ignore_ascii_case(
                vb,
                "Close".as_bytes(),
            ) {
                keep_alive = false;
            }
            let ghost old_headers = headers@;
            headers.push((name.clone(), value));
            proof {
                assert(crate::encoder::pair_views(headers@) =~= crate::encoder::pair_views(old_headers).push((head.headers@[i as int].0@, decode_utf8(v))));
            }
            i = i + 1;
        }
        assert(hs.take(head.headers@.len() as int) =~= hs);
        let host = match host {
            Some(h) => h,
            None => {
                return Err(HttpError::BadValue(fault_message(Fault::MissingHost)));
            },
        };
        let context = match context {
            Some(c) => c,
            None => Context::new(),
        };
        let pb = head.path.as_str().as_bytes();
        let (url, url_text) = if starts_with(pb, "http://".as_bytes()) || starts_with(pb, "https://".as_bytes()) {
            match parse_url(head.path.as_str()) {
                Some(u) => (u, head.path.clone()),
                None => {
                    return Err(HttpError::BadValue(fault_message(Fault::AbsoluteUrl)));
                },
            }
        } else if starts_with(pb, "/".as_bytes()) {
            let mut full = String::from_str("http://");
            full.append(host.as_str());
            full.append(head.path.as_str());
            match parse_url(full.as_str()) {
                Some(u) => (u, full),
                None => {
                    return Err(HttpError::BadValue(fault_message(Fault::Path)));
                },
            }
        } else {
            return Err(HttpError::BadValue(fault_message(Fault::Path)));
        };
        Ok(
            PartialHttpReq {
                method,
                headers,
                url,
                url_text,
                content_type,
                content_length,
                keep_alive,
                body: Vec::new(),
                context,
            },
        )
    }

    pub fn into_request(self) -> (r: HttpRequest)
        ensures
            r.content_type == self.content_type,
            r.content_length == self.content_length,
            r.keep_alive == self.keep_alive,
            r.headers == self.headers,
            r.context == self.context,
            r.url_text == self.url_text,
            r.body == Some(self.body),
    {
        HttpRequest {
            method: self.method,
            url: self.url,
            url_text: self.url_text,
            headers: self.headers,
            context: self.context,
            keep_alive: self.keep_alive,
            content_type: self.content_type,
            content_length: self.content_length,
            body: Some(self.body),
        }
    }
}

enum InnerState {
    Begin(Vec<u8>),
    HaveHeader(Box<PartialHttpReq>),
}

/// Reads one request off a socket, from the bytes handed to it.
pub struct Reader {
    state: InnerState,
}

/// Where a `Reader` stands: collecting head bytes, or collecting the body of
/// a request whose head it has read.
pub enum ReaderView {
    Head(Seq<u8>),
    Body(PartialHttpReq),
}

/// What a read led to.
pub enum State {
    Partial(Reader),
    Complete(Box<HttpRequest>),
    StreamEOF,
}

/// The most bytes the body of `p` can still take.
pub open spec fn body_room(p: PartialHttpReq) -> int {
    p.content_length - p.body@.len()
}

impl View for Reader {
    type V = ReaderView;

    closed spec fn view(&self) -> ReaderView {
        match self.state {
            InnerState::Begin(b) => ReaderView::Head(b@),
            InnerState::HaveHeader(p) => ReaderView::Body(*p),
        }
    }
}

/// The outcome of a complete head, followed by `tail`, the body bytes that came
/// with it: a fault, too many body bytes, a finished request or one that waits
/// for more of its body.
pub open spec fn head_outcome(r: Result<State, HttpError>, method: Seq<char>, path: Seq<char>, hs: Seq<(Seq<char>, Seq<u8>)>, tail: Seq<u8>) -> bool {
    match head_request(method, path, hs) {
        Err(f) => r matches Err(HttpError::BadValue(m)) && m@ == fault_text(f),
        Ok((f, u)) => if tail.len() > f.content_length {
            r matches Err(HttpError::BadValue(m)) && m@ == "content-length too large"@
        } else if tail.len() == f.content_length {
            r matches Ok(State::Complete(req)) && request_matches(*req, f, u, tail)
        } else {
            r matches Ok(State::Partial(rd)) && rd@ matches ReaderView::Body(p) && partial_matches(p, f, u)
                && p.body@ == tail && body_room(p) > 0
        },
    }
}

/// What a read of `data` by a reader in state `rv` leads to; no data means
/// the peer closed the socket.
pub open spec fn read_outcome(rv: ReaderView, data: Seq<u8>, r: Result<State, HttpError>) -> bool {
    match rv {
            ReaderView::Head(buf) => {
                let all = buf + data;
                if data.len() == 0 {
                    r matches Ok(State::StreamEOF)
                } else {
                    match parsed_head(all) {
                        HeadView::Partial => r matches Ok(State::Partial(rd)) && rd@ == ReaderView::Head(all),
                        HeadView::Invalid => r matches Err(HttpError::HeaderParse(_)),
                        HeadView::Complete { size, method, path, headers } => head_outcome(
                            r,
                            method,
                            path,
                            headers,
                            all.subrange(size as int, all.len() as int),
                        ),
                    }
                }
            },
            ReaderView::Body(p) => {
                if data.len() == 0 {
                    r matches Err(HttpError::BadValue(m)) && m@ == "stream EOF without complete body"@
                } else if data.len() > body_room(p) {
                    r matches Err(HttpError::BadValue(m)) && m@ == "content-length too large"@
                } else if data.len() == body_room(p) {
                    r matches Ok(State::Complete(req)) && req.content_type == p.content_type
                        && req.content_length == p.content_length && req.keep_alive == p.keep_alive
                        && req.headers == p.headers && req.context == p.context && req.url_text == p.url_text && (req.body matches Some(b)
                        && b@ == p.body@ + data)
                } else {
                    r matches Ok(State::Partial(rd)) && rd@ matches ReaderView::Body(q) && q.body@ == p.body@ + data
                        && q.content_length == p.content_length && q.content_type == p.content_type
                        && q.keep_alive == p.keep_alive && q.headers == p.headers && q.context == p.context
                        && q.url_text == p.url_text
                }
            },
            }
}

impl Reader {
    pub fn new() -> (r: Self)
        ensures
            r@ == ReaderView::Head(seq![]),
    {
        Reader { state: InnerState::Begin(Vec::new()) }
    }

    /// How many bytes the next read may hand over.
    pub fn read_limit(&self) -> (r: usize)
        ensures
            match self@ {
                ReaderView::Body(p) => body_room(p) > 0 ==> r == body_room(p),
                ReaderView::Head(_) => r == 4096,
            },
    {
        match &self.state {
            InnerState::Begin(_) => 4096,
            InnerState::HaveHeader(p) => if p.body.len() < p.content_length {
                p.content_length - p.body.len()
            } else {
                0
            },
        }
    }

    /// Takes the bytes of one read from the socket; no bytes means the peer
    /// closed it. In the head, a close is a clean end; in the body it is a
    /// fault, as are more bytes than the body has room for.
    pub fn read_tcp_stream(self, data: &[u8]) -> (r: Result<State, HttpError>)
        ensures
            read_outcome(self@, data@, r),
    {
        let ghost s0 = self@;
        match self.state {
            InnerState::Begin(mut buf) => {
                if data.len() == 0 {
                    return Ok(State::StreamEOF);
                }
                let ghost b0 = buf@;
                assert(s0 == ReaderView::Head(b0));
                buf.extend_from_slice(data);
                assert(buf@ == b0 + data@);
                match parse_head(buf.as_slice()) {
                    Head::Partial => {
                        let rd = Reader { state: InnerState::Begin(buf) };
                        assert(rd@ == ReaderView::Head(b0 + data@));
                        Ok(State::Partial(rd))
                    },
                    Head::Invalid(e) => Err(HttpError::HeaderParse(e)),
                    Head::Complete(head) => {
                        let mut p = match PartialHttpReq::new(&head) {
                            Ok(p) => p,
                            Err(e) => {
                                return Err(e);
                            },
                        };
                        let tail = slice_to_vec(&buf.as_slice()[head.size..buf.len()]);
                        if tail.len() > p.content_length {
                            return Err(HttpError::BadValue("content-length too large"));
                        }
                        p.body = tail;
                        if p.body.len() == p.content_length {
                            Ok(State::Complete(Box::new(p.into_request())))
                        } else {
                            Ok(State::Partial(Reader { state: InnerState::HaveHeader(Box::new(p)) }))
                        }
                    },
                }
            },
            InnerState::HaveHeader(p) => {
                let mut p = *p;
                if data.len() == 0 {
                    return Err(HttpError::BadValue("stream EOF without complete body"));
                }
                if p.body.len() > p.content_length || data.len() > p.content_length - p.body.len() {
                    return Err(HttpError::BadValue("content-length too large"));
                }
                let ghost b0 = p.body@;
                p.body.extend_from_slice(data);
                assert(p.body@ == b0 + data@);
                if p.body.len() == p.content_length {
                    Ok(State::Complete(Box::new(p.into_request())))
                } else {
                    Ok(State::Partial(Reader { state: InnerState::HaveHeader(Box::new(p)) }))
                }
            },
        }
    }
}

/// What httparse's `Response::parse` reads from a status line: `None` when it
/// refuses the bytes, else the status code and reason it found.
pub uninterp spec fn parsed_status_line(b: Seq<u8>) -> Option<(Option<u16>, Option<Seq<char>>)>;

/// Relies on httparse::Response::parse with room for one header field: an
/// error, or the code and reason of the status line as far as it got.
#[verifier::external_body]
fn parse_status_line(b: &[u8]) -> (r: Option<(Option<u16>, Option<String>)>)
    ensures
        parsed_status_line(b@) == match r {
            None => None,
            Some((c, s)) => Some((c, opt_view(s))),
        },
{
    let mut headers = [httparse::EMPTY_HEADER; 1];
    let mut resp = httparse::Response::new(&mut headers);
    match resp.parse(b) {
        Err(_) => None,
        Ok(_) => Some((resp.code, resp.reason.map(|r| r.to_string()))),
    }
}

/// The status line `HTTP/1.1 <status>` that a status string stands for.
pub open spec fn status_line_of(status: Seq<u8>) -> Seq<u8> {
    "HTTP/1.1 ".spec_bytes() + status + "\r\n".spec_bytes()
}

/// Reads the status string an application gives, such as `200 OK`, into its
/// code and reason.
pub fn parse_status(status: &str) -> (r: Result<(u16, String), &'static str>)
    ensures
        match parsed_status_line(status_line_of(status.spec_bytes())) {
            None => r == Err::<(u16, String), &'static str>("status string given to start_response not valid"),
            Some((None, _)) => r == Err::<(u16, String), &'static str>("status string given to start response missing code"),
            Some((Some(_), None)) => r == Err::<(u16, String), &'static str>("status string given to start response not valid"),
            Some((Some(c), Some(reason))) => r matches Ok((code, rs)) && code == c && rs@ == reason,
        },
{
    let mut line: Vec<u8> = Vec::new();
    crate::encoder::push_str(&mut line, "HTTP/1.1 ");
    crate::encoder::push_str(&mut line, status);
    crate::encoder::push_str(&mut line, "\r\n");
    assert(line@ =~= status_line_of(status.spec_bytes()));
    match parse_status_line(line.as_slice()) {
        None => Err("status string given to start_response not valid"),
        Some((None, _)) => Err("status string given to start response missing code"),
        Some((Some(_), None)) => Err("status string given to start response not valid"),
        Some((Some(code), Some(reason))) => Ok((code, reason)),
    }
}

} // verus!
