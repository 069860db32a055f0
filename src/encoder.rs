//! Serialization of response heads.
use vstd::prelude::*;
use vstd::string::StringSliceAdditionalSpecFns;
use vstd::utf8::encode_utf8;

verus! {

/// The decimal digits of `n`, most significant first, as ASCII bytes.
pub open spec fn decimal(n: nat) -> Seq<u8>
    decreases n,
{
    if n < 10 {
        seq![(48 + n) as u8]
    } else {
        decimal(n / 10) + seq![(48 + n % 10) as u8]
    }
}

/// `HTTP/1.1 <code> <reason>` and a line break.
pub open spec fn status_line(code: u16, reason: Seq<u8>) -> Seq<u8> {
    "HTTP/1.1 ".spec_bytes() + decimal(code as nat) + " ".spec_bytes() + reason + "\r\n".spec_bytes()
}

/// `<name>: <value>` and a line break.
pub open spec fn header_line(name: Seq<u8>, value: Seq<u8>) -> Seq<u8> {
    name + ": ".spec_bytes() + value + "\r\n".spec_bytes()
}

/// The header lines of `hs`, in order.
pub open spec fn header_lines(hs: Seq<(Seq<char>, Seq<char>)>) -> Seq<u8>
    decreases hs.len(),
{
    if hs.len() == 0 {
        seq![]
    } else {
        header_lines(hs.drop_last()) + header_line(encode_utf8(hs.last().0), encode_utf8(hs.last().1))
    }
}

/// The character sequences of a list of string pairs.
pub open spec fn pair_views(hs: Seq<(String, String)>) -> Seq<(Seq<char>, Seq<char>)> {
    hs.map_values(|h: (String, String)| (h.0@, h.1@))
}

pub(crate) fn push_str(buf: &mut Vec<u8>, s: &str)
    ensures
        final(buf)@ == old(buf)@ + s.spec_bytes(),
{
    buf.extend_from_slice(s.as_bytes());
}

pub(crate) fn push_decimal(buf: &mut Vec<u8>, n: u64)
    ensures
        final(buf)@ == old(buf)@ + decimal(n as nat),
    decreases n,
{
    if n >= 10 {
        push_decimal(buf, n / 10);
    }
    buf.push(48 + (n % 10) as u8);
    assert(final(buf)@ =~= old(buf)@ + decimal(n as nat));
}

pub(crate) fn push_header_line(buf: &mut Vec<u8>, name: &str, value: &str)
    ensures
        final(buf)@ == old(buf)@ + header_line(name.spec_bytes(), value.spec_bytes()),
{
    push_str(buf, name);
    push_str(buf, ": ");
    push_str(buf, value);
    push_str(buf, "\r\n");
    assert(final(buf)@ =~= old(buf)@ + header_line(name.spec_bytes(), value.spec_bytes()));
}

pub(crate) fn push_header_lines(buf: &mut Vec<u8>, hs: &Vec<(String, String)>)
    ensures
        final(buf)@ == old(buf)@ + header_lines(pair_views(hs@)),
{
    let mut i: usize = 0;
    while i < hs.len()
        invariant
            i <= hs@.len(),
            buf@ == old(buf)@ + header_lines(pair_views(hs@.take(i as int))),
        decreases hs@.len() - i,
    {
        let ghost before = buf@;
        push_header_line(buf, hs[i].0.as_str(), hs[i].1.as_str());
        proof {
            let pv = pair_views(hs@.take(i + 1));
            assert(pv.drop_last() =~= pair_views(hs@.take(i as int)));
            assert(pv.last() == (hs@[i as int].0@, hs@[i as int].1@));
            assert(buf@ =~= old(buf)@ + header_lines(pv));
        }
        i = i + 1;
    }
    assert(hs@.take(hs@.len() as int) =~= hs@);
}

/// Builds a response head: a status line, header lines, and the blank line
/// that ends the head.
pub struct ResponseEncoder {
    buffer: Vec<u8>,
}

impl View for ResponseEncoder {
    type V = Seq<u8>;

    closed spec fn view(&self) -> Seq<u8> {
        self.buffer@
    }
}

impl ResponseEncoder {
    pub fn new(code: u16, status: &str) -> (r: Self)
        ensures
            r@ == status_line(code, status.spec_bytes()),
    {
        let mut buffer: Vec<u8> = Vec::with_capacity(2048);
        push_str(&mut buffer, "HTTP/1.1 ");
        push_decimal(&mut buffer, code as u64);
        push_str(&mut buffer, " ");
        push_str(&mut buffer, status);
        push_str(&mut buffer, "\r\n");
        assert(buffer@ =~= status_line(code, status.spec_bytes()));
        ResponseEncoder { buffer }
    }

    pub fn write_header(&mut self, name: &str, value: &str)
        ensures
            final(self)@ == old(self)@ + header_line(name.spec_bytes(), value.spec_bytes()),
    {
        push_header_line(&mut self.buffer, name, value);
    }

    /// The finished head, with the blank line that ends it.
    pub fn into_buffer(self) -> (r: Vec<u8>)
        ensures
            r@ == self@ + "\r\n".spec_bytes(),
    {
        let mut buffer = self.buffer;
        push_str(&mut buffer, "\r\n");
        buffer
    }
}

} // verus!
