//! The request body as the application reads it: `read`, `readline` and byte
//! iteration over a buffer with a read position.
use vstd::prelude::*;
use vstd::slice::slice_to_vec;

verus! {

pub struct WsgiInput {
    body: Vec<u8>,
    pos: usize,
}

/// The body and how much of it has been read.
pub struct WsgiInputView {
    pub body: Seq<u8>,
    pub pos: nat,
}

impl View for WsgiInput {
    type V = WsgiInputView;

    closed spec fn view(&self) -> WsgiInputView {
        WsgiInputView { body: self.body@, pos: self.pos as nat }
    }
}

/// Where the line that starts at `pos` ends: after its first `\n`, or at the
/// end of the body.
pub open spec fn line_end(body: Seq<u8>, pos: nat) -> nat
    decreases body.len() - pos,
{
    if pos >= body.len() {
        body.len()
    } else if body[pos as int] == 10 {
        pos + 1
    } else {
        line_end(body, pos + 1)
    }
}

impl WsgiInput {
    pub open spec fn wf(&self) -> bool {
        self@.pos <= self@.body.len()
    }

    pub fn new(body: Vec<u8>) -> (r: Self)
        ensures
            r.wf(),
            r@.body == body@,
            r@.pos == 0,
    {
        WsgiInput { body, pos: 0 }
    }

    /// Up to `size` unread bytes, or all of them when no size is given.
    pub fn read(&mut self, size: Option<usize>) -> (r: Vec<u8>)
        requires
            old(self).wf(),
        ensures
            final(self).wf(),
            final(self)@.body == old(self)@.body,
            ({
                let rest = (old(self)@.body.len() - old(self)@.pos) as nat;
                let n = match size {
                    Some(s) => if s < rest {
                        s as nat
                    } else {
                        rest
                    },
                    None => rest,
                };
                &&& r@ == old(self)@.body.subrange(old(self)@.pos as int, (old(self)@.pos + n) as int)
                &&& final(self)@.pos == old(self)@.pos + n
            }),
    {
        let remaining = self.body.len() - self.pos;
        let size = match size {
            Some(s) => if s < remaining {
                s
            } else {
                remaining
            },
            None => remaining,
        };
        let data = slice_to_vec(&self.body.as_slice()[self.pos..self.pos + size]);
        self.pos = self.pos + size;
        data
    }

    /// The unread bytes up to and including the next `\n`.
    pub fn readline(&mut self) -> (r: Vec<u8>)
        requires
            old(self).wf(),
        ensures
            final(self).wf(),
            final(self)@.body == old(self)@.body,
            final(self)@.pos == line_end(old(self)@.body, old(self)@.pos),
            r@ == old(self)@.body.subrange(old(self)@.pos as int, final(self)@.pos as int),
    {
        let mut end = self.pos;
        while end < self.body.len() && self.body[end] != 10
            invariant
                self.pos <= end <= self.body@.len(),
                self.body@ == old(self).body@,
                self.pos == old(self).pos,
                line_end(self.body@, self.pos as nat) == line_end(self.body@, end as nat),
            decreases self.body@.len() - end,
        {
            end = end + 1;
        }
        if end < self.body.len() {
            end = end + 1;
        }
        let data = slice_to_vec(&self.body.as_slice()[self.pos..end]);
        self.pos = end;
        data
    }

    /// The next unread byte.
    pub fn next_byte(&mut self) -> (r: Option<u8>)
        requires
            old(self).wf(),
        ensures
            final(self).wf(),
            final(self)@.body == old(self)@.body,
            old(self)@.pos == old(self)@.body.len() ==> r is None && final(self)@.pos == old(self)@.pos,
            old(self)@.pos < old(self)@.body.len() ==> r == Some(old(self)@.body[old(self)@.pos as int])
                && final(self)@.pos == old(self)@.pos + 1,
    {
        if self.pos == self.body.len() {
            return None;
        }
        let b = self.body[self.pos];
        self.pos = self.pos + 1;
        Some(b)
    }
}

} // verus!
