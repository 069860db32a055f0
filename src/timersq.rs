//! Deadlines per token: the latest deadline set for a token replaces the
//! earlier one, and the earliest deadline fires first.
use crate::events::Event;
use vstd::prelude::*;

verus! {

/// Timers keyed by token, each with a deadline in milliseconds and the event
/// it raises.
pub struct TimersQ {
    queue: Vec<(u64, u64, Event)>,
}

/// Whether the tokens of `q` are distinct.
pub open spec fn distinct_tokens(q: Seq<(u64, u64, Event)>) -> bool {
    forall|i: int, j: int| 0 <= i < j < q.len() ==> (#[trigger] q[i]).0 != (#[trigger] q[j]).0
}

/// Whether `i` is the timer with the earliest deadline, the first of equals.
pub open spec fn is_earliest(q: Seq<(u64, u64, Event)>, i: int) -> bool {
    &&& 0 <= i < q.len()
    &&& forall|j: int| 0 <= j < q.len() ==> q[i].1 <= (#[trigger] q[j]).1
}

impl View for TimersQ {
    type V = Seq<(u64, u64, Event)>;

    closed spec fn view(&self) -> Seq<(u64, u64, Event)> {
        self.queue@
    }
}

impl TimersQ {
    pub fn new() -> (r: Self)
        ensures
            r@.len() == 0,
    {
        TimersQ { queue: Vec::new() }
    }

    /// Removes the timer of `tk`, if there is one.
    pub fn cancel(&mut self, tk: u64)
        requires
            distinct_tokens(old(self)@),
        ensures
            distinct_tokens(final(self)@),
            final(self)@ == old(self)@.filter(|e: (u64, u64, Event)| e.0 != tk),
    {
        let mut kept: Vec<(u64, u64, Event)> = Vec::new();
        let mut i: usize = 0;
        while i < self.queue.len()
            invariant
                i <= self.queue@.len(),
                self.queue@ == old(self)@,
                kept@ == self.queue@.take(i as int).filter(|e: (u64, u64, Event)| e.0 != tk),
                forall|a: int| 0 <= a < kept@.len() ==> exists|b: int| 0 <= b < i && #[trigger] kept@[a] == self.queue@[b],
                distinct_tokens(kept@),
                distinct_tokens(self.queue@),
            decreases self.queue@.len() - i,
        {
            let e = self.queue[i];
            proof {
                assert(self.queue@.take(i + 1).drop_last() =~= self.queue@.take(i as int));
                reveal(Seq::filter);
                assert(self.queue@.take(i + 1).last() == e);
            }
            if e.0 != tk {
                let ghost k0 = kept@;
                kept.push(e);
                proof {
                    assert forall|a: int| 0 <= a < kept@.len() implies exists|b: int| 0 <= b < i + 1 && #[trigger] kept@[a] == self.queue@[b] by {
                        if a < k0.len() {
                            assert(k0[a] == kept@[a]);
                        } else {
                            assert(kept@[a] == self.queue@[i as int]);
                        }
                    }
                    assert forall|x: int, y: int| 0 <= x < y < kept@.len() implies (#[trigger] kept@[x]).0 != (#[trigger] kept@[y]).0 by {
                        if y == k0.len() {
                            assert(k0[x] == kept@[x]);
                            let b = choose|b: int| 0 <= b < i && k0[x] == self.queue@[b];
                            assert(self.queue@[b].0 != self.queue@[i as int].0);
                        } else {
                            assert(k0[x] == kept@[x] && k0[y] == kept@[y]);
                        }
                    }
                }
            }
            i = i + 1;
        }
        assert(self.queue@.take(self.queue@.len() as int) =~= self.queue@);
        self.queue = kept;
    }

    /// Sets the deadline of `tk`, replacing an earlier one.
    pub fn push_back(&mut self, tk: u64, deadline: u64, event: Event)
        requires
            distinct_tokens(old(self)@),
        ensures
            distinct_tokens(final(self)@),
            final(self)@ == old(self)@.filter(|e: (u64, u64, Event)| e.0 != tk).push((tk, deadline, event)),
    {
        self.cancel(tk);
        let ghost q0 = self.queue@;
        self.queue.push((tk, deadline, event));
        proof {
            assert forall|x: int| 0 <= x < q0.len() implies (#[trigger] q0[x]).0 != tk by {
                old(self)@.lemma_filter_pred(|e: (u64, u64, Event)| e.0 != tk, x);
            }
            assert forall|x: int, y: int| 0 <= x < y < self.queue@.len() implies (#[trigger] self.queue@[x]).0 != (#[trigger] self.queue@[y]).0 by {
                if y == q0.len() {
                    assert(self.queue@[x] == q0[x]);
                } else {
                    assert(self.queue@[x] == q0[x] && self.queue@[y] == q0[y]);
                }
            }
        }
    }

    /// The position of the timer with the earliest deadline.
    fn earliest(&self) -> (r: Option<usize>)
        ensures
            self@.len() == 0 <==> r is None,
            r matches Some(i) ==> is_earliest(self@, i as int),
    {
        if self.queue.len() == 0 {
            return None;
        }
        let mut best: usize = 0;
        let mut i: usize = 1;
        while i < self.queue.len()
            invariant
                1 <= i <= self.queue@.len(),
                best < i,
                forall|j: int| 0 <= j < i ==> self.queue@[best as int].1 <= (#[trigger] self.queue@[j]).1,
            decreases self.queue@.len() - i,
        {
            if self.queue[i].1 < self.queue[best].1 {
                best = i;
            }
            i = i + 1;
        }
        Some(best)
    }

    /// The timer with the earliest deadline.
    pub fn peek(&self) -> (r: Option<(u64, u64, Event)>)
        ensures
            self@.len() == 0 <==> r is None,
            r matches Some(e) ==> exists|i: int| is_earliest(self@, i) && self@[i] == e,
    {
        match self.earliest() {
            None => None,
            Some(i) => Some(self.queue[i]),
        }
    }

    /// Takes the timer with the earliest deadline if that deadline is not
    /// after `now`.
    pub fn next_timeout(&mut self, now: u64) -> (r: Option<(u64, Event)>)
        requires
            distinct_tokens(old(self)@),
        ensures
            distinct_tokens(final(self)@),
            r is None ==> final(self)@ == old(self)@ && forall|j: int| 0 <= j < old(self)@.len() ==> now < (#[trigger] old(self)@[j]).1,
            r matches Some((tk, ev)) ==> exists|i: int| {
                &&& is_earliest(old(self)@, i)
                &&& old(self)@[i].0 == tk && old(self)@[i].2 == ev && old(self)@[i].1 <= now
                &&& final(self)@ == old(self)@.remove(i)
            },
    {
        match self.earliest() {
            None => None,
            Some(i) => {
                let e = self.queue[i];
                if e.1 > now {
                    return None;
                }
                let ghost q0 = self.queue@;
                self.queue.remove(i);
                proof {
                    assert forall|x: int, y: int| 0 <= x < y < self.queue@.len() implies (#[trigger] self.queue@[x]).0 != (#[trigger] self.queue@[y]).0 by {
                        let xo = if x < i { x } else { x + 1 };
                        let yo = if y < i { y } else { y + 1 };
                        assert(self.queue@[x] == q0[xo] && self.queue@[y] == q0[yo]);
                    }
                    assert(is_earliest(q0, i as int));
                }
                Some((e.0, e.2))
            },
        }
    }
}

} // verus!
