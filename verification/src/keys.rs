//! The walker over the register table: which index to look up next, from either
//! end, and how many are left.

use vstd::prelude::*;

verus! {

/// The name of the register that holds the number of registers.
pub const KEY_COUNT: u32 = 0x234b_4559;

/// The indices `start..end`, in ascending order.
pub open spec fn span(start: int, end: int) -> Seq<u32> {
    Seq::new((end - start) as nat, |i: int| (start + i) as u32)
}

/// A walker over the indices of the register table that are still to be looked
/// up. It yields an index; the caller looks the register up and, where the lookup
/// fails, calls [`Keys::stop`], so that one failure ends the walk.
#[derive(Clone, Copy, Debug)]
pub struct Keys {
    len: u32,
    pos: u32,
}

impl Keys {
    #[verifier::type_invariant]
    closed spec fn ordered(self) -> bool {
        self.pos <= self.len
    }

    /// The first index that is left, or the end if none is.
    pub closed spec fn start(self) -> int {
        self.pos as int
    }

    /// The index behind the last one that is left.
    pub closed spec fn end(self) -> int {
        self.len as int
    }

    /// Whether the walker is in a state that it can be in: the start is not
    /// behind the end.
    pub open spec fn wf(self) -> bool {
        0 <= self.start() <= self.end() <= u32::MAX
    }

    /// The indices that are left, in ascending order.
    pub open spec fn remaining(self) -> Seq<u32> {
        span(self.start(), self.end())
    }

    /// A walker over a table of `len` registers.
    pub fn new(len: u32) -> (r: Self)
        ensures
            r.wf(),
            r.start() == 0,
            r.end() == len,
    {
        Keys { len, pos: 0 }
    }

    /// Yields the first index that is left and steps over it.
    pub fn next(&mut self) -> (r: Option<u32>)
        ensures
            old(self).wf(),
            final(self).wf(),
            final(self).end() == old(self).end(),
            old(self).start() == old(self).end() ==> r is None && final(self).start() == old(
                self,
            ).start(),
            old(self).start() < old(self).end() ==> r == Some(old(self).start() as u32)
                && final(self).start() == old(self).start() + 1,
    {
        proof {
            use_type_invariant(&*self);
        }
        if self.len > self.pos {
            let i: u32 = self.pos;
            self.pos = self.pos + 1;
            Some(i)
        } else {
            None
        }
    }

    /// Ends the walk: no index is left. Called when a lookup has failed.
    pub fn stop(&mut self)
        ensures
            final(self).wf(),
            final(self).end() == old(self).end(),
            final(self).start() == old(self).end(),
    {
        proof {
            use_type_invariant(&*self);
        }
        self.pos = self.len;
    }

    /// The number of indices that are left.
    pub fn len(&self) -> (r: usize)
        ensures
            self.wf(),
            r == self.end() - self.start(),
            r == self.remaining().len(),
    {
        proof {
            use_type_invariant(self);
        }
        (self.len - self.pos) as usize
    }

    /// The number of indices that are left, as a lower and an upper bound.
    pub fn size_hint(&self) -> (r: (usize, Option<usize>))
        ensures
            r.0 == self.remaining().len(),
            r.1 == Some(r.0),
    {
        let len: usize = self.len();
        (len, Some(len))
    }

    /// The number of indices that are left.
    pub fn count(self) -> (r: usize)
        ensures
            r == self.remaining().len(),
    {
        self.len()
    }

    /// Yields the last index that is left, if there is one.
    pub fn last(self) -> (r: Option<u32>)
        ensures
            self.start() == self.end() ==> r is None,
            self.start() < self.end() ==> r == Some((self.end() - 1) as u32),
    {
        proof {
            use_type_invariant(&self);
        }
        if self.len > self.pos {
            Some(self.len - 1)
        } else {
            None
        }
    }

    /// Steps over `n` indices and yields the one behind them. Where fewer than
    /// `n + 1` are left, none is left afterwards and nothing is yielded.
    pub fn nth(&mut self, n: usize) -> (r: Option<u32>)
        ensures
            old(self).wf(),
            final(self).wf(),
            final(self).end() == old(self).end(),
            n < old(self).end() - old(self).start() ==> r == Some((old(self).start() + n) as u32)
                && final(self).start() == old(self).start() + n + 1,
            n >= old(self).end() - old(self).start() ==> r is None && final(self).start() == old(
                self,
            ).end(),
    {
        proof {
            use_type_invariant(&*self);
        }
        if n > u32::MAX as usize {
            self.pos = self.len;
            return None;
        }
        self.pos = match self.pos.checked_add(n as u32) {
            Some(pos) => if pos < self.len {
                pos
            } else {
                self.len
            },
            None => self.len,
        };
        let r = self.next();
        r
    }

    /// Yields the last index that is left and steps back over it.
    pub fn next_back(&mut self) -> (r: Option<u32>)
        ensures
            old(self).wf(),
            final(self).wf(),
            final(self).start() == old(self).start(),
            old(self).start() == old(self).end() ==> r is None && final(self).end() == old(
                self,
            ).end(),
            old(self).start() < old(self).end() ==> r == Some((old(self).end() - 1) as u32)
                && final(self).end() == old(self).end() - 1,
    {
        proof {
            use_type_invariant(&*self);
        }
        if self.len > self.pos {
            self.len = self.len - 1;
            Some(self.len)
        } else {
            None
        }
    }

    /// Steps back over `n` indices and yields the one before them. Where fewer
    /// than `n + 1` are left, none is left afterwards and nothing is yielded.
    pub fn nth_back(&mut self, n: usize) -> (r: Option<u32>)
        ensures
            old(self).wf(),
            final(self).wf(),
            final(self).start() == old(self).start(),
            n < old(self).end() - old(self).start() ==> r == Some(
                (old(self).end() - 1 - n) as u32,
            ) && final(self).end() == old(self).end() - n - 1,
            n >= old(self).end() - old(self).start() ==> r is None && final(self).end() == old(
                self,
            ).start(),
    {
        proof {
            use_type_invariant(&*self);
        }
        if n > u32::MAX as usize {
            self.len = self.pos;
            return None;
        }
        self.len = match self.len.checked_sub(n as u32) {
            Some(len) => if len > self.pos {
                len
            } else {
                self.pos
            },
            None => self.pos,
        };
        let r = self.next_back();
        r
    }
}

/// What is left is a run of indices without a gap and without a repetition.
pub proof fn lemma_remaining_in_order(keys: Keys, i: int, j: int)
    requires
        keys.wf(),
        0 <= i < j < keys.remaining().len(),
    ensures
        keys.remaining()[i] == keys.start() + i,
        keys.remaining()[i] < keys.remaining()[j],
{
}

/// A step from the front yields the first index that was left and leaves the
/// others, nothing lost and nothing twice.
pub proof fn lemma_next_splits(before: Keys, after: Keys)
    requires
        before.wf(),
        before.start() < before.end(),
        after.start() == before.start() + 1,
        after.end() == before.end(),
    ensures
        before.remaining() == seq![before.start() as u32] + after.remaining(),
{
    assert(before.remaining() =~= seq![before.start() as u32] + after.remaining());
}

/// A step from the back yields the last index that was left and leaves the
/// others, nothing lost and nothing twice.
pub proof fn lemma_next_back_splits(before: Keys, after: Keys)
    requires
        before.wf(),
        before.start() < before.end(),
        after.start() == before.start(),
        after.end() == before.end() - 1,
    ensures
        before.remaining() == after.remaining() + seq![(before.end() - 1) as u32],
{
    assert(before.remaining() =~= after.remaining() + seq![(before.end() - 1) as u32]);
}

/// Nothing is left exactly when the start has reached the end.
pub proof fn lemma_empty_when_met(keys: Keys)
    requires
        keys.wf(),
    ensures
        keys.remaining().len() == 0 <==> keys.start() == keys.end(),
{
}

} // verus!
