//! Walks two byte strings side by side and reports where they differ.
use std::ops::Range;
use vstd::prelude::*;

verus! {

/// The number of positions that both `a` and `b` have.
pub open spec fn shared_len(a: Seq<u8>, b: Seq<u8>) -> int {
    if a.len() < b.len() {
        a.len() as int
    } else {
        b.len() as int
    }
}

/// `memchr::memchr` gives the index of the first byte of `haystack` that
/// equals `needle`, and `None` where no byte does.
pub assume_specification[ memchr::memchr ](needle: u8, haystack: &[u8]) -> (found: Option<usize>)
    ensures
        match found {
            Some(i) => {
                &&& i < haystack@.len()
                &&& haystack@[i as int] == needle
                &&& forall|j: int| 0 <= j < i ==> haystack@[j] != needle
            },
            None => forall|j: int| 0 <= j < haystack@.len() ==> haystack@[j] != needle,
        },
;

/// A cursor over the positions that two byte strings share. Each step gives
/// the next stretch in which every byte differs.
pub struct SliceDiffs<'a> {
    index: usize,
    a: &'a [u8],
    b: &'a [u8],
}

impl<'a> SliceDiffs<'a> {
    /// The first of the two byte strings.
    pub closed spec fn left(&self) -> Seq<u8> {
        self.a@
    }

    /// The second of the two byte strings.
    pub closed spec fn right(&self) -> Seq<u8> {
        self.b@
    }

    /// The position from which the next step looks.
    pub closed spec fn position(&self) -> nat {
        self.index as nat
    }

    /// The cursor never leaves the shared positions, and it stands where a
    /// range may end: at the start, at the end of the shared positions, or
    /// on a byte in which the two strings agree.
    pub closed spec fn wf(&self) -> bool {
        &&& self.index <= shared_len(self.a@, self.b@)
        &&& (self.index == 0 || self.index == shared_len(self.a@, self.b@)
            || self.a@[self.index as int] == self.b@[self.index as int])
    }

    pub fn new(a: &'a [u8], b: &'a [u8]) -> (r: Self)
        ensures
            r.wf(),
            r.left() == a@,
            r.right() == b@,
            r.position() == 0,
    {
        SliceDiffs { index: 0, a, b }
    }

    /// The next stretch of differing bytes: it starts at the first position at
    /// or after the cursor where the two strings differ, and ends at the next
    /// position where they agree, or where the shorter one ends. So the
    /// stretch cannot be made longer on either side: before it lies the start
    /// or a byte in which the two agree, behind it such a byte or the end of
    /// the shared positions. The cursor moves to that end. `None`, with the
    /// cursor unmoved, when the two agree from the cursor on.
    pub fn next(&mut self) -> (r: Option<Range<usize>>)
        requires
            old(self).wf(),
        ensures
            final(self).wf(),
            final(self).left() == old(self).left(),
            final(self).right() == old(self).right(),
            match r {
                Some(range) => {
                    &&& old(self).position() <= range.start < range.end <= shared_len(
                        old(self).left(),
                        old(self).right(),
                    )
                    &&& forall|i: int|
                        old(self).position() <= i < range.start ==> old(self).left()[i] == old(
                            self,
                        ).right()[i]
                    &&& forall|i: int|
                        range.start <= i < range.end ==> old(self).left()[i] != old(self).right()[i]
                    &&& range.start == 0 || old(self).left()[range.start - 1] == old(
                        self,
                    ).right()[range.start - 1]
                    &&& range.end < shared_len(old(self).left(), old(self).right()) ==> old(
                        self,
                    ).left()[range.end as int] == old(self).right()[range.end as int]
                    &&& final(self).position() == range.end
                },
                None => {
                    &&& forall|i: int|
                        old(self).position() <= i < shared_len(old(self).left(), old(self).right())
                            ==> old(self).left()[i] == old(self).right()[i]
                    &&& final(self).position() == old(self).position()
                },
            },
    {
        let shared: usize = if self.a.len() < self.b.len() {
            self.a.len()
        } else {
            self.b.len()
        };
        let mut start: usize = self.index;
        while start < shared && self.a[start] == self.b[start]
            invariant
                self.index <= start <= shared,
                shared == shared_len(self.a@, self.b@),
                forall|i: int| self.index <= i < start ==> self.a@[i] == self.b@[i],
            decreases shared - start,
        {
            start += 1;
        }
        if start == shared {
            return None;
        }
        let mut end: usize = start + 1;
        while end < shared && self.a[end] != self.b[end]
            invariant
                start < end <= shared,
                shared == shared_len(self.a@, self.b@),
                forall|i: int| start <= i < end ==> self.a@[i] != self.b@[i],
            decreases shared - end,
        {
            end += 1;
        }
        self.index = end;
        Some(start..end)
    }
}

} // verus!
