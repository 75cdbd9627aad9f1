//! Amortized cursor over an array sorted by a monotonic key.
//!
//! Repeated calls with non-decreasing `[lo, hi)` windows carve out the
//! sub-range of elements whose key falls in the window, advancing two
//! cursors so earlier elements are never rescanned.

use core::ops::Range;
use vstd::prelude::*;

verus! {

/// Items the scanner can walk: anything exposing a `u32` key.
pub trait TupleFirst {
    /// The key the array is sorted by.
    spec fn key(&self) -> u32;

    /// Returns the key of this element.
    fn first(&self) -> (k: u32)
        ensures
            k == self.key(),
    ;
}

impl TupleFirst for u32 {
    open spec fn key(&self) -> u32 {
        *self
    }

    fn first(&self) -> (k: u32) {
        *self
    }
}

impl<T> TupleFirst for (u32, T) {
    open spec fn key(&self) -> u32 {
        self.0
    }

    fn first(&self) -> (k: u32) {
        self.0
    }
}

impl<T, U> TupleFirst for (u32, T, U) {
    open spec fn key(&self) -> u32 {
        self.0
    }

    fn first(&self) -> (k: u32) {
        self.0
    }
}

/// The keys of `s` are in non-decreasing order.
pub open spec fn keys_sorted<T: TupleFirst>(s: Seq<T>) -> bool {
    forall|i: int, j: int| 0 <= i < j < s.len() ==> #[trigger] s[i].key() <= #[trigger] s[j].key()
}

/// Used for finding ranges in an array without iterating over the whole
/// array on every request.
///
/// The array's keys must be in non-decreasing order; successive requests
/// must have non-decreasing bounds.
pub struct AdvancingRange<'a, T: TupleFirst> {
    data: &'a [T],
    start: usize,
    end: usize,
    previous_start: u32,
    previous_end: u32,
}

impl<'a, T: TupleFirst> AdvancingRange<'a, T> {
    /// The underlying array, as the scanner sees it.
    pub closed spec fn view_data(&self) -> Seq<T> {
        self.data@
    }

    /// Lower cursor: index of the first element with key at or above the
    /// previous request's lower bound.
    pub closed spec fn cursor_start(&self) -> int {
        self.start as int
    }

    /// Upper cursor: index of the first element with key at or above the
    /// previous request's upper bound.
    pub closed spec fn cursor_end(&self) -> int {
        self.end as int
    }

    /// Lower bound of the previous request.
    pub closed spec fn prev_lo(&self) -> u32 {
        self.previous_start
    }

    /// Upper bound of the previous request.
    pub closed spec fn prev_hi(&self) -> u32 {
        self.previous_end
    }

    /// Well-formedness: the array is sorted by key, the request bounds are
    /// ordered, and each cursor splits the array at its bound.
    pub open spec fn wf(&self) -> bool {
        &&& keys_sorted(self.view_data())
        &&& self.prev_lo() <= self.prev_hi()
        &&& 0 <= self.cursor_start() <= self.cursor_end() <= self.view_data().len()
        &&& forall|i: int|
            0 <= i < self.cursor_start() ==> #[trigger] self.view_data()[i].key() < self.prev_lo()
        &&& forall|i: int|
            self.cursor_start() <= i < self.view_data().len() ==> #[trigger] self.view_data()[i].key()
                >= self.prev_lo()
        &&& forall|i: int|
            0 <= i < self.cursor_end() ==> #[trigger] self.view_data()[i].key() < self.prev_hi()
        &&& forall|i: int|
            self.cursor_end() <= i < self.view_data().len() ==> #[trigger] self.view_data()[i].key()
                >= self.prev_hi()
    }

    pub fn new(slice: &'a [T]) -> (r: Self)
        requires
            keys_sorted(slice@),
        ensures
            r.wf(),
            r.view_data() == slice@,
            r.cursor_start() == 0,
            r.cursor_end() == 0,
            r.prev_lo() == 0,
            r.prev_hi() == 0,
    {
        Self { data: slice, start: 0, end: 0, previous_start: 0, previous_end: 0 }
    }

    /// Returns the index range of the elements whose key lies within
    /// `acceptable_range`. Both bounds must be at least as large as in the
    /// previous call.
    pub fn get_range(&mut self, acceptable_range: Range<u32>) -> (r: Range<usize>)
        requires
            old(self).wf(),
            acceptable_range.start <= acceptable_range.end,
            acceptable_range.start >= old(self).prev_lo(),
            acceptable_range.end >= old(self).prev_hi(),
        ensures
            final(self).wf(),
            final(self).view_data() == old(self).view_data(),
            final(self).prev_lo() == acceptable_range.start,
            final(self).prev_hi() == acceptable_range.end,
            r.start == final(self).cursor_start(),
            r.end == final(self).cursor_end(),
            r.start >= old(self).cursor_start(),
            r.end >= old(self).cursor_end(),
            r.start <= r.end <= final(self).view_data().len(),
            forall|i: int|
                r.start <= i < r.end ==> acceptable_range.start
                    <= #[trigger] final(self).view_data()[i].key() < acceptable_range.end,
            forall|i: int|
                0 <= i < r.start ==> #[trigger] final(self).view_data()[i].key()
                    < acceptable_range.start,
            forall|i: int|
                r.end <= i < final(self).view_data().len()
                    ==> #[trigger] final(self).view_data()[i].key() >= acceptable_range.end,
    {
        let lo = acceptable_range.start;
        let hi = acceptable_range.end;
        let data = self.data;
        let mut start = self.start;
        let mut end = self.end;
        let ghost start0 = self.start as int;
        let ghost end0 = self.end as int;
        while start < data.len() && data[start].first() < lo
            invariant
                keys_sorted(data@),
                start0 <= start <= data@.len(),
                forall|i: int| 0 <= i < start ==> #[trigger] data@[i].key() < lo,
            decreases data@.len() - start,
        {
            start = start + 1;
        }
        while end < data.len() && data[end].first() < hi
            invariant
                end0 <= end <= data@.len(),
                forall|i: int| 0 <= i < end ==> #[trigger] data@[i].key() < hi,
            decreases data@.len() - end,
        {
            end = end + 1;
        }
        proof {
            assert forall|i: int| start as int <= i < data@.len() implies #[trigger] data@[i].key()
                >= lo by {
                assert(data@[start as int].key() <= data@[i].key());
            }
            assert forall|i: int| end as int <= i < data@.len() implies #[trigger] data@[i].key()
                >= hi by {
                assert(data@[end as int].key() <= data@[i].key());
            }
            assert(start <= end) by {
                if end < start {
                    assert(data@[end as int].key() < lo);
                }
            }
        }
        self.start = start;
        self.end = end;
        self.previous_start = lo;
        self.previous_end = hi;
        Range { start, end }
    }

    /// Checked form of [`Self::get_range`]: a request whose bounds regress
    /// below the previous call's, or whose start exceeds its end, fails
    /// fast with `None` and leaves the scanner untouched.
    pub fn try_get_range(&mut self, acceptable_range: Range<u32>) -> (r: Option<Range<usize>>)
        requires
            old(self).wf(),
        ensures
            r is Some <==> (acceptable_range.start <= acceptable_range.end
                && acceptable_range.start >= old(self).prev_lo() && acceptable_range.end >= old(
                self,
            ).prev_hi()),
            r is None ==> *final(self) == *old(self),
            r is Some ==> {
                let g = r->Some_0;
                &&& final(self).wf()
                &&& final(self).view_data() == old(self).view_data()
                &&& final(self).prev_lo() == acceptable_range.start
                &&& final(self).prev_hi() == acceptable_range.end
                &&& g.start == final(self).cursor_start()
                &&& g.end == final(self).cursor_end()
                &&& g.start <= g.end <= final(self).view_data().len()
                &&& (forall|i: int|
                    g.start <= i < g.end ==> acceptable_range.start
                        <= #[trigger] final(self).view_data()[i].key() < acceptable_range.end)
                &&& (forall|i: int|
                    0 <= i < g.start ==> #[trigger] final(self).view_data()[i].key()
                        < acceptable_range.start)
                &&& (forall|i: int|
                    g.end <= i < final(self).view_data().len()
                        ==> #[trigger] final(self).view_data()[i].key() >= acceptable_range.end)
            },
    {
        if acceptable_range.start > acceptable_range.end || acceptable_range.start
            < self.previous_start || acceptable_range.end < self.previous_end {
            return None;
        }
        Some(self.get_range(acceptable_range))
    }

    /// Returns a slice of the elements whose key lies within
    /// `acceptable_range`. Both bounds must be at least as large as in the
    /// previous call.
    pub fn get_slice(&mut self, acceptable_range: Range<u32>) -> (s: &'a [T])
        requires
            old(self).wf(),
            acceptable_range.start <= acceptable_range.end,
            acceptable_range.start >= old(self).prev_lo(),
            acceptable_range.end >= old(self).prev_hi(),
        ensures
            final(self).wf(),
            final(self).view_data() == old(self).view_data(),
            final(self).prev_lo() == acceptable_range.start,
            final(self).prev_hi() == acceptable_range.end,
            s@ == final(self).view_data().subrange(
                final(self).cursor_start(),
                final(self).cursor_end(),
            ),
            forall|i: int|
                0 <= i < s@.len() ==> acceptable_range.start <= #[trigger] s@[i].key()
                    < acceptable_range.end,
    {
        let r = self.get_range(acceptable_range);
        let s = vstd::slice::slice_subrange(self.data, r.start, r.end);
        proof {
            assert forall|i: int| 0 <= i < s@.len() implies acceptable_range.start
                <= #[trigger] s@[i].key() < acceptable_range.end by {
                assert(s@[i] == self.view_data()[self.cursor_start() + i]);
            }
        }
        s
    }
}

} // verus!
