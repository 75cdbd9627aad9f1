//! Verified stable sort by a (key, timestamp) pair.
//!
//! The sort order is pinned by a deterministic specification function, so
//! that every caller — and the dedup self-check, which recomputes the sort
//! independently — can speak of *the* sorted form of a stream.

use crate::queries::{DecommittmentQuery, LogQuery};
use vstd::prelude::*;

verus! {

/// Records the dedup stages can sort: anything exposing a primary key and
/// a secondary timestamp.
pub trait Keyed: Sized {
    /// Primary sort key.
    spec fn skey(&self) -> u64;

    /// Secondary sort key (the trace timestamp).
    spec fn stime(&self) -> u64;

    /// Returns the primary key.
    fn key_of(&self) -> (k: u64)
        ensures
            k == self.skey(),
    ;

    /// Returns the secondary key.
    fn time_of(&self) -> (t: u64)
        ensures
            t == self.stime(),
    ;
}

impl Keyed for LogQuery {
    open spec fn skey(&self) -> u64 {
        self.key
    }

    open spec fn stime(&self) -> u64 {
        self.timestamp as u64
    }

    fn key_of(&self) -> (k: u64) {
        self.key
    }

    fn time_of(&self) -> (t: u64) {
        self.timestamp as u64
    }
}

impl Keyed for DecommittmentQuery {
    open spec fn skey(&self) -> u64 {
        self.code_hash
    }

    open spec fn stime(&self) -> u64 {
        self.timestamp as u64
    }

    fn key_of(&self) -> (k: u64) {
        self.code_hash
    }

    fn time_of(&self) -> (t: u64) {
        self.timestamp as u64
    }
}

/// Lexicographic (key, timestamp) order.
pub open spec fn le_kt<T: Keyed>(a: T, b: T) -> bool {
    a.skey() < b.skey() || (a.skey() == b.skey() && a.stime() <= b.stime())
}

/// The sequence is in non-decreasing (key, timestamp) order.
pub open spec fn sorted_kt<T: Keyed>(s: Seq<T>) -> bool {
    forall|i: int, j: int| 0 <= i < j < s.len() ==> #[trigger] le_kt(s[i], s[j])
}

/// Stable insertion of `x` into the sorted sequence `s`: `x` is placed
/// after every element it compares equal to.
pub open spec fn insert_sorted<T: Keyed>(s: Seq<T>, x: T) -> Seq<T>
    decreases s.len(),
{
    if s.len() == 0 {
        seq![x]
    } else if le_kt(s.last(), x) {
        s.push(x)
    } else {
        insert_sorted(s.drop_last(), x).push(s.last())
    }
}

/// The sorted form of `s`: stable insertion sort, element by element.
pub open spec fn sort_kt<T: Keyed>(s: Seq<T>) -> Seq<T>
    decreases s.len(),
{
    if s.len() == 0 {
        s
    } else {
        insert_sorted(sort_kt(s.drop_last()), s.last())
    }
}

/// Inserting into a sorted sequence keeps it sorted, adds exactly the new
/// element to the multiset, and grows the length by one.
pub proof fn lemma_insert_sorted_props<T: Keyed>(s: Seq<T>, x: T)
    requires
        sorted_kt(s),
    ensures
        sorted_kt(insert_sorted(s, x)),
        insert_sorted(s, x).to_multiset() == s.to_multiset().insert(x),
        insert_sorted(s, x).len() == s.len() + 1,
    decreases s.len(),
{
    broadcast use vstd::seq_lib::group_to_multiset_ensures;

    let out = insert_sorted(s, x);
    if s.len() == 0 {
        assert(out =~= Seq::<T>::empty().push(x));
        assert(Seq::<T>::empty().push(x).to_multiset() =~= s.to_multiset().insert(x));
    } else if le_kt(s.last(), x) {
        assert(out == s.push(x));
        assert(s.push(x).to_multiset() =~= s.to_multiset().insert(x));
        assert forall|i: int, j: int| 0 <= i < j < out.len() implies #[trigger] le_kt(
            out[i],
            out[j],
        ) by {
            if j == out.len() - 1 {
                if i < s.len() - 1 {
                    assert(le_kt(s[i], s.last()));
                }
            }
        }
    } else {
        let dl = s.drop_last();
        let last = s.last();
        assert(sorted_kt(dl)) by {
            assert forall|i: int, j: int| 0 <= i < j < dl.len() implies #[trigger] le_kt(
                dl[i],
                dl[j],
            ) by {
                assert(le_kt(s[i], s[j]));
            }
        }
        lemma_insert_sorted_props(dl, x);
        let ins = insert_sorted(dl, x);
        assert(out == ins.push(last));
        // multiset: ins.to_multiset() == dl.to_multiset().insert(x)
        assert(ins.push(last).to_multiset() =~= ins.to_multiset().insert(last));
        assert(s.to_multiset() =~= dl.to_multiset().insert(last)) by {
            assert(s == dl.push(last));
            assert(dl.push(last).to_multiset() =~= dl.to_multiset().insert(last));
        }
        assert(out.to_multiset() =~= s.to_multiset().insert(x)) by {
            assert(out.to_multiset() == dl.to_multiset().insert(x).insert(last));
        }
        // sortedness: every element of ins is at most last
        assert forall|i: int| 0 <= i < ins.len() implies le_kt(ins[i], last) by {
            assert(ins.to_multiset().contains(ins[i]));
            if ins[i] == x {
                assert(le_kt(x, last));
            } else {
                assert(dl.to_multiset().contains(ins[i]));
                assert(dl.contains(ins[i]));
                let j = choose|j: int| 0 <= j < dl.len() && dl[j] == ins[i];
                assert(le_kt(s[j], s.last()));
            }
        }
        assert forall|i: int, j: int| 0 <= i < j < out.len() implies #[trigger] le_kt(
            out[i],
            out[j],
        ) by {
            if j == out.len() - 1 {
                assert(le_kt(ins[i], last));
            }
        }
    }
}

/// The sorted form of a sequence is sorted and carries the same multiset
/// of elements.
pub proof fn lemma_sort_kt_props<T: Keyed>(s: Seq<T>)
    ensures
        sorted_kt(sort_kt(s)),
        sort_kt(s).to_multiset() == s.to_multiset(),
        sort_kt(s).len() == s.len(),
    decreases s.len(),
{
    broadcast use vstd::seq_lib::group_to_multiset_ensures;

    if s.len() == 0 {
    } else {
        let dl = s.drop_last();
        lemma_sort_kt_props(dl);
        lemma_insert_sorted_props(sort_kt(dl), s.last());
        assert(s == dl.push(s.last()));
        assert(dl.push(s.last()).to_multiset() =~= dl.to_multiset().insert(s.last()));
    }
}

/// Where the scan of the exec sort stops is where the spec insertion
/// lands: inserting `x` at the first position from the right whose
/// predecessor is at most `x` realizes `insert_sorted`.
proof fn lemma_insert_sorted_at<T: Keyed>(s: Seq<T>, x: T, j: int)
    requires
        sorted_kt(s),
        0 <= j <= s.len(),
        j == 0 || le_kt(s[j - 1], x),
        forall|m: int| j <= m < s.len() ==> !le_kt(#[trigger] s[m], x),
    ensures
        insert_sorted(s, x) == s.take(j) + seq![x] + s.skip(j),
    decreases s.len(),
{
    if j == s.len() {
        if s.len() == 0 {
            assert(insert_sorted(s, x) =~= s.take(j) + seq![x] + s.skip(j));
        } else {
            assert(le_kt(s.last(), x));
            assert(insert_sorted(s, x) == s.push(x));
            assert(s.push(x) =~= s.take(j) + seq![x] + s.skip(j));
        }
    } else {
        assert(!le_kt(s[s.len() - 1], x));
        let dl = s.drop_last();
        assert(sorted_kt(dl)) by {
            assert forall|a: int, b: int| 0 <= a < b < dl.len() implies #[trigger] le_kt(
                dl[a],
                dl[b],
            ) by {
                assert(le_kt(s[a], s[b]));
            }
        }
        lemma_insert_sorted_at(dl, x, j);
        assert(insert_sorted(s, x) == insert_sorted(dl, x).push(s.last()));
        assert((dl.take(j) + seq![x] + dl.skip(j)).push(s.last()) =~= s.take(j) + seq![x] + s.skip(
            j,
        ));
    }
}

/// Compares two records in (key, timestamp) order.
pub fn le_keyed<T: Keyed>(a: &T, b: &T) -> (r: bool)
    ensures
        r == le_kt(*a, *b),
{
    let ka = a.key_of();
    let kb = b.key_of();
    if ka < kb {
        true
    } else if ka == kb {
        a.time_of() <= b.time_of()
    } else {
        false
    }
}

/// Stable insertion sort by (key, timestamp). The result is pinned to the
/// deterministic specification `sort_kt`, so re-sorting the same stream
/// always yields the identical sequence.
pub fn sort_by_key_time<T: Keyed + Copy>(input: &Vec<T>) -> (r: Vec<T>)
    ensures
        r@ == sort_kt(input@),
        sorted_kt(r@),
        r@.to_multiset() == input@.to_multiset(),
        r@.len() == input@.len(),
{
    let mut out: Vec<T> = Vec::new();
    let mut i: usize = 0;
    proof {
        assert(input@.take(0) =~= Seq::<T>::empty());
    }
    while i < input.len()
        invariant
            0 <= i <= input@.len(),
            out@ == sort_kt(input@.take(i as int)),
            sorted_kt(out@),
            out@.len() == i,
        decreases input@.len() - i,
    {
        let x = input[i];
        let mut j = out.len();
        while j > 0 && !le_keyed(&out[j - 1], &x)
            invariant
                0 <= j <= out@.len(),
                forall|m: int| j <= m < out@.len() ==> !le_kt(#[trigger] out@[m], x),
            decreases j,
        {
            j = j - 1;
        }
        proof {
            lemma_insert_sorted_at(out@, x, j as int);
            lemma_insert_sorted_props(out@, x);
            assert(input@.take(i + 1).drop_last() =~= input@.take(i as int));
            assert(input@.take(i + 1).last() == input@[i as int]);
            assert(out@.insert(j as int, x) =~= out@.take(j as int) + seq![x] + out@.skip(j as int));
        }
        out.insert(j, x);
        i = i + 1;
    }
    proof {
        assert(input@.take(input@.len() as int) =~= input@);
        lemma_sort_kt_props(input@);
    }
    out
}

} // verus!
