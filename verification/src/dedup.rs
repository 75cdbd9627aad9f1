//! Deduplication engine.
//!
//! Produces the sorted, collapsed companion view of a per-destination
//! stream: entries are ordered by (key, timestamp) ascending, all entries
//! for one key collapse into the one carrying the key's initial and final
//! effective values, and a key whose value silently reverted may be elided
//! under the caller-chosen policy. Within a repeated key the timestamps
//! must be strictly increasing; an out-of-order timestamp is a consistency
//! violation and aborts the pass.

use crate::queries::LogQuery;
use crate::sorting::{le_kt, sort_by_key_time, sort_kt, sorted_kt, Keyed};
use vstd::prelude::*;

verus! {

/// When a key whose final value equals its initial value is dropped from
/// the deduplicated queue. The exact predicate is safety-critical for the
/// downstream permutation argument, so callers choose it explicitly.
#[derive(Clone, Copy, PartialEq, Eq, Structural, Debug)]
pub enum ElisionPolicy {
    /// Elide a key whose group contains a write, whose last written value
    /// equals its initial value, and in which no read follows a write.
    ElideSilentReverts,
    /// Never elide; every key keeps exactly one collapsed entry.
    RetainAll,
}

/// An out-of-order timestamp within a repeated key, found at `index` of
/// the sorted stream.
#[derive(Clone, Copy, PartialEq, Eq, Structural, Debug)]
pub struct ConsistencyError {
    /// Index into the sorted stream whose entry violates strictness.
    pub index: usize,
    /// The repeated key.
    pub key: u64,
}

/// The predicate selecting the entries for key `k`.
pub open spec fn has_key(k: u64) -> spec_fn(LogQuery) -> bool {
    |q: LogQuery| q.key == k
}

/// All entries of `s` for key `k`, in stream order.
pub open spec fn group_of(s: Seq<LogQuery>, k: u64) -> Seq<LogQuery> {
    s.filter(has_key(k))
}

/// Key `k` occurs somewhere in `s`.
pub open spec fn key_present(s: Seq<LogQuery>, k: u64) -> bool {
    exists|i: int| 0 <= i < s.len() && (#[trigger] s[i]).key == k
}

/// Some entry of the group is a write.
pub open spec fn group_has_write(g: Seq<LogQuery>) -> bool {
    exists|i: int| 0 <= i < g.len() && (#[trigger] g[i]).rw_flag
}

/// Some read of the key happens after a write to it.
pub open spec fn read_after_write(g: Seq<LogQuery>) -> bool {
    exists|i: int, j: int|
        0 <= i < j < g.len() && (#[trigger] g[i]).rw_flag && !(#[trigger] g[j]).rw_flag
}

/// The group's collapsed entry: the last entry (which carries the final
/// effective value), with the initial value of the key kept from the
/// first entry.
pub open spec fn collapsed(g: Seq<LogQuery>) -> LogQuery {
    LogQuery { read_value: g[0].read_value, ..g.last() }
}

/// The group is dropped from the deduplicated queue: under the silent-
/// revert policy, a written key whose final value equals its initial
/// value and that no read observed after a write.
pub open spec fn group_elided(g: Seq<LogQuery>, policy: ElisionPolicy) -> bool {
    &&& policy is ElideSilentReverts
    &&& group_has_write(g)
    &&& g.last().written_value == g[0].read_value
    &&& !read_after_write(g)
}

/// Among entries sharing a key, timestamps strictly increase with the
/// position in the stream.
pub open spec fn timestamps_strict(s: Seq<LogQuery>) -> bool {
    forall|a: int, b: int|
        #![trigger s[a], s[b]]
        0 <= a < b < s.len() && s[a].key == s[b].key ==> s[a].timestamp < s[b].timestamp
}

/// What the collapse pass has established once the first `i` entries of
/// the sorted stream (always a whole number of key groups) are processed:
/// strictly ascending keys in `out`, every entry of `out` the collapsed
/// form of its non-elided group, every non-elided key among the first `i`
/// entries represented, and every key of `out` drawn from those entries.
#[verifier::opaque]
pub open spec fn dedup_prefix_ok(
    out: Seq<LogQuery>,
    s: Seq<LogQuery>,
    policy: ElisionPolicy,
    i: int,
) -> bool {
    &&& forall|a: int, b: int|
        #![trigger out[a], out[b]]
        0 <= a < b < out.len() ==> out[a].key < out[b].key
    &&& forall|a: int|
        0 <= a < out.len() ==> key_present(s, (#[trigger] out[a]).key) && !group_elided(
            group_of(s, out[a].key),
            policy,
        ) && out[a] == collapsed(group_of(s, out[a].key))
    &&& forall|j: int|
        0 <= j < i && !group_elided(group_of(s, (#[trigger] s[j]).key), policy) ==> key_present(
            out,
            s[j].key,
        )
    &&& forall|a: int|
        0 <= a < out.len() ==> exists|j: int| 0 <= j < i && (#[trigger] out[a]).key == (
        #[trigger] s[j]).key
}

/// What the collapse pass promises of its output: strictly ascending
/// keys; every entry is the collapsed form of its (non-elided) group; and
/// every non-elided key of the input is represented.
pub open spec fn is_dedup_of(r: Seq<LogQuery>, s: Seq<LogQuery>, policy: ElisionPolicy) -> bool {
    &&& forall|a: int, b: int| #![trigger r[a], r[b]] 0 <= a < b < r.len() ==> r[a].key < r[b].key
    &&& forall|a: int|
        0 <= a < r.len() ==> key_present(s, (#[trigger] r[a]).key) && !group_elided(
            group_of(s, r[a].key),
            policy,
        ) && r[a] == collapsed(group_of(s, r[a].key))
    &&& forall|j: int|
        0 <= j < s.len() && !group_elided(group_of(s, (#[trigger] s[j]).key), policy)
            ==> key_present(r, s[j].key)
}

/// Every element of `s` has key `k`, so the whole sequence is its own
/// `k`-group.
proof fn lemma_filter_all_match(s: Seq<LogQuery>, k: u64)
    requires
        forall|i: int| 0 <= i < s.len() ==> (#[trigger] s[i]).key == k,
    ensures
        s.filter(has_key(k)) == s,
    decreases s.len(),
{
    reveal(Seq::filter);
    if s.len() > 0 {
        lemma_filter_all_match(s.drop_last(), k);
        assert(s.drop_last().push(s.last()) =~= s);
    }
}

/// No element of `s` has key `k`, so its `k`-group is empty.
proof fn lemma_filter_none_match(s: Seq<LogQuery>, k: u64)
    requires
        forall|i: int| 0 <= i < s.len() ==> (#[trigger] s[i]).key != k,
    ensures
        s.filter(has_key(k)) == Seq::<LogQuery>::empty(),
    decreases s.len(),
{
    reveal(Seq::filter);
    if s.len() > 0 {
        lemma_filter_none_match(s.drop_last(), k);
    }
}

/// In a sorted stream a key's entries are contiguous: the group for `k`
/// is exactly the maximal run `[a, b)` of entries with key `k`.
proof fn lemma_group_contiguous(s: Seq<LogQuery>, k: u64, a: int, b: int)
    requires
        sorted_kt(s),
        0 <= a < b <= s.len(),
        forall|m: int| a <= m < b ==> (#[trigger] s[m]).key == k,
        a == 0 || s[a - 1].key != k,
        b == s.len() || s[b].key != k,
    ensures
        group_of(s, k) == s.subrange(a, b),
{
    let front = s.take(a);
    let mid = s.subrange(a, b);
    let back = s.skip(b);
    assert(s =~= (front + mid) + back);
    Seq::filter_distributes_over_add(front + mid, back, has_key(k));
    Seq::filter_distributes_over_add(front, mid, has_key(k));
    assert forall|i: int| 0 <= i < front.len() implies (#[trigger] front[i]).key != k by {
        if front[i].key == k {
            assert(le_kt(s[i], s[a - 1]));
            assert(le_kt(s[a - 1], s[a]));
            assert(s[a - 1].key == k);
        }
    }
    lemma_filter_none_match(front, k);
    assert forall|i: int| 0 <= i < back.len() implies (#[trigger] back[i]).key != k by {
        if back[i].key == k {
            assert(le_kt(s[b], s[b + i]));
            assert(le_kt(s[a], s[b]));
            assert(s[b].key == k);
        }
    }
    lemma_filter_none_match(back, k);
    lemma_filter_all_match(mid, k);
    assert(group_of(s, k) =~= mid);
}

/// A key group starting at `i` has no earlier occurrence of its key.
proof fn lemma_no_key_before(s: Seq<LogQuery>, i: int, a: int)
    requires
        sorted_kt(s),
        0 <= a < i < s.len(),
        s[i - 1].key != s[i].key,
    ensures
        s[a].key != s[i].key,
{
    if s[a].key == s[i].key {
        if a < i - 1 {
            assert(le_kt(s[a], s[i - 1]));
        }
        assert(le_kt(s[i - 1], s[i]));
    }
}

/// Processing one whole key group preserves the collapse invariant:
/// skipping an elided group, or appending the collapsed entry of a
/// non-elided one.
proof fn lemma_dedup_step(
    out: Seq<LogQuery>,
    s: Seq<LogQuery>,
    policy: ElisionPolicy,
    i: int,
    j: int,
)
    requires
        sorted_kt(s),
        dedup_prefix_ok(out, s, policy, i),
        0 <= i < j <= s.len(),
        forall|m: int| i <= m < j ==> (#[trigger] s[m]).key == s[i].key,
        i == 0 || s[i - 1].key != s[i].key,
        j == s.len() || s[j].key != s[i].key,
    ensures
        group_elided(group_of(s, s[i].key), policy) ==> dedup_prefix_ok(out, s, policy, j),
        !group_elided(group_of(s, s[i].key), policy) ==> dedup_prefix_ok(
            out.push(collapsed(group_of(s, s[i].key))),
            s,
            policy,
            j,
        ),
{
    reveal(dedup_prefix_ok);
    let k = s[i].key;
    let g = group_of(s, k);
    lemma_group_contiguous(s, k, i, j);
    assert(key_present(s, k)) by {
        assert((#[trigger] s[i]).key == k);
    }
    if group_elided(g, policy) {
        assert forall|j2: int|
            0 <= j2 < j && !group_elided(
                group_of(s, (#[trigger] s[j2]).key),
                policy,
            ) implies key_present(out, s[j2].key) by {
            if j2 >= i {
                assert(s[j2].key == k);
            }
        }
    } else {
        let entry = collapsed(g);
        let out2 = out.push(entry);
        assert(g.last() == s[j - 1]);
        assert(entry.key == k);
        assert forall|a: int| 0 <= a < out.len() implies (#[trigger] out[a]).key < k by {
            let j0 = choose|j0: int|
                0 <= j0 < i && (#[trigger] out[a]).key == (#[trigger] s[j0]).key;
            assert(0 <= j0 < i && out[a].key == s[j0].key);
            assert(le_kt(s[j0], s[i]));
            lemma_no_key_before(s, i, j0);
        }
        assert forall|a: int, b: int|
            #![trigger out2[a], out2[b]]
            0 <= a < b < out2.len() implies out2[a].key < out2[b].key by {
            if b == out2.len() - 1 {
                assert(out2[a] == out[a]);
                assert(out[a].key < k);
            } else {
                assert(out2[a] == out[a]);
                assert(out2[b] == out[b]);
            }
        }
        assert forall|a: int|
            0 <= a < out2.len() implies key_present(s, (#[trigger] out2[a]).key) && !group_elided(
            group_of(s, out2[a].key),
            policy,
        ) && out2[a] == collapsed(group_of(s, out2[a].key)) by {
            if a < out.len() {
                assert(out2[a] == out[a]);
            } else {
                assert(out2[a] == entry);
            }
        }
        assert forall|j2: int|
            0 <= j2 < j && !group_elided(
                group_of(s, (#[trigger] s[j2]).key),
                policy,
            ) implies key_present(out2, s[j2].key) by {
            if j2 >= i {
                assert((#[trigger] out2[out2.len() - 1]).key == k);
            } else {
                let a = choose|a: int| 0 <= a < out.len() && (#[trigger] out[a]).key == s[j2].key;
                assert((#[trigger] out2[a]).key == s[j2].key);
            }
        }
        assert forall|a: int| 0 <= a < out2.len() implies exists|j2: int|
            0 <= j2 < j && (#[trigger] out2[a]).key == (#[trigger] s[j2]).key by {
            if a < out.len() {
                let j2 = choose|j2: int|
                    0 <= j2 < i && (#[trigger] out[a]).key == (#[trigger] s[j2]).key;
                assert(out2[a].key == s[j2].key);
            } else {
                assert((#[trigger] out2[a]).key == (#[trigger] s[i]).key);
            }
        }
    }
}

/// An empty output satisfies the collapse invariant for an empty prefix.
proof fn lemma_dedup_start(s: Seq<LogQuery>, policy: ElisionPolicy)
    ensures
        dedup_prefix_ok(Seq::<LogQuery>::empty(), s, policy, 0),
{
    reveal(dedup_prefix_ok);
}

/// Once the whole stream is processed, the collapse invariant is the
/// promised contract.
proof fn lemma_dedup_finish(out: Seq<LogQuery>, s: Seq<LogQuery>, policy: ElisionPolicy)
    requires
        dedup_prefix_ok(out, s, policy, s.len() as int),
    ensures
        is_dedup_of(out, s, policy),
{
    reveal(dedup_prefix_ok);
}

/// Scans the key group starting at `i` of the sorted stream: returns the
/// end of the group, whether the group contains a write, and whether a
/// read follows a write in it. Fails at the first out-of-order timestamp
/// inside the group.
fn scan_group(s: &Vec<LogQuery>, i: usize) -> (r: Result<(usize, bool, bool), ConsistencyError>)
    requires
        sorted_kt(s@),
        0 <= i < s@.len(),
    ensures
        r is Ok ==> {
            let (j, seen_write, raw) = r->Ok_0;
            &&& i < j <= s@.len()
            &&& (forall|m: int| i <= m < j ==> (#[trigger] s@[m]).key == s@[i as int].key)
            &&& (j == s@.len() || s@[j as int].key != s@[i as int].key)
            &&& (forall|m1: int, m2: int|
                #![trigger s@[m1], s@[m2]]
                i <= m1 < m2 < j ==> s@[m1].timestamp < s@[m2].timestamp)
            &&& seen_write == group_has_write(s@.subrange(i as int, j as int))
            &&& raw == read_after_write(s@.subrange(i as int, j as int))
        },
        r is Err ==> {
            let e = r->Err_0;
            &&& i < e.index < s@.len()
            &&& s@[e.index - 1].key == s@[e.index as int].key
            &&& s@[e.index - 1].timestamp >= s@[e.index as int].timestamp
            &&& e.key == s@[e.index as int].key
            &&& (forall|m: int| i <= m <= e.index ==> (#[trigger] s@[m]).key == s@[i as int].key)
            &&& (forall|m1: int, m2: int|
                #![trigger s@[m1], s@[m2]]
                i <= m1 < m2 < e.index ==> s@[m1].timestamp < s@[m2].timestamp)
        },
{
    let n = s.len();
    let k = s[i].key_of();
    let mut seen_write = s[i].rw_flag;
    let mut raw = false;
    let mut j = i + 1;
    proof {
        if seen_write {
            assert((#[trigger] s@[i as int]).rw_flag);
        }
    }
    while j < n && s[j].key_of() == k
        invariant
            sorted_kt(s@),
            n == s@.len(),
            0 <= i < j <= s@.len(),
            i < s@.len(),
            k == s@[i as int].key,
            forall|m: int| i <= m < j ==> (#[trigger] s@[m]).key == k,
            forall|m1: int, m2: int|
                #![trigger s@[m1], s@[m2]]
                i <= m1 < m2 < j ==> s@[m1].timestamp < s@[m2].timestamp,
            seen_write == exists|m: int| i <= m < j && (#[trigger] s@[m]).rw_flag,
            raw == exists|m1: int, m2: int|
                i <= m1 < m2 < j && (#[trigger] s@[m1]).rw_flag && !(#[trigger] s@[m2]).rw_flag,
        decreases s@.len() - j,
    {
        if s[j - 1].time_of() >= s[j].time_of() {
            return Err(ConsistencyError { index: j, key: k });
        }
        let ghost raw_before = raw;
        let ghost seen_before = seen_write;
        if s[j].rw_flag {
            seen_write = true;
            proof {
                assert((#[trigger] s@[j as int]).rw_flag);
                if !raw_before {
                    assert forall|m1: int, m2: int|
                        i <= m1 < m2 < j + 1 && (#[trigger] s@[m1]).rw_flag implies (
                    #[trigger] s@[m2]).rw_flag by {
                        if m2 < j {
                            if !s@[m2].rw_flag {
                                assert(raw_before);
                            }
                        }
                    }
                }
            }
        } else {
            if seen_write {
                proof {
                    let m0 = choose|m: int| i <= m < j && (#[trigger] s@[m]).rw_flag;
                    assert((#[trigger] s@[m0]).rw_flag && !(#[trigger] s@[j as int]).rw_flag);
                    assert(i <= m0 < j + 1 && i <= j < j + 1);
                }
                raw = true;
            } else {
                proof {
                    assert forall|m1: int, m2: int|
                        i <= m1 < m2 < j + 1 implies !((#[trigger] s@[m1]).rw_flag && !(
                    #[trigger] s@[m2]).rw_flag) by {
                        if s@[m1].rw_flag {
                            assert(seen_before);
                        }
                    }
                }
            }
        }
        proof {
            assert forall|m1: int, m2: int|
                #![trigger s@[m1], s@[m2]]
                i <= m1 < m2 < j + 1 implies s@[m1].timestamp < s@[m2].timestamp by {
                if m2 == j && m1 < j - 1 {
                    assert(s@[m1].timestamp < s@[j - 1].timestamp);
                }
            }
        }
        j = j + 1;
    }
    proof {
        let g = s@.subrange(i as int, j as int);
        assert(group_has_write(g) == seen_write) by {
            if seen_write {
                let m = choose|m: int| i <= m < j && (#[trigger] s@[m]).rw_flag;
                assert((#[trigger] g[m - i]).rw_flag);
            }
            if group_has_write(g) {
                let m = choose|m: int| 0 <= m < g.len() && (#[trigger] g[m]).rw_flag;
                assert((#[trigger] s@[i + m]).rw_flag);
            }
        }
        assert(read_after_write(g) == raw) by {
            if raw {
                let (m1, m2) = choose|m1: int, m2: int|
                    i <= m1 < m2 < j && (#[trigger] s@[m1]).rw_flag && !(#[trigger] s@[m2]).rw_flag;
                assert((#[trigger] g[m1 - i]).rw_flag && !(#[trigger] g[m2 - i]).rw_flag);
            }
            if read_after_write(g) {
                let (m1, m2) = choose|m1: int, m2: int|
                    0 <= m1 < m2 < g.len() && (#[trigger] g[m1]).rw_flag && !(
                    #[trigger] g[m2]).rw_flag;
                assert((#[trigger] s@[i + m1]).rw_flag && !(#[trigger] s@[i + m2]).rw_flag);
            }
        }
    }
    Ok((j, seen_write, raw))
}

/// Collapses a sorted stream: one entry per non-elided key, carrying the
/// key's initial and final values, in strictly ascending key order.
/// Fails on the first out-of-order timestamp within a repeated key.
pub fn collapse_sorted(s: &Vec<LogQuery>, policy: ElisionPolicy) -> (r: Result<
    Vec<LogQuery>,
    ConsistencyError,
>)
    requires
        sorted_kt(s@),
    ensures
        r is Ok <==> timestamps_strict(s@),
        r is Ok ==> is_dedup_of(r->Ok_0@, s@, policy),
        r is Err ==> {
            let e = r->Err_0;
            &&& 1 <= e.index < s@.len()
            &&& s@[e.index - 1].key == s@[e.index as int].key
            &&& s@[e.index - 1].timestamp >= s@[e.index as int].timestamp
            &&& e.key == s@[e.index as int].key
            &&& timestamps_strict(s@.take(e.index as int))
        },
{
    let mut out: Vec<LogQuery> = Vec::new();
    let mut i: usize = 0;
    proof {
        lemma_dedup_start(s@, policy);
        assert(out@ =~= Seq::<LogQuery>::empty());
    }
    while i < s.len()
        invariant
            sorted_kt(s@),
            0 <= i <= s@.len(),
            i == 0 || i == s@.len() || s@[i - 1].key != s@[i as int].key,
            timestamps_strict(s@.take(i as int)),
            dedup_prefix_ok(out@, s@, policy, i as int),
        decreases s@.len() - i,
    {
        let scan = scan_group(s, i);
        match scan {
            Err(e) => {
                proof {
                    let pre = s@.take(e.index as int);
                    assert forall|a: int, b: int|
                        #![trigger pre[a], pre[b]]
                        0 <= a < b < pre.len() && pre[a].key == pre[b].key implies pre[a].timestamp
                        < pre[b].timestamp by {
                        assert(pre[a] == s@[a] && pre[b] == s@[b]);
                        if b < i {
                            let p0 = s@.take(i as int);
                            assert(p0[a] == s@[a] && p0[b] == s@[b]);
                        } else if a >= i {
                            assert(s@[a].timestamp < s@[b].timestamp);
                        } else {
                            assert((#[trigger] s@[b]).key == s@[i as int].key);
                            lemma_no_key_before(s@, i as int, a);
                        }
                    }
                    assert(!timestamps_strict(s@)) by {
                        assert(s@[e.index - 1].key == (#[trigger] s@[e.index as int]).key);
                        assert((#[trigger] s@[e.index - 1]).timestamp >= s@[e.index as int].timestamp);
                    }
                }
                return Err(e);
            },
            Ok((j, seen_write, raw)) => {
                let k = s[i].key_of();
                let first_read_value = s[i].read_value;
                let last = s[j - 1];
                let elide = match policy {
                    ElisionPolicy::ElideSilentReverts => seen_write && !raw && last.written_value
                        == first_read_value,
                    ElisionPolicy::RetainAll => false,
                };
                proof {
                    lemma_group_contiguous(s@, k, i as int, j as int);
                    let g = group_of(s@, k);
                    assert(g == s@.subrange(i as int, j as int));
                    assert(g[0] == s@[i as int]);
                    assert(g.last() == s@[j - 1]);
                    assert(elide == group_elided(g, policy));
                    lemma_dedup_step(out@, s@, policy, i as int, j as int);
                }
                if !elide {
                    let entry = LogQuery { read_value: first_read_value, ..last };
                    proof {
                        assert(entry == collapsed(group_of(s@, k)));
                    }
                    out.push(entry);
                }
                proof {
                    let pre = s@.take(j as int);
                    assert forall|a: int, b: int|
                        #![trigger pre[a], pre[b]]
                        0 <= a < b < pre.len() && pre[a].key == pre[b].key implies pre[a].timestamp
                        < pre[b].timestamp by {
                        assert(pre[a] == s@[a] && pre[b] == s@[b]);
                        if b < i {
                            let p0 = s@.take(i as int);
                            assert(p0[a] == s@[a] && p0[b] == s@[b]);
                        } else if a >= i {
                            assert(s@[a].timestamp < s@[b].timestamp);
                        } else {
                            assert((#[trigger] s@[b]).key == s@[i as int].key);
                            lemma_no_key_before(s@, i as int, a);
                        }
                    }
                }
                i = j;
            },
        }
    }
    proof {
        assert(s@.take(s@.len() as int) =~= s@);
        lemma_dedup_finish(out@, s@, policy);
    }
    Ok(out)
}

/// Sorts a destination stream by (key, timestamp) and collapses it into
/// its deduplicated companion queue. All promises are stated over the
/// pinned sorted form `sort_kt` of the input.
pub fn deduplicate(input: &Vec<LogQuery>, policy: ElisionPolicy) -> (r: Result<
    Vec<LogQuery>,
    ConsistencyError,
>)
    ensures
        r is Ok <==> timestamps_strict(sort_kt(input@)),
        r is Ok ==> is_dedup_of(r->Ok_0@, sort_kt(input@), policy),
        r is Err ==> {
            let e = r->Err_0;
            let s = sort_kt(input@);
            &&& 1 <= e.index < s.len()
            &&& s[e.index - 1].key == s[e.index as int].key
            &&& s[e.index - 1].timestamp >= s[e.index as int].timestamp
            &&& e.key == s[e.index as int].key
        },
{
    let sorted = sort_by_key_time(input);
    collapse_sorted(&sorted, policy)
}

/// A deduplicated stream that does not match the independent recomputation
/// of the sort: the streams differ at `index` (or, when `index` equals the
/// shorter length, in length).
#[derive(Clone, Copy, PartialEq, Eq, Structural, Debug)]
pub struct SelfCheckError {
    pub index: usize,
}

/// Recomputes the sorted form of `initial` independently and compares it
/// index by index against the stream another stage produced, as the
/// production debugging path does before trusting a failed circuit's
/// witness. Succeeds exactly when the two agree everywhere.
pub fn check_sort_consistency(initial: &Vec<LogQuery>, sorted: &Vec<LogQuery>) -> (r: Result<
    (),
    SelfCheckError,
>)
    ensures
        r is Ok <==> sorted@ == sort_kt(initial@),
        r is Err ==> sorted@ != sort_kt(initial@),
{
    let resorted = sort_by_key_time(initial);
    if resorted.len() != sorted.len() {
        let shorter = if resorted.len() < sorted.len() {
            resorted.len()
        } else {
            sorted.len()
        };
        proof {
            assert(sorted@.len() != sort_kt(initial@).len());
        }
        return Err(SelfCheckError { index: shorter });
    }
    let mut i: usize = 0;
    while i < sorted.len()
        invariant
            0 <= i <= sorted@.len(),
            resorted@ == sort_kt(initial@),
            resorted@.len() == sorted@.len(),
            forall|m: int| 0 <= m < i ==> (#[trigger] sorted@[m]) == resorted@[m],
        decreases sorted@.len() - i,
    {
        if !(sorted[i] == resorted[i]) {
            proof {
                assert(sorted@[i as int] != sort_kt(initial@)[i as int]);
            }
            return Err(SelfCheckError { index: i });
        }
        i = i + 1;
    }
    proof {
        assert(sorted@ =~= resorted@);
    }
    Ok(())
}

/// Streams with strictly ascending keys, the same key membership, and
/// entries determined by their key alone are identical.
proof fn lemma_strictly_keyed_unique(
    r1: Seq<LogQuery>,
    r2: Seq<LogQuery>,
    s: Seq<LogQuery>,
    policy: ElisionPolicy,
)
    requires
        forall|a: int, b: int|
            #![trigger r1[a], r1[b]]
            0 <= a < b < r1.len() ==> r1[a].key < r1[b].key,
        forall|a: int, b: int|
            #![trigger r2[a], r2[b]]
            0 <= a < b < r2.len() ==> r2[a].key < r2[b].key,
        forall|a: int|
            0 <= a < r1.len() ==> (#[trigger] r1[a]) == collapsed(group_of(s, r1[a].key)),
        forall|a: int|
            0 <= a < r2.len() ==> (#[trigger] r2[a]) == collapsed(group_of(s, r2[a].key)),
        forall|k: u64| key_present(r1, k) <==> key_present(r2, k),
    ensures
        r1 == r2,
    decreases r1.len(),
{
    if r1.len() == 0 {
        if r2.len() > 0 {
            assert(key_present(r2, r2[0].key));
            assert(key_present(r1, r2[0].key));
            let a = choose|a: int| 0 <= a < r1.len() && (#[trigger] r1[a]).key == r2[0].key;
            assert(false);
        }
        assert(r1 =~= r2);
    } else {
        assert(key_present(r1, r1[0].key)) by {
            assert((#[trigger] r1[0]).key == r1[0].key);
        }
        assert(key_present(r2, r1[0].key));
        let a2 = choose|a: int| 0 <= a < r2.len() && (#[trigger] r2[a]).key == r1[0].key;
        assert(key_present(r2, r2[0].key)) by {
            assert((#[trigger] r2[0]).key == r2[0].key);
        }
        assert(key_present(r1, r2[0].key));
        let a1 = choose|a: int| 0 <= a < r1.len() && (#[trigger] r1[a]).key == r2[0].key;
        assert(r1[0].key == r2[0].key) by {
            if a2 > 0 {
                assert(r2[0].key < r2[a2].key);
            }
            if a1 > 0 {
                assert(r1[0].key < r1[a1].key);
            }
        }
        assert(r1[0] == r2[0]);
        let t1 = r1.subrange(1, r1.len() as int);
        let t2 = r2.subrange(1, r2.len() as int);
        assert forall|k: u64| key_present(t1, k) <==> key_present(t2, k) by {
            assert(key_present(t1, k) <==> (key_present(r1, k) && k != r1[0].key)) by {
                if key_present(t1, k) {
                    let a = choose|a: int| 0 <= a < t1.len() && (#[trigger] t1[a]).key == k;
                    assert((#[trigger] r1[a + 1]).key == k);
                    assert(r1[0].key < r1[a + 1].key);
                }
                if key_present(r1, k) && k != r1[0].key {
                    let a = choose|a: int| 0 <= a < r1.len() && (#[trigger] r1[a]).key == k;
                    assert((#[trigger] t1[a - 1]).key == k);
                }
            }
            assert(key_present(t2, k) <==> (key_present(r2, k) && k != r2[0].key)) by {
                if key_present(t2, k) {
                    let a = choose|a: int| 0 <= a < t2.len() && (#[trigger] t2[a]).key == k;
                    assert((#[trigger] r2[a + 1]).key == k);
                    assert(r2[0].key < r2[a + 1].key);
                }
                if key_present(r2, k) && k != r2[0].key {
                    let a = choose|a: int| 0 <= a < r2.len() && (#[trigger] r2[a]).key == k;
                    assert((#[trigger] t2[a - 1]).key == k);
                }
            }
        }
        lemma_strictly_keyed_unique(t1, t2, s, policy);
        assert(r1 =~= r2) by {
            assert(r1.len() == r2.len());
            assert forall|i: int| 0 <= i < r1.len() implies r1[i] == r2[i] by {
                if i > 0 {
                    assert(t1[i - 1] == t2[i - 1]);
                }
            }
        }
    }
}

/// The dedup contract determines its output completely: two streams that
/// both satisfy it for the same sorted source and policy are identical,
/// so reprocessing the same source is bit-identical.
pub proof fn lemma_dedup_unique(
    r1: Seq<LogQuery>,
    r2: Seq<LogQuery>,
    s: Seq<LogQuery>,
    policy: ElisionPolicy,
)
    requires
        is_dedup_of(r1, s, policy),
        is_dedup_of(r2, s, policy),
    ensures
        r1 == r2,
{
    assert forall|k: u64| key_present(r1, k) <==> key_present(r2, k) by {
        if key_present(r1, k) {
            let a = choose|a: int| 0 <= a < r1.len() && (#[trigger] r1[a]).key == k;
            assert(key_present(s, k) && !group_elided(group_of(s, k), policy));
            let j = choose|j: int| 0 <= j < s.len() && (#[trigger] s[j]).key == k;
            assert(key_present(r2, s[j].key));
        }
        if key_present(r2, k) {
            let a = choose|a: int| 0 <= a < r2.len() && (#[trigger] r2[a]).key == k;
            assert(key_present(s, k) && !group_elided(group_of(s, k), policy));
            let j = choose|j: int| 0 <= j < s.len() && (#[trigger] s[j]).key == k;
            assert(key_present(r1, s[j].key));
        }
    }
    lemma_strictly_keyed_unique(r1, r2, s, policy);
}

/// The keys of a stream, in stream order.
pub open spec fn keys_of(s: Seq<LogQuery>) -> Seq<u64> {
    s.map_values(|q: LogQuery| q.key)
}

/// The deduplicated queue holds, as a multiset, exactly the non-elided
/// keys of the source stream, each exactly once; and (by the ascending-
/// key clause of `is_dedup_of`) it is strictly ordered.
pub proof fn lemma_dedup_key_multiset(r: Seq<LogQuery>, s: Seq<LogQuery>, policy: ElisionPolicy)
    requires
        is_dedup_of(r, s, policy),
    ensures
        forall|k: u64|
            keys_of(r).to_multiset().count(k) == if key_present(s, k) && !group_elided(
                group_of(s, k),
                policy,
            ) {
                1nat
            } else {
                0nat
            },
{
    broadcast use vstd::seq_lib::group_to_multiset_ensures;

    let km = keys_of(r);
    assert(km.len() == r.len());
    assert(km.no_duplicates()) by {
        assert forall|a: int, b: int|
            0 <= a < km.len() && 0 <= b < km.len() && a != b implies km[a] != km[b] by {
            if a < b {
                assert(r[a].key < r[b].key);
            } else {
                assert(r[b].key < r[a].key);
            }
        }
    }
    km.lemma_multiset_has_no_duplicates();
    assert forall|k: u64|
        km.to_multiset().count(k) == if key_present(s, k) && !group_elided(
            group_of(s, k),
            policy,
        ) {
            1nat
        } else {
            0nat
        } by {
        if key_present(s, k) && !group_elided(group_of(s, k), policy) {
            let j = choose|j: int| 0 <= j < s.len() && (#[trigger] s[j]).key == k;
            assert(key_present(r, k));
            let a = choose|a: int| 0 <= a < r.len() && (#[trigger] r[a]).key == k;
            assert(km[a] == k);
            assert(km.to_multiset().contains(k));
        } else {
            if km.to_multiset().count(k) > 0 {
                assert(km.contains(k));
                let a = choose|a: int| 0 <= a < km.len() && km[a] == k;
                assert(r[a].key == k);
                assert(key_present(s, k) && !group_elided(group_of(s, k), policy));
            }
        }
    }
}

} // verus!
