//! Code-decommitment stream checks and deduplication.
//!
//! A sorted decommitment stream must have non-decreasing code hashes; a
//! repeated hash must keep one page and strictly increasing timestamps.
//! Deduplication keeps the first request for each hash — later requests
//! for the same code add nothing for the proving backend.

use crate::queries::DecommittmentQuery;
use crate::sorting::{le_kt, sort_by_key_time, sort_kt, sorted_kt, Keyed};
use vstd::prelude::*;

verus! {

/// Which adjacent-pair rule a decommitment stream broke.
#[derive(Clone, Copy, PartialEq, Eq, Structural, Debug)]
pub enum DecommitViolation {
    /// Code hashes decrease between neighbours.
    UnsortedHash,
    /// A repeated hash names a different page.
    PageMismatch,
    /// A repeated hash has a non-increasing timestamp.
    TimestampOrder,
}

/// A consistency violation in a decommitment stream, at `index` of the
/// stream (the earlier entry of the offending pair is at `index - 1`).
#[derive(Clone, Copy, PartialEq, Eq, Structural, Debug)]
pub struct DecommitCheckError {
    pub index: usize,
    pub kind: DecommitViolation,
}

/// The stream is ordered by code hash, and entries sharing a hash keep
/// one page and strictly increasing timestamps.
pub open spec fn decommittments_consistent(s: Seq<DecommittmentQuery>) -> bool {
    &&& forall|a: int, b: int|
        #![trigger s[a], s[b]]
        0 <= a < b < s.len() ==> s[a].code_hash <= s[b].code_hash
    &&& forall|a: int, b: int|
        #![trigger s[a], s[b]]
        0 <= a < b < s.len() && s[a].code_hash == s[b].code_hash ==> s[a].page == s[b].page && s[a].timestamp
            < s[b].timestamp
}

/// Walks a (supposedly sorted) decommitment stream and checks, pair by
/// pair, that hashes never decrease and that a repeated hash keeps its
/// page and strictly increases its timestamp — the self-check the
/// debugging path runs over a sorted decommitment queue witness.
pub fn check_decommittment_stream(s: &Vec<DecommittmentQuery>) -> (r: Result<
    (),
    DecommitCheckError,
>)
    ensures
        r is Ok <==> decommittments_consistent(s@),
        r is Err ==> {
            let e = r->Err_0;
            &&& 1 <= e.index < s@.len()
            &&& match e.kind {
                DecommitViolation::UnsortedHash => s@[e.index - 1].code_hash > s@[e.index as int].code_hash,
                DecommitViolation::PageMismatch => s@[e.index - 1].code_hash == s@[e.index as int].code_hash
                    && s@[e.index - 1].page != s@[e.index as int].page,
                DecommitViolation::TimestampOrder => s@[e.index - 1].code_hash == s@[e.index as int].code_hash
                    && s@[e.index - 1].page == s@[e.index as int].page && s@[e.index - 1].timestamp
                    >= s@[e.index as int].timestamp,
            }
        },
{
    let n = s.len();
    if n == 0 {
        return Ok(());
    }
    let mut i: usize = 1;
    while i < n
        invariant
            n == s@.len(),
            1 <= i <= n,
            forall|a: int, b: int|
                #![trigger s@[a], s@[b]]
                0 <= a < b < i ==> s@[a].code_hash <= s@[b].code_hash,
            forall|a: int, b: int|
                #![trigger s@[a], s@[b]]
                0 <= a < b < i && s@[a].code_hash == s@[b].code_hash ==> s@[a].page == s@[b].page
                    && s@[a].timestamp < s@[b].timestamp,
        decreases n - i,
    {
        let prev = s[i - 1];
        let cur = s[i];
        if prev.code_hash > cur.code_hash {
            return Err(DecommitCheckError { index: i, kind: DecommitViolation::UnsortedHash });
        }
        if prev.code_hash == cur.code_hash {
            if prev.page != cur.page {
                return Err(DecommitCheckError { index: i, kind: DecommitViolation::PageMismatch });
            }
            if prev.timestamp >= cur.timestamp {
                return Err(
                    DecommitCheckError { index: i, kind: DecommitViolation::TimestampOrder },
                );
            }
        }
        proof {
            assert forall|a: int, b: int|
                #![trigger s@[a], s@[b]]
                0 <= a < b < i + 1 implies s@[a].code_hash <= s@[b].code_hash by {
                if b == i && a < i - 1 {
                    assert(s@[a].code_hash <= s@[i - 1].code_hash);
                }
            }
            assert forall|a: int, b: int|
                #![trigger s@[a], s@[b]]
                0 <= a < b < i + 1 && s@[a].code_hash == s@[b].code_hash implies s@[a].page
                == s@[b].page && s@[a].timestamp < s@[b].timestamp by {
                if b == i && a < i - 1 {
                    assert(s@[a].code_hash <= s@[i - 1].code_hash);
                    assert(s@[i - 1].code_hash <= s@[i as int].code_hash);
                    assert(s@[a].code_hash == s@[i - 1].code_hash);
                    assert(s@[a].page == s@[i - 1].page && s@[a].timestamp < s@[i - 1].timestamp);
                }
            }
        }
        i = i + 1;
    }
    Ok(())
}

/// The deduplicated form of a sorted decommitment stream: for every run
/// of entries sharing a code hash, the first one.
pub open spec fn dedup_first(s: Seq<DecommittmentQuery>) -> Seq<DecommittmentQuery>
    decreases s.len(),
{
    if s.len() == 0 {
        s
    } else if s.len() >= 2 && s[s.len() - 2].code_hash == s.last().code_hash {
        dedup_first(s.drop_last())
    } else {
        dedup_first(s.drop_last()).push(s.last())
    }
}

/// Keeps the first request for every code hash of a sorted decommitment
/// stream, dropping the later repeats.
pub fn dedup_decommittments(s: &Vec<DecommittmentQuery>) -> (r: Vec<DecommittmentQuery>)
    requires
        sorted_kt(s@),
    ensures
        r@ == dedup_first(s@),
{
    let mut out: Vec<DecommittmentQuery> = Vec::new();
    let mut i: usize = 0;
    proof {
        assert(s@.take(0) =~= Seq::<DecommittmentQuery>::empty());
    }
    while i < s.len()
        invariant
            0 <= i <= s@.len(),
            out@ == dedup_first(s@.take(i as int)),
        decreases s@.len() - i,
    {
        proof {
            let pre = s@.take(i + 1);
            assert(pre.drop_last() =~= s@.take(i as int));
            assert(pre.last() == s@[i as int]);
            if i >= 1 {
                assert(pre[pre.len() - 2] == s@[i - 1]);
            }
        }
        if i == 0 {
            out.push(s[i]);
        } else {
            if s[i - 1].code_hash != s[i].code_hash {
                out.push(s[i]);
            }
        }
        i = i + 1;
    }
    proof {
        assert(s@.take(s@.len() as int) =~= s@);
    }
    out
}

/// Sorts a decommitment stream by (hash, timestamp), verifies its
/// consistency, and keeps the first request per code hash. All promises
/// are stated over the pinned sorted form `sort_kt` of the input.
pub fn deduplicate_decommittments(input: &Vec<DecommittmentQuery>) -> (r: Result<
    Vec<DecommittmentQuery>,
    DecommitCheckError,
>)
    ensures
        r is Ok <==> decommittments_consistent(sort_kt(input@)),
        r is Ok ==> r->Ok_0@ == dedup_first(sort_kt(input@)),
{
    let sorted = sort_by_key_time(input);
    match check_decommittment_stream(&sorted) {
        Err(e) => Err(e),
        Ok(()) => Ok(dedup_decommittments(&sorted)),
    }
}

/// Deduplication keeps the stream ordered and keeps exactly the set of
/// code hashes: every hash of the sorted stream appears in the
/// deduplicated one, each exactly once, as its group's first entry.
#[verifier::rlimit(60)]
pub proof fn lemma_dedup_first_props(s: Seq<DecommittmentQuery>)
    requires
        sorted_kt(s),
    ensures
        forall|a: int, b: int|
            #![trigger dedup_first(s)[a], dedup_first(s)[b]]
            0 <= a < b < dedup_first(s).len() ==> dedup_first(s)[a].code_hash < dedup_first(
                s,
            )[b].code_hash,
        forall|a: int|
            0 <= a < dedup_first(s).len() ==> s.contains(#[trigger] dedup_first(s)[a]),
        forall|j: int|
            0 <= j < s.len() ==> exists|a: int|
                0 <= a < dedup_first(s).len() && (#[trigger] dedup_first(s)[a]).code_hash == (
                #[trigger] s[j]).code_hash,
        dedup_first(s).len() > 0 <==> s.len() > 0,
        dedup_first(s).len() > 0 ==> dedup_first(s)[0] == s[0],
    decreases s.len(),
{
    let d = dedup_first(s);
    if s.len() == 0 {
    } else {
        let dl = s.drop_last();
        assert(sorted_kt(dl)) by {
            assert forall|a: int, b: int| 0 <= a < b < dl.len() implies #[trigger] le_kt(
                dl[a],
                dl[b],
            ) by {
                assert(le_kt(s[a], s[b]));
            }
        }
        lemma_dedup_first_props(dl);
        let dd = dedup_first(dl);
        if s.len() >= 2 && s[s.len() - 2].code_hash == s.last().code_hash {
            assert(d == dd);
            assert forall|j: int| 0 <= j < s.len() implies exists|a: int|
                0 <= a < d.len() && (#[trigger] d[a]).code_hash == (#[trigger] s[j]).code_hash by {
                if j == s.len() - 1 {
                    let a0 = choose|a: int|
                        0 <= a < dd.len() && (#[trigger] dd[a]).code_hash == (#[trigger] dl[s.len()
                            - 2]).code_hash;
                    assert(d[a0].code_hash == s[j].code_hash);
                } else {
                    let a0 = choose|a: int|
                        0 <= a < dd.len() && (#[trigger] dd[a]).code_hash == (#[trigger] dl[j]).code_hash;
                    assert(d[a0].code_hash == s[j].code_hash);
                }
            }
            assert forall|a: int| 0 <= a < d.len() implies s.contains(#[trigger] d[a]) by {
                assert(dl.contains(d[a]));
                let j = choose|j: int| 0 <= j < dl.len() && dl[j] == d[a];
                assert(s[j] == d[a]);
            }
        } else {
            assert(d == dd.push(s.last()));
            // the new hash is strictly larger than every deduplicated hash
            assert forall|a: int| 0 <= a < dd.len() implies dd[a].code_hash
                < s.last().code_hash by {
                assert(dl.contains(dd[a]));
                let j = choose|j: int| 0 <= j < dl.len() && dl[j] == dd[a];
                assert(le_kt(s[j], s[s.len() - 1]));
                if s.len() >= 2 {
                    if j < s.len() - 2 {
                        assert(le_kt(s[j], s[s.len() - 2]));
                    }
                    assert(le_kt(s[s.len() - 2], s[s.len() - 1]));
                }
            }
            assert forall|a: int, b: int|
                #![trigger d[a], d[b]]
                0 <= a < b < d.len() implies d[a].code_hash < d[b].code_hash by {
                if b == d.len() - 1 {
                    assert(d[a] == dd[a]);
                } else {
                    assert(d[a] == dd[a] && d[b] == dd[b]);
                }
            }
            assert forall|a: int| 0 <= a < d.len() implies s.contains(#[trigger] d[a]) by {
                if a < dd.len() {
                    assert(dl.contains(dd[a]));
                    let j = choose|j: int| 0 <= j < dl.len() && dl[j] == dd[a];
                    assert(s[j] == d[a]);
                } else {
                    assert(d[a] == s[s.len() - 1]);
                }
            }
            assert forall|j: int| 0 <= j < s.len() implies exists|a: int|
                0 <= a < d.len() && (#[trigger] d[a]).code_hash == (#[trigger] s[j]).code_hash by {
                if j == s.len() - 1 {
                    assert(d[d.len() - 1].code_hash == s[j].code_hash);
                } else {
                    let a0 = choose|a: int|
                        0 <= a < dd.len() && (#[trigger] dd[a]).code_hash == (#[trigger] dl[j]).code_hash;
                    assert(d[a0].code_hash == s[j].code_hash);
                }
            }
            if dd.len() > 0 {
                assert(d[0] == dd[0]);
            }
        }
    }
}

} // verus!
