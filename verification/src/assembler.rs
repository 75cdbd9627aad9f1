//! Circuit-instance assembler.
//!
//! Cuts one category's accumulated queue into consecutive chunks no
//! larger than the category's configured capacity and packages each chunk
//! with the queue states at its boundaries, exactly as the queue
//! simulator recorded them. A category with no elements still yields one
//! empty instance marked both first and last, so the recursive layer has
//! a node for every category.

use crate::advancing_range::{keys_sorted, AdvancingRange, TupleFirst};
use crate::queries::{MemoryQuery, QueueItem};
use crate::queue::{state_after, QueueSimulator, QueueState};
use core::ops::Range;
use vstd::prelude::*;

verus! {

/// One capacity-bounded chunk of one category's stream, with the queue
/// states immediately before and after it, and flags marking the first
/// and last chunk of the category.
pub struct CircuitInstanceWitness<T> {
    pub items: Vec<T>,
    pub start_state: QueueState,
    pub end_state: QueueState,
    pub start_flag: bool,
    pub completion_flag: bool,
}

/// How many instances a stream of `n` elements yields under `cap`:
/// one per started chunk, and one for the empty stream.
pub open spec fn chunk_count(n: int, cap: int) -> int {
    if n == 0 {
        1
    } else {
        (n + cap - 1) / cap
    }
}

/// The smaller of two stream positions.
pub open spec fn min_int(a: int, b: int) -> int {
    if a < b {
        a
    } else {
        b
    }
}

/// What the assembler promises: `r` is the full cut of `items` under
/// capacity `cap`. Chunk `c` carries exactly the elements
/// `[c*cap, min((c+1)*cap, n))`, the queue states at those positions as
/// boundaries, and flags marking the first and last chunk.
pub open spec fn is_assembly_of<T: QueueItem>(
    r: Seq<CircuitInstanceWitness<T>>,
    items: Seq<T>,
    cap: int,
) -> bool {
    let n = items.len() as int;
    &&& r.len() == chunk_count(n, cap)
    &&& forall|c: int|
        0 <= c < r.len() ==> {
            let lo = c * cap;
            let hi = min_int(lo + cap, n);
            &&& (#[trigger] r[c]).items@ == items.subrange(lo, hi)
            &&& r[c].start_state == state_after(items.take(lo))
            &&& r[c].end_state == state_after(items.take(hi))
            &&& r[c].start_flag == (c == 0)
            &&& r[c].completion_flag == (c == r.len() - 1)
        }
}

/// Cuts the queue a simulator accumulated into capacity-bounded circuit
/// instances, stamping each with the simulator's own boundary states.
/// An empty queue yields exactly one empty instance with both flags set.
pub fn assemble_instances<T: QueueItem + Copy>(sim: &QueueSimulator<T>, capacity: usize) -> (r: Vec<
    CircuitInstanceWitness<T>,
>)
    requires
        sim.wf(),
        capacity >= 1,
    ensures
        is_assembly_of(r@, sim@, capacity as int),
{
    let items = sim.items();
    let n = items.len();
    let mut out: Vec<CircuitInstanceWitness<T>> = Vec::new();
    if n == 0 {
        let start_state = sim.checkpoint(0);
        let end_state = sim.checkpoint(0);
        let chunk = CircuitInstanceWitness {
            items: Vec::new(),
            start_state,
            end_state,
            start_flag: true,
            completion_flag: true,
        };
        proof {
            assert(sim@.take(0) =~= Seq::<T>::empty());
            assert(sim@.subrange(0, 0) =~= Seq::<T>::empty());
        }
        out.push(chunk);
        return out;
    }
    let ghost cap = capacity as int;
    let mut lo: usize = 0;
    proof {
        assert(out@.len() * cap == 0) by (nonlinear_arith)
            requires
                out@.len() == 0,
        ;
    }
    while lo < n
        invariant
            sim.wf(),
            capacity >= 1,
            cap == capacity as int,
            n == sim@.len(),
            items@ == sim@,
            lo as int == min_int(out@.len() * cap, n as int),
            n > 0,
            out@.len() >= 1 ==> (out@.len() - 1) * cap < n,
            forall|c: int|
                0 <= c < out@.len() ==> {
                    let clo = c * cap;
                    let chi = min_int(clo + cap, n as int);
                    &&& (#[trigger] out@[c]).items@ == sim@.subrange(clo, chi)
                    &&& out@[c].start_state == state_after(sim@.take(clo))
                    &&& out@[c].end_state == state_after(sim@.take(chi))
                    &&& out@[c].start_flag == (c == 0)
                    &&& out@[c].completion_flag == (chi == n as int)
                },
        decreases n - lo,
    {
        let hi = if n - lo >= capacity {
            lo + capacity
        } else {
            n
        };
        let mut chunk_items: Vec<T> = Vec::new();
        let mut m = lo;
        proof {
            assert(sim@.subrange(lo as int, lo as int) =~= Seq::<T>::empty());
        }
        while m < hi
            invariant
                lo <= m <= hi <= n,
                n == sim@.len(),
                items@ == sim@,
                chunk_items@ == sim@.subrange(lo as int, m as int),
            decreases hi - m,
        {
            proof {
                assert(sim@.subrange(lo as int, m + 1) =~= sim@.subrange(lo as int, m as int).push(
                    sim@[m as int],
                ));
            }
            chunk_items.push(items[m]);
            m = m + 1;
        }
        let start_state = sim.checkpoint(lo);
        let end_state = sim.checkpoint(hi);
        let chunk = CircuitInstanceWitness {
            items: chunk_items,
            start_state,
            end_state,
            start_flag: lo == 0,
            completion_flag: hi == n,
        };
        let ghost c_new = out@.len() as int;
        let ghost chv = chunk;
        out.push(chunk);
        proof {
            assert(c_new * cap == lo as int) by {
                if c_new * cap != lo as int {
                    assert(min_int(c_new * cap, n as int) == lo as int);
                }
            }
            assert(min_int(c_new * cap + cap, n as int) == hi as int);
            assert((c_new + 1) * cap == c_new * cap + cap) by (nonlinear_arith);
            assert((c_new == 0) == (lo == 0)) by {
                if c_new >= 1 {
                    assert(c_new * cap >= cap) by (nonlinear_arith)
                        requires
                            c_new >= 1,
                            cap >= 1,
                    ;
                }
            }
            assert forall|c: int|
                0 <= c < out@.len() implies {
                let clo = c * cap;
                let chi = min_int(clo + cap, n as int);
                &&& (#[trigger] out@[c]).items@ == sim@.subrange(clo, chi)
                &&& out@[c].start_state == state_after(sim@.take(clo))
                &&& out@[c].end_state == state_after(sim@.take(chi))
                &&& out@[c].start_flag == (c == 0)
                &&& out@[c].completion_flag == (chi == n as int)
            } by {
                if c < out@.len() - 1 {
                    assert(out@[c] == out@.subrange(0, out@.len() - 1)[c]);
                } else {
                    assert(out@[c] == chv);
                    assert(c * cap == lo as int);
                    assert(min_int(c * cap + cap, n as int) == hi as int);
                }
            }
        }
        lo = hi;
        proof {
            assert((c_new + 1) * cap == c_new * cap + cap) by (nonlinear_arith);
            assert(lo as int == min_int(out@.len() * cap, n as int));
            assert((out@.len() - 1) * cap < n as int);
        }
    }
    proof {
        let l = out@.len() as int;
        assert(l >= 1);
        assert((l - 1) * cap < n as int);
        assert(l * cap >= n as int) by {
            assert(min_int(l * cap, n as int) == lo as int);
        }
        assert(l == chunk_count(n as int, cap)) by (nonlinear_arith)
            requires
                cap >= 1,
                n as int > 0,
                (l - 1) * cap < n as int,
                l * cap >= n as int,
        ;
        assert forall|c: int| 0 <= c < l implies ((#[trigger] out@[c]).completion_flag == (c == l
            - 1)) by {
            let clo = c * cap;
            let chi = min_int(clo + cap, n as int);
            if c < l - 1 {
                assert((c + 1) * cap <= (l - 1) * cap) by (nonlinear_arith)
                    requires
                        c + 1 <= l - 1,
                        cap >= 1,
                ;
                assert((c + 1) * cap == c * cap + cap) by (nonlinear_arith);
                assert(chi < n as int);
            } else {
                assert(c * cap + cap == l * cap) by (nonlinear_arith)
                    requires
                        c == l - 1,
                ;
                assert(chi == n as int);
            }
        }
    }
    out
}

/// There is exactly one cut: two assemblies of the same stream under the
/// same capacity agree chunk for chunk, so reprocessing the same source
/// with the same geometry yields bit-identical instances.
pub proof fn lemma_assembly_deterministic<T: QueueItem>(
    r1: Seq<CircuitInstanceWitness<T>>,
    r2: Seq<CircuitInstanceWitness<T>>,
    items: Seq<T>,
    cap: int,
)
    requires
        is_assembly_of(r1, items, cap),
        is_assembly_of(r2, items, cap),
    ensures
        r1.len() == r2.len(),
        forall|c: int|
            0 <= c < r1.len() ==> (#[trigger] r1[c]).items@ == r2[c].items@ && r1[c].start_state
                == r2[c].start_state && r1[c].end_state == r2[c].end_state && r1[c].start_flag
                == r2[c].start_flag && r1[c].completion_flag == r2[c].completion_flag,
{
}

/// Each chunk's end boundary state is the next chunk's start boundary
/// state.
pub proof fn lemma_assembly_boundaries_chain<T: QueueItem>(
    r: Seq<CircuitInstanceWitness<T>>,
    items: Seq<T>,
    cap: int,
)
    requires
        cap >= 1,
        is_assembly_of(r, items, cap),
    ensures
        forall|c: int| 0 <= c < r.len() - 1 ==> (#[trigger] r[c]).end_state == r[c + 1].start_state,
{
    let n = items.len() as int;
    assert forall|c: int| 0 <= c < r.len() - 1 implies (#[trigger] r[c]).end_state == r[c
        + 1].start_state by {
        assert((c + 1) * cap == c * cap + cap) by (nonlinear_arith);
        assert(min_int(c * cap + cap, n) == (c + 1) * cap) by {
            if c * cap + cap > n {
                assert((c + 1) * cap <= (r.len() - 1) * cap) by (nonlinear_arith)
                    requires
                        c + 1 <= r.len() - 1,
                        cap >= 1,
                ;
                assert((r.len() - 1) * cap < n) by {
                    lemma_last_chunk_nonempty(r.len() as int, n, cap);
                }
            }
        }
    }
}

/// Concatenating the chunks of an assembly, in order, reproduces the
/// source stream exactly.
pub proof fn lemma_assembly_round_trip<T: QueueItem>(
    r: Seq<CircuitInstanceWitness<T>>,
    items: Seq<T>,
    cap: int,
)
    requires
        cap >= 1,
        is_assembly_of(r, items, cap),
    ensures
        r.map_values(|c: CircuitInstanceWitness<T>| c.items@).flatten() == items,
{
    let n = items.len() as int;
    lemma_flatten_prefix(r, items, cap, r.len() as int);
    assert(r.subrange(0, r.len() as int) =~= r);
    assert(min_int(r.len() * cap, n) == n) by {
        if n == 0 {
            assert(r.len() * cap >= 0) by (nonlinear_arith)
                requires
                    r.len() >= 0,
                    cap >= 1,
            ;
        } else {
            lemma_chunk_count_covers(r.len() as int, n, cap);
        }
    }
    assert(items.take(n) =~= items);
}

/// The last chunk starts before the stream's end.
proof fn lemma_last_chunk_nonempty(l: int, n: int, cap: int)
    requires
        cap >= 1,
        n > 0,
        l == chunk_count(n, cap),
    ensures
        (l - 1) * cap < n,
{
    assert((l - 1) * cap < n) by (nonlinear_arith)
        requires
            cap >= 1,
            n > 0,
            l == (n + cap - 1) / cap,
    ;
}

/// All chunks together cover the stream.
proof fn lemma_chunk_count_covers(l: int, n: int, cap: int)
    requires
        cap >= 1,
        n > 0,
        l == chunk_count(n, cap),
    ensures
        l * cap >= n,
{
    assert(l * cap >= n) by (nonlinear_arith)
        requires
            cap >= 1,
            n > 0,
            l == (n + cap - 1) / cap,
    ;
}

/// The first `m` chunks of an assembly flatten to the stream's prefix of
/// length `min(m*cap, n)`.
proof fn lemma_flatten_prefix<T: QueueItem>(
    r: Seq<CircuitInstanceWitness<T>>,
    items: Seq<T>,
    cap: int,
    m: int,
)
    requires
        cap >= 1,
        is_assembly_of(r, items, cap),
        0 <= m <= r.len(),
    ensures
        r.subrange(0, m).map_values(|c: CircuitInstanceWitness<T>| c.items@).flatten()
            == items.take(min_int(m * cap, items.len() as int)),
    decreases m,
{
    let n = items.len() as int;
    let f = |c: CircuitInstanceWitness<T>| c.items@;
    if m == 0 {
        assert(r.subrange(0, 0).map_values(f) =~= Seq::<Seq<T>>::empty());
        assert(items.take(0) =~= Seq::<T>::empty());
    } else {
        lemma_flatten_prefix(r, items, cap, m - 1);
        let prev = r.subrange(0, m - 1).map_values(f);
        let curr = r.subrange(0, m).map_values(f);
        assert(curr =~= prev.push(r[m - 1].items@));
        Seq::lemma_flatten_push(prev, r[m - 1].items@);
        let clo = (m - 1) * cap;
        let chi = min_int(clo + cap, n);
        assert(m * cap == (m - 1) * cap + cap) by (nonlinear_arith);
        assert(m * cap == clo + cap);
        assert(r[m - 1].items@ == items.subrange(clo, chi));
        assert(min_int(clo, n) == clo) by {
            if m - 1 < r.len() {
                if n > 0 {
                    lemma_last_chunk_nonempty(r.len() as int, n, cap);
                    assert((m - 1) * cap <= (r.len() - 1) * cap) by (nonlinear_arith)
                        requires
                            m - 1 <= r.len() - 1,
                            cap >= 1,
                    ;
                }
            }
        }
        assert(items.take(clo) + items.subrange(clo, chi) =~= items.take(chi));
        assert(min_int(m * cap, n) == chi);
    }
}

/// For each window of a job's cut over a cycle-sorted memory stream, the
/// index range of the queries whose cycle falls in the window. The
/// windows must advance — both bounds non-decreasing from call to call —
/// so the scanner walks the stream only once over all of them.
pub fn ranges_for_cycle_windows(queries: &[MemoryQuery], windows: &Vec<(u32, u32)>) -> (r: Vec<
    (usize, usize),
>)
    requires
        keys_sorted(queries@),
        forall|i: int| 0 <= i < windows@.len() ==> (#[trigger] windows@[i]).0 <= windows@[i].1,
        forall|i: int, j: int|
            #![trigger windows@[i], windows@[j]]
            0 <= i < j < windows@.len() ==> windows@[i].0 <= windows@[j].0 && windows@[i].1
                <= windows@[j].1,
    ensures
        r@.len() == windows@.len(),
        forall|i: int|
            0 <= i < r@.len() ==> {
                let (a, b) = #[trigger] r@[i];
                let (lo, hi) = windows@[i];
                &&& a <= b <= queries@.len()
                &&& (forall|m: int|
                    a <= m < b ==> lo <= (#[trigger] queries@[m]).key() < hi)
                &&& (forall|m: int| 0 <= m < a ==> (#[trigger] queries@[m]).key() < lo)
                &&& (forall|m: int|
                    b <= m < queries@.len() ==> (#[trigger] queries@[m]).key() >= hi)
            },
{
    let mut scanner = AdvancingRange::new(queries);
    let mut r: Vec<(usize, usize)> = Vec::new();
    let mut i: usize = 0;
    while i < windows.len()
        invariant
            scanner.wf(),
            scanner.view_data() == queries@,
            0 <= i <= windows@.len(),
            r@.len() == i,
            i == 0 ==> scanner.prev_lo() == 0 && scanner.prev_hi() == 0,
            i > 0 ==> scanner.prev_lo() == windows@[i - 1].0 && scanner.prev_hi() == windows@[i
                - 1].1,
            forall|m: int| 0 <= m < windows@.len() ==> (#[trigger] windows@[m]).0 <= windows@[m].1,
            forall|m1: int, m2: int|
                #![trigger windows@[m1], windows@[m2]]
                0 <= m1 < m2 < windows@.len() ==> windows@[m1].0 <= windows@[m2].0 && windows@[m1].1
                    <= windows@[m2].1,
            forall|m: int|
                0 <= m < i ==> {
                    let (a, b) = #[trigger] r@[m];
                    let (lo, hi) = windows@[m];
                    &&& a <= b <= queries@.len()
                    &&& (forall|p: int|
                        a <= p < b ==> lo <= (#[trigger] queries@[p]).key() < hi)
                    &&& (forall|p: int| 0 <= p < a ==> (#[trigger] queries@[p]).key() < lo)
                    &&& (forall|p: int|
                        b <= p < queries@.len() ==> (#[trigger] queries@[p]).key() >= hi)
                },
        decreases windows@.len() - i,
    {
        let (lo, hi) = windows[i];
        let g = scanner.get_range(Range { start: lo, end: hi });
        let ghost r_before = r@;
        r.push((g.start, g.end));
        proof {
            assert(r@[i as int] == (g.start, g.end));
            assert forall|m: int| 0 <= m < i + 1 implies {
                let (a, b) = #[trigger] r@[m];
                let (lo2, hi2) = windows@[m];
                &&& a <= b <= queries@.len()
                &&& (forall|p: int|
                    a <= p < b ==> lo2 <= (#[trigger] queries@[p]).key() < hi2)
                &&& (forall|p: int| 0 <= p < a ==> (#[trigger] queries@[p]).key() < lo2)
                &&& (forall|p: int|
                    b <= p < queries@.len() ==> (#[trigger] queries@[p]).key() >= hi2)
            } by {
                if m < i {
                    assert(r@[m] == r_before[m]);
                }
            }
        }
        i = i + 1;
    }
    r
}

} // verus!
