//! Round-witness generators.
//!
//! Each precompile call expands into the ordered sequence of internal
//! sub-rounds its circuit needs — one per absorption round of a sponge,
//! one per pairing, one for a fixed-size operation. The expansion is a
//! pure function of the call; a payload of the wrong shape is a
//! malformed-input failure, never a silent truncation. Because one call's
//! rounds must all land in the same circuit instance, the packer here
//! cuts by whole calls, never through one.

use crate::queries::{is_precompile_tag, QueryTag};
use vstd::prelude::*;

verus! {

/// One precompile invocation: the call handle, its raw byte payload and
/// the trace timestamp.
#[derive(Clone, PartialEq, Eq, Debug)]
pub struct PrecompileCall {
    /// Which precompile was called.
    pub tag: QueryTag,
    /// The call handle the circuit keys its rounds by.
    pub key: u64,
    /// The raw input bytes of the call.
    pub payload: Vec<u8>,
    /// Monotonic trace timestamp.
    pub timestamp: u32,
}

/// One internal sub-round of a precompile call.
#[derive(Clone, Copy, PartialEq, Eq, Structural, Debug)]
pub struct RoundWitness {
    /// The call handle this round belongs to.
    pub call_key: u64,
    /// Position of the round within its call.
    pub round_index: usize,
    /// Timestamp inherited from the call.
    pub timestamp: u32,
}

/// The payload shape each precompile accepts: hashes take any length,
/// the algebraic precompiles take fixed operand layouts, and pairing
/// takes whole point pairs.
pub open spec fn payload_well_formed(tag: QueryTag, len: nat) -> bool {
    match tag {
        QueryTag::Keccak => true,
        QueryTag::Sha256 => true,
        QueryTag::Ecrecover => len == 128,
        QueryTag::Secp256r1Verify => len == 160,
        QueryTag::Ecadd => len == 128,
        QueryTag::Ecmul => len == 96,
        QueryTag::Ecpairing => len % 192 == 0,
        QueryTag::Modexp => len == 96,
        _ => false,
    }
}

/// How many internal rounds a well-formed call of `len` payload bytes
/// expands to: one sponge absorption per padded block for the hashes,
/// one round per pairing pair, one round for the fixed-size operations.
pub open spec fn round_count(tag: QueryTag, len: nat) -> nat {
    match tag {
        QueryTag::Keccak => len / 136 + 1,
        QueryTag::Sha256 => len / 64 + 1 + if len % 64 >= 56 {
            1nat
        } else {
            0nat
        },
        QueryTag::Ecpairing => len / 192,
        _ => 1,
    }
}

/// A call whose payload does not fit its precompile's shape, or a call
/// routed to no precompile at all.
#[derive(Clone, Copy, PartialEq, Eq, Structural, Debug)]
pub struct MalformedCallError {
    /// The routing tag of the offending call.
    pub tag: QueryTag,
    /// Its payload length.
    pub payload_len: usize,
}

/// The rounds `rounds` are exactly the expansion of `call`: one witness
/// per internal round, in order, keyed by the call.
pub open spec fn is_round_expansion(rounds: Seq<RoundWitness>, call: PrecompileCall) -> bool {
    &&& rounds.len() == round_count(call.tag, call.payload@.len())
    &&& forall|i: int|
        0 <= i < rounds.len() ==> #[trigger] rounds[i] == (RoundWitness {
            call_key: call.key,
            round_index: i as usize,
            timestamp: call.timestamp,
        })
}

/// Expands one precompile call into the ordered rounds its circuit
/// consumes: round `i` carries the call's key and timestamp and its own
/// index. Deterministic in the call; fails exactly on a payload of the
/// wrong shape.
pub fn expand_call(call: &PrecompileCall) -> (r: Result<Vec<RoundWitness>, MalformedCallError>)
    ensures
        r is Ok <==> is_precompile_tag(call.tag) && payload_well_formed(
            call.tag,
            call.payload@.len(),
        ),
        r is Ok ==> is_round_expansion(r->Ok_0@, *call),
        r is Err ==> r->Err_0.tag == call.tag && r->Err_0.payload_len == call.payload@.len(),
{
    let len = call.payload.len();
    let ok = match call.tag {
        QueryTag::Keccak => true,
        QueryTag::Sha256 => true,
        QueryTag::Ecrecover => len == 128,
        QueryTag::Secp256r1Verify => len == 160,
        QueryTag::Ecadd => len == 128,
        QueryTag::Ecmul => len == 96,
        QueryTag::Ecpairing => len % 192 == 0,
        QueryTag::Modexp => len == 96,
        _ => false,
    };
    if !ok {
        return Err(MalformedCallError { tag: call.tag, payload_len: len });
    }
    let count = match call.tag {
        QueryTag::Keccak => len / 136 + 1,
        QueryTag::Sha256 => len / 64 + 1 + if len % 64 >= 56 {
            1
        } else {
            0
        },
        QueryTag::Ecpairing => len / 192,
        _ => 1,
    };
    let mut rounds: Vec<RoundWitness> = Vec::new();
    let mut i: usize = 0;
    while i < count
        invariant
            0 <= i <= count,
            rounds@.len() == i,
            forall|m: int|
                0 <= m < i ==> #[trigger] rounds@[m] == (RoundWitness {
                    call_key: call.key,
                    round_index: m as usize,
                    timestamp: call.timestamp,
                }),
        decreases count - i,
    {
        rounds.push(RoundWitness { call_key: call.key, round_index: i, timestamp: call.timestamp });
        i = i + 1;
    }
    Ok(rounds)
}

/// The total round count of the calls in `[a, b)`.
pub open spec fn sum_rounds(s: Seq<usize>, a: int, b: int) -> int
    decreases b - a,
{
    if a >= b {
        0
    } else {
        s[a] + sum_rounds(s, a + 1, b)
    }
}

/// A single call whose rounds alone exceed the per-instance capacity:
/// no packing can place it, so the geometry is wrong for this job.
#[derive(Clone, Copy, PartialEq, Eq, Structural, Debug)]
pub struct CapacityError {
    /// The offending call.
    pub index: usize,
    /// Its round count.
    pub rounds: usize,
}

/// What the packer promises of its cut `r` (a sequence of index ranges
/// over the call stream): the ranges partition the stream in order, each
/// holds at most `cap` rounds, no range is empty (except the single range
/// of an empty stream), and each range is maximal — the next call would
/// not have fit.
pub open spec fn is_call_packing(r: Seq<(usize, usize)>, rounds: Seq<usize>, cap: int) -> bool {
    let n = rounds.len() as int;
    &&& r.len() >= 1
    &&& r[0].0 == 0
    &&& r[r.len() - 1].1 == n
    &&& forall|c: int| 0 <= c < r.len() - 1 ==> (#[trigger] r[c]).1 == r[c + 1].0
    &&& forall|c: int| 0 <= c < r.len() ==> (#[trigger] r[c]).0 <= r[c].1 <= n
    &&& forall|c: int|
        0 <= c < r.len() ==> sum_rounds(rounds, (#[trigger] r[c]).0 as int, r[c].1 as int) <= cap
    &&& forall|c: int| 0 <= c < r.len() ==> ((#[trigger] r[c]).0 == r[c].1 ==> n == 0)
    &&& forall|c: int|
        0 <= c < r.len() && (#[trigger] r[c]).1 < n ==> sum_rounds(rounds, r[c].0 as int, r[c].1 as int)
            + rounds[r[c].1 as int] > cap
}

/// Extending a range by one call adds its rounds on the right.
proof fn lemma_sum_rounds_extend(s: Seq<usize>, a: int, b: int)
    requires
        0 <= a <= b < s.len(),
    ensures
        sum_rounds(s, a, b + 1) == sum_rounds(s, a, b) + s[b],
    decreases b - a,
{
    if a < b {
        lemma_sum_rounds_extend(s, a + 1, b);
    } else {
        assert(sum_rounds(s, b + 1, b + 1) == 0);
    }
}

/// Packs whole calls into circuit instances: walks the stream greedily,
/// starting a new index range whenever the next call's rounds would push
/// the current range past the capacity. A call is never split. Fails
/// exactly when some single call exceeds the capacity by itself.
pub fn pack_calls(rounds: &Vec<usize>, capacity: usize) -> (r: Result<
    Vec<(usize, usize)>,
    CapacityError,
>)
    requires
        capacity >= 1,
    ensures
        r is Ok <==> (forall|i: int| 0 <= i < rounds@.len() ==> #[trigger] rounds@[i] <= capacity),
        r is Ok ==> is_call_packing(r->Ok_0@, rounds@, capacity as int),
        r is Err ==> {
            let e = r->Err_0;
            &&& 0 <= e.index < rounds@.len()
            &&& rounds@[e.index as int] > capacity
            &&& e.rounds == rounds@[e.index as int]
            &&& forall|i: int| 0 <= i < e.index ==> #[trigger] rounds@[i] <= capacity
        },
{
    let n = rounds.len();
    let mut out: Vec<(usize, usize)> = Vec::new();
    if n == 0 {
        out.push((0, 0));
        return Ok(out);
    }
    let mut start: usize = 0;
    let mut pos: usize = 0;
    let mut used: usize = 0;
    while pos < n
        invariant
            capacity >= 1,
            n == rounds@.len(),
            n > 0,
            0 <= start <= pos <= n,
            start < n,
            used == sum_rounds(rounds@, start as int, pos as int),
            used <= capacity,
            forall|i: int| 0 <= i < pos ==> #[trigger] rounds@[i] <= capacity,
            out@.len() == 0 ==> start == 0,
            out@.len() >= 1 ==> out@[0].0 == 0,
            out@.len() >= 1 ==> out@[out@.len() - 1].1 == start,
            forall|c: int| 0 <= c < out@.len() - 1 ==> (#[trigger] out@[c]).1 == out@[c + 1].0,
            forall|c: int| 0 <= c < out@.len() ==> (#[trigger] out@[c]).0 < out@[c].1 <= n,
            forall|c: int|
                0 <= c < out@.len() ==> sum_rounds(
                    rounds@,
                    (#[trigger] out@[c]).0 as int,
                    out@[c].1 as int,
                ) <= capacity,
            forall|c: int|
                0 <= c < out@.len() ==> sum_rounds(
                    rounds@,
                    (#[trigger] out@[c]).0 as int,
                    out@[c].1 as int,
                ) + rounds@[out@[c].1 as int] > capacity,
        decreases n - pos, used,
    {
        let next = rounds[pos];
        if next > capacity {
            return Err(CapacityError { index: pos, rounds: next });
        }
        proof {
            lemma_sum_rounds_extend(rounds@, start as int, pos as int);
        }
        if next <= capacity - used {
            used = used + next;
            pos = pos + 1;
        } else {
            out.push((start, pos));
            proof {
                assert(sum_rounds(rounds@, pos as int, pos as int) == 0);
            }
            start = pos;
            used = 0;
        }
    }
    out.push((start, n));
    proof {
        assert forall|c: int| 0 <= c < out@.len() - 1 implies (#[trigger] out@[c]).1 == out@[c
            + 1].0 by {
            assert(out@[c] == out@.subrange(0, out@.len() - 1)[c]);
        }
    }
    Ok(out)
}

} // verus!
