//! Demultiplexer: splits the combined log queue into per-destination
//! streams.
//!
//! One linear pass routes every log-style query into exactly one
//! destination stream according to its routing tag, preserving the
//! original order within each destination. Only the base shard is
//! supported for storage-style destinations; a query against another
//! shard aborts the pass with an error naming the offending position.

use crate::queries::{LogQuery, QueryTag};
use vstd::prelude::*;

verus! {

/// The predicate selecting the queries routed to destination `t`.
pub open spec fn routed(t: QueryTag) -> spec_fn(LogQuery) -> bool {
    |q: LogQuery| q.tag == t
}

/// Storage-style destinations exist only on the base shard.
pub open spec fn shard_supported(q: LogQuery) -> bool {
    (q.tag == QueryTag::RollupStorage || q.tag == QueryTag::TransientStorage) ==> q.shard_id == 0
}

/// A storage-style query against a shard the pipeline does not support.
#[derive(Clone, Copy, PartialEq, Eq, Structural, Debug)]
pub struct UnsupportedShardError {
    /// Position of the offending query in the combined stream.
    pub index: usize,
    /// The shard it named.
    pub shard_id: u8,
}

/// The per-destination streams produced by one demux pass.
pub struct DemuxedQueues {
    pub rollup_storage: Vec<LogQuery>,
    pub transient_storage: Vec<LogQuery>,
    pub events: Vec<LogQuery>,
    pub l1_messages: Vec<LogQuery>,
    pub keccak: Vec<LogQuery>,
    pub sha256: Vec<LogQuery>,
    pub ecrecover: Vec<LogQuery>,
    pub secp256r1_verify: Vec<LogQuery>,
    pub ecadd: Vec<LogQuery>,
    pub ecmul: Vec<LogQuery>,
    pub ecpairing: Vec<LogQuery>,
    pub modexp: Vec<LogQuery>,
}

impl DemuxedQueues {
    /// The destination streams are exactly the order-preserving
    /// restrictions of `input` to each routing tag.
    pub open spec fn is_demux_of(&self, input: Seq<LogQuery>) -> bool {
        &&& self.rollup_storage@ == input.filter(routed(QueryTag::RollupStorage))
        &&& self.transient_storage@ == input.filter(routed(QueryTag::TransientStorage))
        &&& self.events@ == input.filter(routed(QueryTag::Event))
        &&& self.l1_messages@ == input.filter(routed(QueryTag::L1Message))
        &&& self.keccak@ == input.filter(routed(QueryTag::Keccak))
        &&& self.sha256@ == input.filter(routed(QueryTag::Sha256))
        &&& self.ecrecover@ == input.filter(routed(QueryTag::Ecrecover))
        &&& self.secp256r1_verify@ == input.filter(routed(QueryTag::Secp256r1Verify))
        &&& self.ecadd@ == input.filter(routed(QueryTag::Ecadd))
        &&& self.ecmul@ == input.filter(routed(QueryTag::Ecmul))
        &&& self.ecpairing@ == input.filter(routed(QueryTag::Ecpairing))
        &&& self.modexp@ == input.filter(routed(QueryTag::Modexp))
    }
}

/// Extending the input by one query extends exactly one destination
/// restriction.
proof fn lemma_filter_take_step(s: Seq<LogQuery>, t: QueryTag, i: int)
    requires
        0 <= i < s.len(),
    ensures
        s.take(i + 1).filter(routed(t)) == if s[i].tag == t {
            s.take(i).filter(routed(t)).push(s[i])
        } else {
            s.take(i).filter(routed(t))
        },
{
    reveal(Seq::filter);
    assert(s.take(i + 1).drop_last() =~= s.take(i));
    assert(s.take(i + 1).last() == s[i]);
}

/// Routes each query of the combined stream into exactly one destination
/// stream by its routing tag, preserving order per destination. Fails on
/// the first storage-style query naming an unsupported shard.
pub fn demux(input: &Vec<LogQuery>) -> (r: Result<DemuxedQueues, UnsupportedShardError>)
    ensures
        r is Ok <==> (forall|i: int| 0 <= i < input@.len() ==> shard_supported(#[trigger] input@[i])),
        r is Ok ==> r->Ok_0.is_demux_of(input@),
        r is Err ==> {
            let e = r->Err_0;
            &&& 0 <= e.index < input@.len()
            &&& !shard_supported(input@[e.index as int])
            &&& e.shard_id == input@[e.index as int].shard_id
            &&& forall|j: int| 0 <= j < e.index ==> shard_supported(#[trigger] input@[j])
        },
{
    let mut out = DemuxedQueues {
        rollup_storage: Vec::new(),
        transient_storage: Vec::new(),
        events: Vec::new(),
        l1_messages: Vec::new(),
        keccak: Vec::new(),
        sha256: Vec::new(),
        ecrecover: Vec::new(),
        secp256r1_verify: Vec::new(),
        ecadd: Vec::new(),
        ecmul: Vec::new(),
        ecpairing: Vec::new(),
        modexp: Vec::new(),
    };
    let mut i: usize = 0;
    proof {
        assert(input@.take(0) =~= Seq::<LogQuery>::empty());
        reveal(Seq::filter);
    }
    while i < input.len()
        invariant
            0 <= i <= input@.len(),
            out.is_demux_of(input@.take(i as int)),
            forall|j: int| 0 <= j < i ==> shard_supported(#[trigger] input@[j]),
        decreases input@.len() - i,
    {
        let q = input[i];
        let storage_like = match q.tag {
            QueryTag::RollupStorage => true,
            QueryTag::TransientStorage => true,
            _ => false,
        };
        if storage_like && q.shard_id != 0 {
            return Err(UnsupportedShardError { index: i, shard_id: q.shard_id });
        }
        proof {
            lemma_filter_take_step(input@, QueryTag::RollupStorage, i as int);
            lemma_filter_take_step(input@, QueryTag::TransientStorage, i as int);
            lemma_filter_take_step(input@, QueryTag::Event, i as int);
            lemma_filter_take_step(input@, QueryTag::L1Message, i as int);
            lemma_filter_take_step(input@, QueryTag::Keccak, i as int);
            lemma_filter_take_step(input@, QueryTag::Sha256, i as int);
            lemma_filter_take_step(input@, QueryTag::Ecrecover, i as int);
            lemma_filter_take_step(input@, QueryTag::Secp256r1Verify, i as int);
            lemma_filter_take_step(input@, QueryTag::Ecadd, i as int);
            lemma_filter_take_step(input@, QueryTag::Ecmul, i as int);
            lemma_filter_take_step(input@, QueryTag::Ecpairing, i as int);
            lemma_filter_take_step(input@, QueryTag::Modexp, i as int);
        }
        match q.tag {
            QueryTag::RollupStorage => out.rollup_storage.push(q),
            QueryTag::TransientStorage => out.transient_storage.push(q),
            QueryTag::Event => out.events.push(q),
            QueryTag::L1Message => out.l1_messages.push(q),
            QueryTag::Keccak => out.keccak.push(q),
            QueryTag::Sha256 => out.sha256.push(q),
            QueryTag::Ecrecover => out.ecrecover.push(q),
            QueryTag::Secp256r1Verify => out.secp256r1_verify.push(q),
            QueryTag::Ecadd => out.ecadd.push(q),
            QueryTag::Ecmul => out.ecmul.push(q),
            QueryTag::Ecpairing => out.ecpairing.push(q),
            QueryTag::Modexp => out.modexp.push(q),
        }
        i = i + 1;
    }
    proof {
        assert(input@.take(input@.len() as int) =~= input@);
    }
    Ok(out)
}

} // verus!
