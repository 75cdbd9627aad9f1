//! Typed records for the events a virtual-machine trace emits.
//!
//! Each record carries plain values only; the fields are exactly what the
//! witness pipeline reads. Every record kind can be encoded into a fixed
//! sequence of words for the queue digest.

use vstd::prelude::*;

verus! {

/// Routing destination of a log-style query: storage, event and message
/// streams, or one specific precompile.
#[derive(Clone, Copy, PartialEq, Eq, Structural, Debug)]
pub enum QueryTag {
    RollupStorage,
    TransientStorage,
    Event,
    L1Message,
    Keccak,
    Sha256,
    Ecrecover,
    Secp256r1Verify,
    Ecadd,
    Ecmul,
    Ecpairing,
    Modexp,
}

/// A small integer code for each routing tag, used only inside the queue
/// digest encoding.
pub open spec fn tag_code(tag: QueryTag) -> u64 {
    match tag {
        QueryTag::RollupStorage => 1,
        QueryTag::TransientStorage => 2,
        QueryTag::Event => 3,
        QueryTag::L1Message => 4,
        QueryTag::Keccak => 5,
        QueryTag::Sha256 => 6,
        QueryTag::Ecrecover => 7,
        QueryTag::Secp256r1Verify => 8,
        QueryTag::Ecadd => 9,
        QueryTag::Ecmul => 10,
        QueryTag::Ecpairing => 11,
        QueryTag::Modexp => 12,
    }
}

/// The tag routes to a precompile rather than to a storage or message
/// stream.
pub open spec fn is_precompile_tag(tag: QueryTag) -> bool {
    match tag {
        QueryTag::RollupStorage => false,
        QueryTag::TransientStorage => false,
        QueryTag::Event => false,
        QueryTag::L1Message => false,
        _ => true,
    }
}

/// One observed storage, event, message or precompile-call query.
#[derive(Clone, Copy, PartialEq, Eq, Structural, Debug)]
pub struct LogQuery {
    /// Routing tag deciding the destination stream.
    pub tag: QueryTag,
    /// Shard the access belongs to.
    pub shard_id: u8,
    /// Address of the contract the access came from.
    pub address: u64,
    /// Slot key (or precompile call handle).
    pub key: u64,
    /// Value observed at the key before the access.
    pub read_value: u64,
    /// Value left at the key by the access; equals `read_value` for reads.
    pub written_value: u64,
    /// True for a write, false for a read.
    pub rw_flag: bool,
    /// The access was rolled back.
    pub rollback: bool,
    /// Monotonic trace timestamp.
    pub timestamp: u32,
}

/// One RAM access.
#[derive(Clone, Copy, PartialEq, Eq, Structural, Debug)]
pub struct MemoryQuery {
    pub address: u64,
    pub value: u64,
    /// True for a write, false for a read.
    pub rw_flag: bool,
    /// Monotonic cycle counter.
    pub cycle: u32,
}

/// One code-decommitment request.
#[derive(Clone, Copy, PartialEq, Eq, Structural, Debug)]
pub struct DecommittmentQuery {
    /// Hash of the requested bytecode; the sort key of the stream.
    pub code_hash: u64,
    /// Memory page the code was unpacked to.
    pub page: u32,
    /// Monotonic trace timestamp.
    pub timestamp: u32,
}

/// Items a queue simulator can absorb: every record kind encodes itself
/// into a fixed sequence of words.
pub trait QueueItem: Sized {
    /// The words this record contributes to the queue digest.
    spec fn encoding(&self) -> Seq<u64>;

    /// Computes the digest encoding.
    fn encode(&self) -> (r: Vec<u64>)
        ensures
            r@ == self.encoding(),
    ;
}

impl QueueItem for LogQuery {
    open spec fn encoding(&self) -> Seq<u64> {
        seq![
            tag_code(self.tag),
            self.shard_id as u64,
            self.address,
            self.key,
            self.read_value,
            self.written_value,
            if self.rw_flag { 1u64 } else { 0u64 },
            if self.rollback { 1u64 } else { 0u64 },
            self.timestamp as u64,
        ]
    }

    fn encode(&self) -> (r: Vec<u64>) {
        let mut r: Vec<u64> = Vec::new();
        r.push(self.tag.code());
        r.push(self.shard_id as u64);
        r.push(self.address);
        r.push(self.key);
        r.push(self.read_value);
        r.push(self.written_value);
        r.push(if self.rw_flag { 1u64 } else { 0u64 });
        r.push(if self.rollback { 1u64 } else { 0u64 });
        r.push(self.timestamp as u64);
        proof {
            assert(r@ =~= self.encoding());
        }
        r
    }
}

impl QueryTag {
    /// Executable form of [`tag_code`].
    pub fn code(&self) -> (c: u64)
        ensures
            c == tag_code(*self),
    {
        match self {
            QueryTag::RollupStorage => 1,
            QueryTag::TransientStorage => 2,
            QueryTag::Event => 3,
            QueryTag::L1Message => 4,
            QueryTag::Keccak => 5,
            QueryTag::Sha256 => 6,
            QueryTag::Ecrecover => 7,
            QueryTag::Secp256r1Verify => 8,
            QueryTag::Ecadd => 9,
            QueryTag::Ecmul => 10,
            QueryTag::Ecpairing => 11,
            QueryTag::Modexp => 12,
        }
    }

    /// Executable form of [`is_precompile_tag`].
    pub fn is_precompile(&self) -> (b: bool)
        ensures
            b == is_precompile_tag(*self),
    {
        match self {
            QueryTag::RollupStorage => false,
            QueryTag::TransientStorage => false,
            QueryTag::Event => false,
            QueryTag::L1Message => false,
            _ => true,
        }
    }
}

impl crate::advancing_range::TupleFirst for MemoryQuery {
    open spec fn key(&self) -> u32 {
        self.cycle
    }

    fn first(&self) -> (k: u32) {
        self.cycle
    }
}

impl QueueItem for MemoryQuery {
    open spec fn encoding(&self) -> Seq<u64> {
        seq![
            self.address,
            self.value,
            if self.rw_flag { 1u64 } else { 0u64 },
            self.cycle as u64,
        ]
    }

    fn encode(&self) -> (r: Vec<u64>) {
        let mut r: Vec<u64> = Vec::new();
        r.push(self.address);
        r.push(self.value);
        r.push(if self.rw_flag { 1u64 } else { 0u64 });
        r.push(self.cycle as u64);
        proof {
            assert(r@ =~= self.encoding());
        }
        r
    }
}

impl QueueItem for DecommittmentQuery {
    open spec fn encoding(&self) -> Seq<u64> {
        seq![self.code_hash, self.page as u64, self.timestamp as u64]
    }

    fn encode(&self) -> (r: Vec<u64>) {
        let mut r: Vec<u64> = Vec::new();
        r.push(self.code_hash);
        r.push(self.page as u64);
        r.push(self.timestamp as u64);
        proof {
            assert(r@ =~= self.encoding());
        }
        r
    }
}

} // verus!
