//! The full-trace artifact: everything one proving job accumulates.
//!
//! Owns, for every category, the source queue, the demuxed
//! per-destination streams, the deduplicated companion queues with their
//! own simulators, and the capacity-bounded circuit instances cut from
//! them. Created empty, filled by one pipeline pass in a fixed order, and
//! read-only afterwards. A failed self-check or contract violation aborts
//! the whole job: no partial artifact is ever returned.

use crate::assembler::{assemble_instances, is_assembly_of, CircuitInstanceWitness};
use crate::decommit::{
    dedup_first, deduplicate_decommittments, decommittments_consistent, DecommitCheckError,
};
use crate::dedup::{deduplicate, is_dedup_of, timestamps_strict, ConsistencyError, ElisionPolicy};
use crate::demux::{demux, routed, shard_supported, UnsupportedShardError};
use crate::queries::{is_precompile_tag, DecommittmentQuery, LogQuery, MemoryQuery, QueryTag};
use crate::queue::{QueueSimulator, QueueState};
use crate::rounds::{
    expand_call, is_call_packing, is_round_expansion, pack_calls, payload_well_formed,
    round_count, CapacityError, MalformedCallError, PrecompileCall, RoundWitness,
};
use crate::sorting::sort_kt;
use vstd::prelude::*;

verus! {

/// Per-category capacity limits for one job: the largest element count
/// one circuit instance of the category may hold. Fixed for the duration
/// of a job.
#[derive(Clone, Copy, PartialEq, Eq, Structural, Debug)]
pub struct GeometryConfig {
    pub memory_queue_capacity: usize,
    pub storage_capacity: usize,
    pub events_capacity: usize,
    pub l1_messages_capacity: usize,
    pub transient_storage_capacity: usize,
    pub decommits_capacity: usize,
    pub precompile_rounds_capacity: usize,
}

impl GeometryConfig {
    /// Every capacity admits at least one element per instance.
    pub open spec fn wf(&self) -> bool {
        &&& self.memory_queue_capacity >= 1
        &&& self.storage_capacity >= 1
        &&& self.events_capacity >= 1
        &&& self.l1_messages_capacity >= 1
        &&& self.transient_storage_capacity >= 1
        &&& self.decommits_capacity >= 1
        &&& self.precompile_rounds_capacity >= 1
    }

    /// Checks the capacities, so unverified callers can refuse a bad
    /// configuration before starting a job.
    pub fn is_valid(&self) -> (b: bool)
        ensures
            b == self.wf(),
    {
        self.memory_queue_capacity >= 1 && self.storage_capacity >= 1 && self.events_capacity >= 1
            && self.l1_messages_capacity >= 1 && self.transient_storage_capacity >= 1
            && self.decommits_capacity >= 1 && self.precompile_rounds_capacity >= 1
    }
}

/// One category's queue: the simulator and the checkpoint state recorded
/// after each append, in append order.
pub struct LogQueue {
    pub states: Vec<QueueState>,
    pub simulator: QueueSimulator<LogQuery>,
}

impl LogQueue {
    /// The recorded states are exactly the simulator's checkpoints.
    pub open spec fn wf(&self) -> bool {
        &&& self.simulator.wf()
        &&& self.states@.len() == self.simulator@.len()
        &&& forall|i: int|
            0 <= i < self.states@.len() ==> #[trigger] self.states@[i]
                == self.simulator.spec_state_at(i + 1)
    }
}

/// Builds one category's queue by absorbing its queries in order,
/// recording the state after each.
pub fn build_log_queue(queries: &Vec<LogQuery>) -> (q: LogQueue)
    ensures
        q.wf(),
        q.simulator@ == queries@,
{
    let mut simulator: QueueSimulator<LogQuery> = QueueSimulator::new();
    let mut states: Vec<QueueState> = Vec::new();
    let mut i: usize = 0;
    while i < queries.len()
        invariant
            simulator.wf(),
            0 <= i <= queries@.len(),
            simulator@ == queries@.take(i as int),
            states@.len() == i,
            forall|m: int|
                0 <= m < i ==> #[trigger] states@[m] == simulator.spec_state_at(m + 1),
        decreases queries@.len() - i,
    {
        proof {
            assert(queries@.take(i + 1) =~= queries@.take(i as int).push(queries@[i as int]));
        }
        let ghost before = simulator@;
        let s = simulator.append(queries[i]);
        states.push(s);
        proof {
            assert forall|m: int| 0 <= m < i + 1 implies #[trigger] states@[m]
                == simulator.spec_state_at(m + 1) by {
                if m < i {
                    assert(simulator@.take(m + 1) =~= before.take(m + 1));
                } else {
                    assert(simulator@.take(m + 1) =~= simulator@);
                }
            }
        }
        i = i + 1;
    }
    proof {
        assert(queries@.take(queries@.len() as int) =~= queries@);
    }
    LogQueue { states, simulator }
}

/// Why a pipeline pass aborted: nothing of the job is returned in that
/// case.
#[derive(Clone, Copy, PartialEq, Eq, Structural, Debug)]
pub enum PipelineError {
    /// A storage-style query named an unsupported shard.
    Shard(UnsupportedShardError),
    /// The rollup-storage stream violated timestamp order within a key.
    Storage(ConsistencyError),
    /// The event stream violated timestamp order within a key.
    Events(ConsistencyError),
    /// The L1-message stream violated timestamp order within a key.
    L1Messages(ConsistencyError),
    /// The transient-storage stream violated timestamp order within a key.
    TransientStorage(ConsistencyError),
    /// The decommitment stream was inconsistent.
    Decommits(DecommitCheckError),
    /// A precompile call's payload had the wrong shape.
    MalformedCall(MalformedCallError),
    /// One precompile call alone exceeds the per-instance round capacity.
    RoundCapacity(CapacityError),
}

/// The aggregate one proving job hands to the instance assembler and the
/// recursive layer: source queues, demuxed streams, deduplicated
/// companion queues with their simulators, and the per-category circuit
/// instances.
pub struct FullBlockArtifacts {
    pub is_processed: bool,
    pub memory_queue_simulator: QueueSimulator<MemoryQuery>,
    pub original_log_queue_simulator: QueueSimulator<LogQuery>,
    /// The state recorded after each query of the combined log queue.
    pub original_log_queue_states: Vec<QueueState>,
    // demuxed log queues
    pub demuxed_rollup_storage_queries: Vec<LogQuery>,
    pub demuxed_event_queries: Vec<LogQuery>,
    pub demuxed_to_l1_queries: Vec<LogQuery>,
    pub demuxed_keccak_precompile_queries: Vec<LogQuery>,
    pub demuxed_sha256_precompile_queries: Vec<LogQuery>,
    pub demuxed_ecrecover_queries: Vec<LogQuery>,
    pub demuxed_ecadd_queries: Vec<LogQuery>,
    pub demuxed_ecmul_queries: Vec<LogQuery>,
    pub demuxed_ecpairing_queries: Vec<LogQuery>,
    pub demuxed_modexp_queries: Vec<LogQuery>,
    pub demuxed_transient_storage_queries: Vec<LogQuery>,
    pub demuxed_secp256r1_verify_queries: Vec<LogQuery>,
    // deduplicated companion queues
    pub deduplicated_rollup_storage_queries: Vec<LogQuery>,
    pub deduplicated_event_queries: Vec<LogQuery>,
    pub deduplicated_to_l1_queries: Vec<LogQuery>,
    pub deduplicated_transient_storage_queries: Vec<LogQuery>,
    pub deduplicated_decommittment_queries: Vec<DecommittmentQuery>,
    pub deduplicated_rollup_storage_queue_simulator: QueueSimulator<LogQuery>,
    pub deduplicated_to_l1_queue_simulator: QueueSimulator<LogQuery>,
    // precompile round witnesses, one expansion per call, and the cut
    // of whole calls into capacity-bounded instances
    pub precompile_round_witnesses: Vec<Vec<RoundWitness>>,
    pub precompile_instance_ranges: Vec<(usize, usize)>,
    // per-category circuit instances
    pub memory_queue_circuits_data: Vec<CircuitInstanceWitness<MemoryQuery>>,
    pub storage_deduplicator_circuit_data: Vec<CircuitInstanceWitness<LogQuery>>,
    pub events_deduplicator_circuit_data: Vec<CircuitInstanceWitness<LogQuery>>,
    pub l1_messages_deduplicator_circuit_data: Vec<CircuitInstanceWitness<LogQuery>>,
    pub transient_storage_sorter_circuit_data: Vec<CircuitInstanceWitness<LogQuery>>,
    pub code_decommitter_circuits_data: Vec<CircuitInstanceWitness<DecommittmentQuery>>,
}

/// What a completed pipeline pass guarantees of the artifact it built
/// from the given source streams under the given geometry and policy.
pub open spec fn artifact_complete(
    a: FullBlockArtifacts,
    memory_queries: Seq<MemoryQuery>,
    log_queries: Seq<LogQuery>,
    decommittment_queries: Seq<DecommittmentQuery>,
    precompile_calls: Seq<PrecompileCall>,
    geometry: GeometryConfig,
    policy: ElisionPolicy,
) -> bool {
    &&& a.is_processed
    &&& a.memory_queue_simulator.wf()
    &&& a.memory_queue_simulator@ == memory_queries
    &&& a.original_log_queue_simulator.wf()
    &&& a.original_log_queue_simulator@ == log_queries
    &&& a.original_log_queue_states@.len() == log_queries.len()
    &&& forall|i: int|
        0 <= i < a.original_log_queue_states@.len() ==> #[trigger] a.original_log_queue_states@[i]
            == crate::queue::state_after(log_queries.take(i + 1))
    // demux: order-preserving restriction per destination
    &&& a.demuxed_rollup_storage_queries@ == log_queries.filter(routed(QueryTag::RollupStorage))
    &&& a.demuxed_event_queries@ == log_queries.filter(routed(QueryTag::Event))
    &&& a.demuxed_to_l1_queries@ == log_queries.filter(routed(QueryTag::L1Message))
    &&& a.demuxed_keccak_precompile_queries@ == log_queries.filter(routed(QueryTag::Keccak))
    &&& a.demuxed_sha256_precompile_queries@ == log_queries.filter(routed(QueryTag::Sha256))
    &&& a.demuxed_ecrecover_queries@ == log_queries.filter(routed(QueryTag::Ecrecover))
    &&& a.demuxed_ecadd_queries@ == log_queries.filter(routed(QueryTag::Ecadd))
    &&& a.demuxed_ecmul_queries@ == log_queries.filter(routed(QueryTag::Ecmul))
    &&& a.demuxed_ecpairing_queries@ == log_queries.filter(routed(QueryTag::Ecpairing))
    &&& a.demuxed_modexp_queries@ == log_queries.filter(routed(QueryTag::Modexp))
    &&& a.demuxed_transient_storage_queries@ == log_queries.filter(
        routed(QueryTag::TransientStorage),
    )
    &&& a.demuxed_secp256r1_verify_queries@ == log_queries.filter(
        routed(QueryTag::Secp256r1Verify),
    )
    // dedup: collapsed companion views over the pinned sorted forms
    &&& is_dedup_of(
        a.deduplicated_rollup_storage_queries@,
        sort_kt(a.demuxed_rollup_storage_queries@),
        policy,
    )
    &&& is_dedup_of(a.deduplicated_event_queries@, sort_kt(a.demuxed_event_queries@), policy)
    &&& is_dedup_of(a.deduplicated_to_l1_queries@, sort_kt(a.demuxed_to_l1_queries@), policy)
    &&& is_dedup_of(
        a.deduplicated_transient_storage_queries@,
        sort_kt(a.demuxed_transient_storage_queries@),
        policy,
    )
    &&& a.deduplicated_decommittment_queries@ == dedup_first(sort_kt(decommittment_queries))
    // dedup queues have their own simulators
    &&& a.deduplicated_rollup_storage_queue_simulator.wf()
    &&& a.deduplicated_rollup_storage_queue_simulator@ == a.deduplicated_rollup_storage_queries@
    &&& a.deduplicated_to_l1_queue_simulator.wf()
    &&& a.deduplicated_to_l1_queue_simulator@ == a.deduplicated_to_l1_queries@
    // round witnesses: one expansion per call, calls packed whole
    &&& a.precompile_round_witnesses@.len() == precompile_calls.len()
    &&& forall|i: int|
        0 <= i < precompile_calls.len() ==> is_round_expansion(
            (#[trigger] a.precompile_round_witnesses@[i])@,
            precompile_calls[i],
        )
    &&& is_call_packing(
        a.precompile_instance_ranges@,
        precompile_calls.map_values(
            |c: PrecompileCall| round_count(c.tag, c.payload@.len()) as usize,
        ),
        geometry.precompile_rounds_capacity as int,
    )
    // circuit instances: capacity-bounded cuts with boundary states
    &&& is_assembly_of(
        a.memory_queue_circuits_data@,
        memory_queries,
        geometry.memory_queue_capacity as int,
    )
    &&& is_assembly_of(
        a.storage_deduplicator_circuit_data@,
        a.deduplicated_rollup_storage_queries@,
        geometry.storage_capacity as int,
    )
    &&& is_assembly_of(
        a.events_deduplicator_circuit_data@,
        a.deduplicated_event_queries@,
        geometry.events_capacity as int,
    )
    &&& is_assembly_of(
        a.l1_messages_deduplicator_circuit_data@,
        a.deduplicated_to_l1_queries@,
        geometry.l1_messages_capacity as int,
    )
    &&& is_assembly_of(
        a.transient_storage_sorter_circuit_data@,
        a.deduplicated_transient_storage_queries@,
        geometry.transient_storage_capacity as int,
    )
    &&& is_assembly_of(
        a.code_decommitter_circuits_data@,
        a.deduplicated_decommittment_queries@,
        geometry.decommits_capacity as int,
    )
}

/// Two instance cuts agree chunk for chunk.
pub open spec fn same_instances<T: crate::queries::QueueItem>(
    x: Seq<CircuitInstanceWitness<T>>,
    y: Seq<CircuitInstanceWitness<T>>,
) -> bool {
    &&& x.len() == y.len()
    &&& forall|c: int|
        0 <= c < x.len() ==> (#[trigger] x[c]).items@ == y[c].items@ && x[c].start_state
            == y[c].start_state && x[c].end_state == y[c].end_state && x[c].start_flag
            == y[c].start_flag && x[c].completion_flag == y[c].completion_flag
}

/// Reprocessing the same source streams under the same geometry and
/// policy yields bit-identical circuit instance witnesses: any two
/// completed artifacts for the same job agree on every deduplicated
/// stream and every instance cut.
pub proof fn lemma_artifacts_deterministic(
    a1: FullBlockArtifacts,
    a2: FullBlockArtifacts,
    memory_queries: Seq<MemoryQuery>,
    log_queries: Seq<LogQuery>,
    decommittment_queries: Seq<DecommittmentQuery>,
    precompile_calls: Seq<PrecompileCall>,
    geometry: GeometryConfig,
    policy: ElisionPolicy,
)
    requires
        artifact_complete(
            a1,
            memory_queries,
            log_queries,
            decommittment_queries,
            precompile_calls,
            geometry,
            policy,
        ),
        artifact_complete(
            a2,
            memory_queries,
            log_queries,
            decommittment_queries,
            precompile_calls,
            geometry,
            policy,
        ),
    ensures
        a1.deduplicated_rollup_storage_queries@ == a2.deduplicated_rollup_storage_queries@,
        a1.deduplicated_event_queries@ == a2.deduplicated_event_queries@,
        a1.deduplicated_to_l1_queries@ == a2.deduplicated_to_l1_queries@,
        a1.deduplicated_transient_storage_queries@ == a2.deduplicated_transient_storage_queries@,
        a1.deduplicated_decommittment_queries@ == a2.deduplicated_decommittment_queries@,
        same_instances(a1.memory_queue_circuits_data@, a2.memory_queue_circuits_data@),
        same_instances(
            a1.storage_deduplicator_circuit_data@,
            a2.storage_deduplicator_circuit_data@,
        ),
        same_instances(a1.events_deduplicator_circuit_data@, a2.events_deduplicator_circuit_data@),
        same_instances(
            a1.l1_messages_deduplicator_circuit_data@,
            a2.l1_messages_deduplicator_circuit_data@,
        ),
        same_instances(
            a1.transient_storage_sorter_circuit_data@,
            a2.transient_storage_sorter_circuit_data@,
        ),
        same_instances(a1.code_decommitter_circuits_data@, a2.code_decommitter_circuits_data@),
{
    crate::dedup::lemma_dedup_unique(
        a1.deduplicated_rollup_storage_queries@,
        a2.deduplicated_rollup_storage_queries@,
        sort_kt(log_queries.filter(routed(QueryTag::RollupStorage))),
        policy,
    );
    crate::dedup::lemma_dedup_unique(
        a1.deduplicated_event_queries@,
        a2.deduplicated_event_queries@,
        sort_kt(log_queries.filter(routed(QueryTag::Event))),
        policy,
    );
    crate::dedup::lemma_dedup_unique(
        a1.deduplicated_to_l1_queries@,
        a2.deduplicated_to_l1_queries@,
        sort_kt(log_queries.filter(routed(QueryTag::L1Message))),
        policy,
    );
    crate::dedup::lemma_dedup_unique(
        a1.deduplicated_transient_storage_queries@,
        a2.deduplicated_transient_storage_queries@,
        sort_kt(log_queries.filter(routed(QueryTag::TransientStorage))),
        policy,
    );
    crate::assembler::lemma_assembly_deterministic(
        a1.memory_queue_circuits_data@,
        a2.memory_queue_circuits_data@,
        memory_queries,
        geometry.memory_queue_capacity as int,
    );
    crate::assembler::lemma_assembly_deterministic(
        a1.storage_deduplicator_circuit_data@,
        a2.storage_deduplicator_circuit_data@,
        a1.deduplicated_rollup_storage_queries@,
        geometry.storage_capacity as int,
    );
    crate::assembler::lemma_assembly_deterministic(
        a1.events_deduplicator_circuit_data@,
        a2.events_deduplicator_circuit_data@,
        a1.deduplicated_event_queries@,
        geometry.events_capacity as int,
    );
    crate::assembler::lemma_assembly_deterministic(
        a1.l1_messages_deduplicator_circuit_data@,
        a2.l1_messages_deduplicator_circuit_data@,
        a1.deduplicated_to_l1_queries@,
        geometry.l1_messages_capacity as int,
    );
    crate::assembler::lemma_assembly_deterministic(
        a1.transient_storage_sorter_circuit_data@,
        a2.transient_storage_sorter_circuit_data@,
        a1.deduplicated_transient_storage_queries@,
        geometry.transient_storage_capacity as int,
    );
    crate::assembler::lemma_assembly_deterministic(
        a1.code_decommitter_circuits_data@,
        a2.code_decommitter_circuits_data@,
        a1.deduplicated_decommittment_queries@,
        geometry.decommits_capacity as int,
    );
}

/// Runs one full pipeline pass: accumulates the source queues, demuxes
/// the log stream, builds the deduplicated companion queues and their
/// simulators, and cuts every category into circuit instances. Aborts on
/// the first contract violation or failed consistency check; succeeds
/// exactly when the trace is routable and every stream passes its checks.
pub fn process(
    memory_queries: &Vec<MemoryQuery>,
    log_queries: &Vec<LogQuery>,
    decommittment_queries: &Vec<DecommittmentQuery>,
    precompile_calls: &Vec<PrecompileCall>,
    geometry: &GeometryConfig,
    policy: ElisionPolicy,
) -> (r: Result<FullBlockArtifacts, PipelineError>)
    requires
        geometry.wf(),
    ensures
        r is Ok <==> {
            &&& (forall|i: int|
                0 <= i < log_queries@.len() ==> shard_supported(#[trigger] log_queries@[i]))
            &&& timestamps_strict(sort_kt(log_queries@.filter(routed(QueryTag::RollupStorage))))
            &&& timestamps_strict(sort_kt(log_queries@.filter(routed(QueryTag::Event))))
            &&& timestamps_strict(sort_kt(log_queries@.filter(routed(QueryTag::L1Message))))
            &&& timestamps_strict(
                sort_kt(log_queries@.filter(routed(QueryTag::TransientStorage))),
            )
            &&& decommittments_consistent(sort_kt(decommittment_queries@))
            &&& (forall|i: int|
                0 <= i < precompile_calls@.len() ==> is_precompile_tag(
                    (#[trigger] precompile_calls@[i]).tag,
                ) && payload_well_formed(
                    precompile_calls@[i].tag,
                    precompile_calls@[i].payload@.len(),
                ))
            &&& (forall|i: int|
                0 <= i < precompile_calls@.len() ==> round_count(
                    (#[trigger] precompile_calls@[i]).tag,
                    precompile_calls@[i].payload@.len(),
                ) <= geometry.precompile_rounds_capacity)
        },
        r is Ok ==> artifact_complete(
            r->Ok_0,
            memory_queries@,
            log_queries@,
            decommittment_queries@,
            precompile_calls@,
            *geometry,
            policy,
        ),
{
    // accumulate the source queues
    let mut memory_queue_simulator: QueueSimulator<MemoryQuery> = QueueSimulator::new();
    let mut i: usize = 0;
    while i < memory_queries.len()
        invariant
            memory_queue_simulator.wf(),
            0 <= i <= memory_queries@.len(),
            memory_queue_simulator@ == memory_queries@.take(i as int),
        decreases memory_queries@.len() - i,
    {
        proof {
            assert(memory_queries@.take(i + 1) =~= memory_queries@.take(i as int).push(
                memory_queries@[i as int],
            ));
        }
        memory_queue_simulator.append(memory_queries[i]);
        i = i + 1;
    }
    proof {
        assert(memory_queries@.take(memory_queries@.len() as int) =~= memory_queries@);
    }
    let original_log_queue = build_log_queue(log_queries);
    // demux
    let demuxed = match demux(log_queries) {
        Ok(d) => d,
        Err(e) => {
            return Err(PipelineError::Shard(e));
        },
    };
    // deduplicated companion queues
    let deduplicated_rollup_storage_queries = match deduplicate(&demuxed.rollup_storage, policy) {
        Ok(v) => v,
        Err(e) => {
            return Err(PipelineError::Storage(e));
        },
    };
    let deduplicated_event_queries = match deduplicate(&demuxed.events, policy) {
        Ok(v) => v,
        Err(e) => {
            return Err(PipelineError::Events(e));
        },
    };
    let deduplicated_to_l1_queries = match deduplicate(&demuxed.l1_messages, policy) {
        Ok(v) => v,
        Err(e) => {
            return Err(PipelineError::L1Messages(e));
        },
    };
    let deduplicated_transient_storage_queries = match deduplicate(
        &demuxed.transient_storage,
        policy,
    ) {
        Ok(v) => v,
        Err(e) => {
            return Err(PipelineError::TransientStorage(e));
        },
    };
    let deduplicated_decommittment_queries = match deduplicate_decommittments(
        decommittment_queries,
    ) {
        Ok(v) => v,
        Err(e) => {
            return Err(PipelineError::Decommits(e));
        },
    };
    // expand every precompile call and pack whole calls into instances
    let mut precompile_round_witnesses: Vec<Vec<RoundWitness>> = Vec::new();
    let mut round_counts: Vec<usize> = Vec::new();
    let mut c: usize = 0;
    while c < precompile_calls.len()
        invariant
            0 <= c <= precompile_calls@.len(),
            precompile_round_witnesses@.len() == c,
            round_counts@.len() == c,
            forall|m: int|
                0 <= m < c ==> is_round_expansion(
                    (#[trigger] precompile_round_witnesses@[m])@,
                    precompile_calls@[m],
                ),
            forall|m: int|
                0 <= m < c ==> (#[trigger] round_counts@[m]) as nat == round_count(
                    precompile_calls@[m].tag,
                    precompile_calls@[m].payload@.len(),
                ),
            forall|m: int|
                0 <= m < c ==> is_precompile_tag((#[trigger] precompile_calls@[m]).tag)
                    && payload_well_formed(
                    precompile_calls@[m].tag,
                    precompile_calls@[m].payload@.len(),
                ),
        decreases precompile_calls@.len() - c,
    {
        let expanded = match expand_call(&precompile_calls[c]) {
            Ok(v) => v,
            Err(e) => {
                proof {
                    assert(!(is_precompile_tag((#[trigger] precompile_calls@[c as int]).tag)
                        && payload_well_formed(
                        precompile_calls@[c as int].tag,
                        precompile_calls@[c as int].payload@.len(),
                    )));
                }
                return Err(PipelineError::MalformedCall(e));
            },
        };
        round_counts.push(expanded.len());
        precompile_round_witnesses.push(expanded);
        c = c + 1;
    }
    let precompile_instance_ranges = match pack_calls(
        &round_counts,
        geometry.precompile_rounds_capacity,
    ) {
        Ok(v) => v,
        Err(e) => {
            proof {
                let i = e.index as int;
                assert(round_counts@[i] as nat == round_count(
                    precompile_calls@[i].tag,
                    precompile_calls@[i].payload@.len(),
                ));
                assert(round_count(
                    (#[trigger] precompile_calls@[i]).tag,
                    precompile_calls@[i].payload@.len(),
                ) > geometry.precompile_rounds_capacity);
            }
            return Err(PipelineError::RoundCapacity(e));
        },
    };
    proof {
        let mapped = precompile_calls@.map_values(
            |q: PrecompileCall| round_count(q.tag, q.payload@.len()) as usize,
        );
        assert(round_counts@ =~= mapped) by {
            assert forall|m: int| 0 <= m < round_counts@.len() implies round_counts@[m]
                == mapped[m] by {
                assert(round_counts@[m] as nat == round_count(
                    precompile_calls@[m].tag,
                    precompile_calls@[m].payload@.len(),
                ));
            }
        }
        assert forall|i: int| 0 <= i < precompile_calls@.len() implies round_count(
            (#[trigger] precompile_calls@[i]).tag,
            precompile_calls@[i].payload@.len(),
        ) <= geometry.precompile_rounds_capacity by {
            assert(round_counts@[i] <= geometry.precompile_rounds_capacity);
        }
    }
    let dedup_storage_queue = build_log_queue(&deduplicated_rollup_storage_queries);
    let dedup_l1_queue = build_log_queue(&deduplicated_to_l1_queries);
    // decommit queue simulator for instance boundaries
    let mut decommit_sim: QueueSimulator<DecommittmentQuery> = QueueSimulator::new();
    let mut j: usize = 0;
    while j < deduplicated_decommittment_queries.len()
        invariant
            decommit_sim.wf(),
            0 <= j <= deduplicated_decommittment_queries@.len(),
            decommit_sim@ == deduplicated_decommittment_queries@.take(j as int),
        decreases deduplicated_decommittment_queries@.len() - j,
    {
        proof {
            assert(deduplicated_decommittment_queries@.take(j + 1)
                =~= deduplicated_decommittment_queries@.take(j as int).push(
                deduplicated_decommittment_queries@[j as int],
            ));
        }
        decommit_sim.append(deduplicated_decommittment_queries[j]);
        j = j + 1;
    }
    proof {
        assert(deduplicated_decommittment_queries@.take(
            deduplicated_decommittment_queries@.len() as int,
        ) =~= deduplicated_decommittment_queries@);
    }
    // circuit instances
    let memory_queue_circuits_data = assemble_instances(
        &memory_queue_simulator,
        geometry.memory_queue_capacity,
    );
    let storage_deduplicator_circuit_data = assemble_instances(
        &dedup_storage_queue.simulator,
        geometry.storage_capacity,
    );
    let dedup_events_queue = build_log_queue(&deduplicated_event_queries);
    let events_deduplicator_circuit_data = assemble_instances(
        &dedup_events_queue.simulator,
        geometry.events_capacity,
    );
    let l1_messages_deduplicator_circuit_data = assemble_instances(
        &dedup_l1_queue.simulator,
        geometry.l1_messages_capacity,
    );
    let dedup_transient_queue = build_log_queue(&deduplicated_transient_storage_queries);
    let transient_storage_sorter_circuit_data = assemble_instances(
        &dedup_transient_queue.simulator,
        geometry.transient_storage_capacity,
    );
    let code_decommitter_circuits_data = assemble_instances(
        &decommit_sim,
        geometry.decommits_capacity,
    );
    Ok(
        FullBlockArtifacts {
            is_processed: true,
            memory_queue_simulator,
            original_log_queue_simulator: original_log_queue.simulator,
            original_log_queue_states: original_log_queue.states,
            demuxed_rollup_storage_queries: demuxed.rollup_storage,
            demuxed_event_queries: demuxed.events,
            demuxed_to_l1_queries: demuxed.l1_messages,
            demuxed_keccak_precompile_queries: demuxed.keccak,
            demuxed_sha256_precompile_queries: demuxed.sha256,
            demuxed_ecrecover_queries: demuxed.ecrecover,
            demuxed_ecadd_queries: demuxed.ecadd,
            demuxed_ecmul_queries: demuxed.ecmul,
            demuxed_ecpairing_queries: demuxed.ecpairing,
            demuxed_modexp_queries: demuxed.modexp,
            demuxed_transient_storage_queries: demuxed.transient_storage,
            demuxed_secp256r1_verify_queries: demuxed.secp256r1_verify,
            deduplicated_rollup_storage_queries,
            deduplicated_event_queries,
            deduplicated_to_l1_queries,
            deduplicated_transient_storage_queries,
            deduplicated_decommittment_queries,
            deduplicated_rollup_storage_queue_simulator: dedup_storage_queue.simulator,
            deduplicated_to_l1_queue_simulator: dedup_l1_queue.simulator,
            precompile_round_witnesses,
            precompile_instance_ranges,
            memory_queue_circuits_data,
            storage_deduplicator_circuit_data,
            events_deduplicator_circuit_data,
            l1_messages_deduplicator_circuit_data,
            transient_storage_sorter_circuit_data,
            code_decommitter_circuits_data,
        },
    )
}

} // verus!
