use witness_core::assembler::{assemble_instances, ranges_for_cycle_windows};
use witness_core::queries::{MemoryQuery, QueryTag};
use witness_core::queries::LogQuery;
use witness_core::queue::QueueSimulator;
use witness_core::rounds::{expand_call, pack_calls, PrecompileCall};

fn mem(address: u64, value: u64, cycle: u32) -> MemoryQuery {
    MemoryQuery { address, value, rw_flag: true, cycle }
}

#[test]
fn empty_category_yields_one_empty_instance() {
    let sim: QueueSimulator<MemoryQuery> = QueueSimulator::new();
    let instances = assemble_instances(&sim, 4);
    assert_eq!(instances.len(), 1);
    assert_eq!(instances[0].items.len(), 0);
    assert!(instances[0].start_flag);
    assert!(instances[0].completion_flag);
    assert_eq!(instances[0].start_state, instances[0].end_state);
    assert_eq!(instances[0].start_state.length, 0);
}

#[test]
fn chunks_cover_the_stream_and_chain_boundaries() {
    let mut sim: QueueSimulator<MemoryQuery> = QueueSimulator::new();
    let queries: Vec<MemoryQuery> = (0..5).map(|i| mem(i, 10 * i, i as u32)).collect();
    for q in &queries {
        sim.append(*q);
    }
    let instances = assemble_instances(&sim, 2);
    assert_eq!(instances.len(), 3);
    assert_eq!(instances[0].items, vec![queries[0], queries[1]]);
    assert_eq!(instances[1].items, vec![queries[2], queries[3]]);
    assert_eq!(instances[2].items, vec![queries[4]]);
    // flags mark exactly the first and last chunk
    assert!(instances[0].start_flag && !instances[0].completion_flag);
    assert!(!instances[1].start_flag && !instances[1].completion_flag);
    assert!(!instances[2].start_flag && instances[2].completion_flag);
    // each end boundary is the next start boundary, recorded by the simulator
    assert_eq!(instances[0].end_state, instances[1].start_state);
    assert_eq!(instances[1].end_state, instances[2].start_state);
    assert_eq!(instances[0].start_state, sim.state_at(0).unwrap());
    assert_eq!(instances[1].start_state, sim.state_at(2).unwrap());
    assert_eq!(instances[2].end_state, sim.state_at(5).unwrap());
}

#[test]
fn reprocessing_is_bit_identical() {
    let mut sim: QueueSimulator<MemoryQuery> = QueueSimulator::new();
    for i in 0..7 {
        sim.append(mem(i, i + 1, i as u32));
    }
    let a = assemble_instances(&sim, 3);
    let b = assemble_instances(&sim, 3);
    assert_eq!(a.len(), b.len());
    for (x, y) in a.iter().zip(b.iter()) {
        assert_eq!(x.items, y.items);
        assert_eq!(x.start_state, y.start_state);
        assert_eq!(x.end_state, y.end_state);
        assert_eq!(x.start_flag, y.start_flag);
        assert_eq!(x.completion_flag, y.completion_flag);
    }
}

#[test]
fn capacity_one_puts_each_element_alone() {
    let mut sim: QueueSimulator<MemoryQuery> = QueueSimulator::new();
    sim.append(mem(1, 1, 1));
    sim.append(mem(2, 2, 2));
    let instances = assemble_instances(&sim, 1);
    assert_eq!(instances.len(), 2);
    assert_eq!(instances[0].items.len(), 1);
    assert_eq!(instances[1].items.len(), 1);
}

#[test]
fn cycle_windows_pull_their_exact_query_ranges() {
    let queries: Vec<MemoryQuery> =
        [0u32, 1, 2, 4, 5, 6, 7, 9].iter().map(|c| mem(1, 1, *c)).collect();
    let windows = vec![(1u32, 5u32), (6, 11), (7, 11), (10, 100)];
    let ranges = ranges_for_cycle_windows(&queries, &windows);
    assert_eq!(ranges, vec![(1, 4), (5, 8), (6, 8), (8, 8)]);
}

#[test]
fn pack_calls_never_splits_a_call() {
    let rounds = vec![3, 2, 4, 1];
    let packing = pack_calls(&rounds, 5).unwrap();
    assert_eq!(packing, vec![(0, 2), (2, 4)]);
}

#[test]
fn pack_calls_rejects_an_oversized_call() {
    let rounds = vec![2, 6, 1];
    let err = pack_calls(&rounds, 5).unwrap_err();
    assert_eq!(err.index, 1);
    assert_eq!(err.rounds, 6);
}

#[test]
fn pack_calls_empty_stream_yields_one_empty_range() {
    let rounds: Vec<usize> = Vec::new();
    let packing = pack_calls(&rounds, 5).unwrap();
    assert_eq!(packing, vec![(0, 0)]);
}

#[test]
fn hash_round_counts_follow_the_padded_block_count() {
    let call = |tag: QueryTag, len: usize| PrecompileCall {
        tag,
        key: 1,
        payload: vec![0u8; len],
        timestamp: 1,
    };
    assert_eq!(expand_call(&call(QueryTag::Keccak, 0)).unwrap().len(), 1);
    assert_eq!(expand_call(&call(QueryTag::Keccak, 135)).unwrap().len(), 1);
    assert_eq!(expand_call(&call(QueryTag::Keccak, 136)).unwrap().len(), 2);
    assert_eq!(expand_call(&call(QueryTag::Sha256, 55)).unwrap().len(), 1);
    assert_eq!(expand_call(&call(QueryTag::Sha256, 56)).unwrap().len(), 2);
    assert_eq!(expand_call(&call(QueryTag::Ecpairing, 384)).unwrap().len(), 2);
    let rounds = expand_call(&call(QueryTag::Keccak, 200)).unwrap();
    assert_eq!(rounds.len(), 2);
    assert_eq!(rounds[0].round_index, 0);
    assert_eq!(rounds[1].round_index, 1);
    assert_eq!(rounds[1].call_key, 1);
}

#[test]
fn malformed_precompile_payload_is_rejected() {
    let bad = PrecompileCall {
        tag: QueryTag::Ecrecover,
        key: 2,
        payload: vec![0u8; 100],
        timestamp: 3,
    };
    let err = expand_call(&bad).unwrap_err();
    assert_eq!(err.tag, QueryTag::Ecrecover);
    assert_eq!(err.payload_len, 100);
    let not_precompile = PrecompileCall {
        tag: QueryTag::Event,
        key: 2,
        payload: Vec::new(),
        timestamp: 3,
    };
    assert!(expand_call(&not_precompile).is_err());
}

#[test]
fn log_stream_chunks_round_trip() {
    let mut sim: QueueSimulator<LogQuery> = QueueSimulator::new();
    let mut all: Vec<LogQuery> = Vec::new();
    for i in 0..4u64 {
        let q = LogQuery {
            tag: QueryTag::Event,
            shard_id: 0,
            address: 1,
            key: i,
            read_value: 0,
            written_value: i,
            rw_flag: true,
            rollback: false,
            timestamp: i as u32 + 1,
        };
        sim.append(q);
        all.push(q);
    }
    let instances = assemble_instances(&sim, 3);
    let mut flattened: Vec<LogQuery> = Vec::new();
    for inst in &instances {
        flattened.extend_from_slice(&inst.items);
    }
    assert_eq!(flattened, all);
}
