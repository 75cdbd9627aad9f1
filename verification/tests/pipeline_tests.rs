use witness_core::artifacts::{process, FullBlockArtifacts, GeometryConfig, PipelineError};
use witness_core::dedup::ElisionPolicy;
use witness_core::queries::{DecommittmentQuery, LogQuery, MemoryQuery, QueryTag};
use witness_core::rounds::PrecompileCall;

fn sample_calls() -> Vec<PrecompileCall> {
    vec![
        PrecompileCall { tag: QueryTag::Keccak, key: 9, payload: vec![0u8; 200], timestamp: 6 },
        PrecompileCall { tag: QueryTag::Ecrecover, key: 11, payload: vec![0u8; 128], timestamp: 7 },
    ]
}

fn geometry() -> GeometryConfig {
    GeometryConfig {
        memory_queue_capacity: 2,
        storage_capacity: 2,
        events_capacity: 2,
        l1_messages_capacity: 2,
        transient_storage_capacity: 2,
        decommits_capacity: 2,
        precompile_rounds_capacity: 4,
    }
}

fn log(tag: QueryTag, key: u64, written_value: u64, timestamp: u32) -> LogQuery {
    LogQuery {
        tag,
        shard_id: 0,
        address: 0xaa,
        key,
        read_value: 0,
        written_value,
        rw_flag: true,
        rollback: false,
        timestamp,
    }
}

fn sample_inputs() -> (Vec<MemoryQuery>, Vec<LogQuery>, Vec<DecommittmentQuery>) {
    let memory = vec![
        MemoryQuery { address: 1, value: 10, rw_flag: true, cycle: 1 },
        MemoryQuery { address: 2, value: 20, rw_flag: false, cycle: 2 },
        MemoryQuery { address: 3, value: 30, rw_flag: true, cycle: 3 },
    ];
    let logs = vec![
        log(QueryTag::RollupStorage, 7, 70, 1),
        log(QueryTag::Event, 1, 100, 2),
        log(QueryTag::RollupStorage, 3, 30, 3),
        log(QueryTag::L1Message, 2, 200, 4),
        log(QueryTag::RollupStorage, 7, 75, 5),
        log(QueryTag::Keccak, 9, 0, 6),
    ];
    let decommits = vec![
        DecommittmentQuery { code_hash: 50, page: 5, timestamp: 1 },
        DecommittmentQuery { code_hash: 40, page: 4, timestamp: 2 },
        DecommittmentQuery { code_hash: 50, page: 5, timestamp: 3 },
    ];
    (memory, logs, decommits)
}

#[test]
fn pipeline_fills_the_artifact() {
    let (memory, logs, decommits) = sample_inputs();
    let a: FullBlockArtifacts =
        process(&memory, &logs, &decommits, &sample_calls(), &geometry(), ElisionPolicy::ElideSilentReverts)
            .unwrap();
    assert!(a.is_processed);
    // demux routed each query to exactly one destination, order kept
    assert_eq!(a.demuxed_rollup_storage_queries.len(), 3);
    assert_eq!(a.demuxed_rollup_storage_queries[0].key, 7);
    assert_eq!(a.demuxed_rollup_storage_queries[1].key, 3);
    assert_eq!(a.demuxed_rollup_storage_queries[2].key, 7);
    assert_eq!(a.demuxed_event_queries.len(), 1);
    assert_eq!(a.demuxed_to_l1_queries.len(), 1);
    assert_eq!(a.demuxed_keccak_precompile_queries.len(), 1);
    assert_eq!(a.demuxed_sha256_precompile_queries.len(), 0);
    // dedup collapsed key 7 and sorted keys ascending
    assert_eq!(a.deduplicated_rollup_storage_queries.len(), 2);
    assert_eq!(a.deduplicated_rollup_storage_queries[0].key, 3);
    assert_eq!(a.deduplicated_rollup_storage_queries[1].key, 7);
    assert_eq!(a.deduplicated_rollup_storage_queries[1].written_value, 75);
    // decommit dedup kept the first request per hash, hashes ascending
    assert_eq!(a.deduplicated_decommittment_queries.len(), 2);
    assert_eq!(a.deduplicated_decommittment_queries[0].code_hash, 40);
    assert_eq!(a.deduplicated_decommittment_queries[1].code_hash, 50);
    assert_eq!(a.deduplicated_decommittment_queries[1].timestamp, 1);
    // instances: three memory queries at capacity two give two chunks
    assert_eq!(a.memory_queue_circuits_data.len(), 2);
    assert!(a.memory_queue_circuits_data[0].start_flag);
    assert!(a.memory_queue_circuits_data[1].completion_flag);
    assert_eq!(
        a.memory_queue_circuits_data[0].end_state,
        a.memory_queue_circuits_data[1].start_state
    );
    // an empty category still yields one instance with both flags
    assert_eq!(a.transient_storage_sorter_circuit_data.len(), 1);
    assert!(a.transient_storage_sorter_circuit_data[0].start_flag);
    assert!(a.transient_storage_sorter_circuit_data[0].completion_flag);
    assert_eq!(a.transient_storage_sorter_circuit_data[0].items.len(), 0);
}

#[test]
fn pipeline_is_deterministic() {
    let (memory, logs, decommits) = sample_inputs();
    let a = process(&memory, &logs, &decommits, &sample_calls(), &geometry(), ElisionPolicy::ElideSilentReverts)
        .unwrap();
    let b = process(&memory, &logs, &decommits, &sample_calls(), &geometry(), ElisionPolicy::ElideSilentReverts)
        .unwrap();
    assert_eq!(a.deduplicated_rollup_storage_queries, b.deduplicated_rollup_storage_queries);
    assert_eq!(a.memory_queue_circuits_data.len(), b.memory_queue_circuits_data.len());
    for (x, y) in a.memory_queue_circuits_data.iter().zip(b.memory_queue_circuits_data.iter()) {
        assert_eq!(x.items, y.items);
        assert_eq!(x.start_state, y.start_state);
        assert_eq!(x.end_state, y.end_state);
    }
    assert_eq!(a.memory_queue_simulator.tail_state(), b.memory_queue_simulator.tail_state());
}

#[test]
fn unsupported_shard_aborts_the_job() {
    let (memory, mut logs, decommits) = sample_inputs();
    logs[2].shard_id = 1;
    let err = match process(&memory, &logs, &decommits, &sample_calls(), &geometry(), ElisionPolicy::RetainAll) {
        Err(e) => e,
        Ok(_) => panic!("expected an error"),
    };
    match err {
        PipelineError::Shard(e) => {
            assert_eq!(e.index, 2);
            assert_eq!(e.shard_id, 1);
        },
        _ => panic!("expected a shard error"),
    }
}

#[test]
fn storage_timestamp_violation_aborts_the_job() {
    let (memory, mut logs, decommits) = sample_inputs();
    // two accesses to key 7 at the same timestamp
    logs[4].timestamp = 1;
    let err = match process(&memory, &logs, &decommits, &sample_calls(), &geometry(), ElisionPolicy::RetainAll) {
        Err(e) => e,
        Ok(_) => panic!("expected an error"),
    };
    match err {
        PipelineError::Storage(e) => {
            assert_eq!(e.key, 7);
        },
        _ => panic!("expected a storage consistency error"),
    }
}

#[test]
fn decommit_page_mismatch_aborts_the_job() {
    let (memory, logs, mut decommits) = sample_inputs();
    decommits[2].page = 6;
    let err = match process(&memory, &logs, &decommits, &sample_calls(), &geometry(), ElisionPolicy::RetainAll) {
        Err(e) => e,
        Ok(_) => panic!("expected an error"),
    };
    assert!(matches!(err, PipelineError::Decommits(_)));
}


#[test]
fn pipeline_expands_and_packs_precompile_rounds() {
    let (memory, logs, decommits) = sample_inputs();
    let a = process(
        &memory,
        &logs,
        &decommits,
        &sample_calls(),
        &geometry(),
        ElisionPolicy::RetainAll,
    )
    .unwrap();
    // the keccak call of 200 bytes expands to two rounds, the ecrecover
    // call to one
    assert_eq!(a.precompile_round_witnesses.len(), 2);
    assert_eq!(a.precompile_round_witnesses[0].len(), 2);
    assert_eq!(a.precompile_round_witnesses[1].len(), 1);
    assert_eq!(a.precompile_round_witnesses[0][1].round_index, 1);
    assert_eq!(a.precompile_round_witnesses[1][0].call_key, 11);
    // three rounds fit one instance of capacity four
    assert_eq!(a.precompile_instance_ranges, vec![(0, 2)]);
}

#[test]
fn oversized_precompile_call_is_a_capacity_error() {
    let (memory, logs, decommits) = sample_inputs();
    // a keccak payload of 5 blocks needs 6 rounds, over the capacity of 4
    let calls = vec![PrecompileCall {
        tag: QueryTag::Keccak,
        key: 9,
        payload: vec![0u8; 700],
        timestamp: 6,
    }];
    let err = match process(&memory, &logs, &decommits, &calls, &geometry(), ElisionPolicy::RetainAll)
    {
        Err(e) => e,
        Ok(_) => panic!("expected an error"),
    };
    match err {
        PipelineError::RoundCapacity(e) => {
            assert_eq!(e.index, 0);
            assert_eq!(e.rounds, 6);
        },
        _ => panic!("expected a round capacity error"),
    }
}

#[test]
fn malformed_precompile_call_aborts_the_job() {
    let (memory, logs, decommits) = sample_inputs();
    let calls = vec![PrecompileCall {
        tag: QueryTag::Ecrecover,
        key: 9,
        payload: vec![0u8; 5],
        timestamp: 6,
    }];
    let err = match process(&memory, &logs, &decommits, &calls, &geometry(), ElisionPolicy::RetainAll)
    {
        Err(e) => e,
        Ok(_) => panic!("expected an error"),
    };
    match err {
        PipelineError::MalformedCall(e) => {
            assert_eq!(e.payload_len, 5);
        },
        _ => panic!("expected a malformed call error"),
    }
}
