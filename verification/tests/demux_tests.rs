use witness_core::demux::demux;
use witness_core::queries::{LogQuery, QueryTag};

fn query(tag: QueryTag, shard_id: u8, key: u64, timestamp: u32) -> LogQuery {
    LogQuery {
        tag,
        shard_id,
        address: 0xaa,
        key,
        read_value: 0,
        written_value: 1,
        rw_flag: true,
        rollback: false,
        timestamp,
    }
}

#[test]
fn every_query_lands_in_exactly_one_destination() {
    let input = vec![
        query(QueryTag::Event, 0, 1, 1),
        query(QueryTag::RollupStorage, 0, 2, 2),
        query(QueryTag::Event, 0, 3, 3),
        query(QueryTag::Ecrecover, 0, 4, 4),
        query(QueryTag::L1Message, 0, 5, 5),
        query(QueryTag::TransientStorage, 0, 6, 6),
    ];
    let out = demux(&input).unwrap();
    assert_eq!(out.events.len(), 2);
    assert_eq!(out.rollup_storage.len(), 1);
    assert_eq!(out.ecrecover.len(), 1);
    assert_eq!(out.l1_messages.len(), 1);
    assert_eq!(out.transient_storage.len(), 1);
    assert_eq!(out.keccak.len(), 0);
    // order is preserved per destination
    assert_eq!(out.events[0].key, 1);
    assert_eq!(out.events[1].key, 3);
    let total = out.rollup_storage.len() + out.transient_storage.len() + out.events.len()
        + out.l1_messages.len() + out.keccak.len() + out.sha256.len() + out.ecrecover.len()
        + out.secp256r1_verify.len() + out.ecadd.len() + out.ecmul.len() + out.ecpairing.len()
        + out.modexp.len();
    assert_eq!(total, input.len());
}

#[test]
fn storage_query_on_another_shard_is_refused() {
    let input = vec![
        query(QueryTag::Event, 0, 1, 1),
        query(QueryTag::Event, 7, 2, 2),
        query(QueryTag::RollupStorage, 7, 3, 3),
    ];
    // events may come from any shard; storage-style queries may not
    let err = match demux(&input) {
        Err(e) => e,
        Ok(_) => panic!("expected an error"),
    };
    assert_eq!(err.index, 2);
    assert_eq!(err.shard_id, 7);
}
