use witness_core::dedup::{check_sort_consistency, collapse_sorted, deduplicate, ElisionPolicy};
use witness_core::queries::{LogQuery, QueryTag};
use witness_core::sorting::sort_by_key_time;

fn storage(key: u64, read_value: u64, written_value: u64, rw_flag: bool, timestamp: u32) -> LogQuery {
    LogQuery {
        tag: QueryTag::RollupStorage,
        shard_id: 0,
        address: 0xabc,
        key,
        read_value,
        written_value,
        rw_flag,
        rollback: false,
        timestamp,
    }
}

#[test]
fn silent_revert_without_read_is_elided() {
    // two writes to one key; the second restores the initial value; no
    // read in between: the key vanishes from the deduplicated queue
    let queries = vec![
        storage(5, 10, 20, true, 1),
        storage(5, 20, 10, true, 2),
    ];
    let out = deduplicate(&queries, ElisionPolicy::ElideSilentReverts).unwrap();
    assert_eq!(out.len(), 0);
}

#[test]
fn revert_with_intervening_read_is_retained() {
    // same revert, but a read observed the written value in between: the
    // key keeps one collapsed entry
    let queries = vec![
        storage(5, 10, 20, true, 1),
        storage(5, 20, 20, false, 2),
        storage(5, 20, 10, true, 3),
    ];
    let out = deduplicate(&queries, ElisionPolicy::ElideSilentReverts).unwrap();
    assert_eq!(out.len(), 1);
    assert_eq!(out[0].key, 5);
    assert_eq!(out[0].read_value, 10);
    assert_eq!(out[0].written_value, 10);
    assert_eq!(out[0].timestamp, 3);
}

#[test]
fn retain_all_keeps_reverted_keys() {
    let queries = vec![
        storage(5, 10, 20, true, 1),
        storage(5, 20, 10, true, 2),
    ];
    let out = deduplicate(&queries, ElisionPolicy::RetainAll).unwrap();
    assert_eq!(out.len(), 1);
    assert_eq!(out[0].key, 5);
    assert_eq!(out[0].read_value, 10);
    assert_eq!(out[0].written_value, 10);
}

#[test]
fn collapse_orders_keys_ascending() {
    let queries = vec![
        storage(9, 0, 90, true, 4),
        storage(2, 0, 20, true, 1),
        storage(7, 0, 70, true, 3),
        storage(2, 20, 25, true, 5),
    ];
    let out = deduplicate(&queries, ElisionPolicy::RetainAll).unwrap();
    assert_eq!(out.len(), 3);
    assert_eq!(out[0].key, 2);
    assert_eq!(out[1].key, 7);
    assert_eq!(out[2].key, 9);
    // the collapsed entry for key 2 carries initial and final values
    assert_eq!(out[0].read_value, 0);
    assert_eq!(out[0].written_value, 25);
}

#[test]
fn repeated_timestamp_within_key_is_a_consistency_violation() {
    let queries = vec![
        storage(5, 0, 1, true, 3),
        storage(5, 1, 2, true, 3),
    ];
    let err = deduplicate(&queries, ElisionPolicy::RetainAll).unwrap_err();
    assert_eq!(err.index, 1);
    assert_eq!(err.key, 5);
}

#[test]
fn read_only_key_is_never_elided() {
    let queries = vec![storage(5, 42, 42, false, 1)];
    let out = deduplicate(&queries, ElisionPolicy::ElideSilentReverts).unwrap();
    assert_eq!(out.len(), 1);
    assert_eq!(out[0].read_value, 42);
    assert_eq!(out[0].written_value, 42);
}

#[test]
fn self_check_accepts_the_recomputed_sort() {
    let queries = vec![
        storage(9, 0, 90, true, 4),
        storage(2, 0, 20, true, 1),
        storage(7, 0, 70, true, 3),
    ];
    let sorted = sort_by_key_time(&queries);
    assert!(check_sort_consistency(&queries, &sorted).is_ok());
}

#[test]
fn self_check_rejects_a_tampered_stream() {
    let queries = vec![
        storage(9, 0, 90, true, 4),
        storage(2, 0, 20, true, 1),
        storage(7, 0, 70, true, 3),
    ];
    let mut sorted = sort_by_key_time(&queries);
    sorted[1].written_value = 999;
    let err = check_sort_consistency(&queries, &sorted).unwrap_err();
    assert_eq!(err.index, 1);
}

#[test]
fn sort_is_stable_for_equal_keys() {
    let queries = vec![
        storage(5, 1, 10, true, 3),
        storage(2, 0, 20, true, 1),
        storage(5, 2, 30, true, 3),
    ];
    let sorted = sort_by_key_time(&queries);
    assert_eq!(sorted.len(), 3);
    assert_eq!(sorted[0].key, 2);
    // the two entries with equal (key, timestamp) keep their input order
    assert_eq!(sorted[1].written_value, 10);
    assert_eq!(sorted[2].written_value, 30);
}

#[test]
fn collapse_sorted_accepts_an_empty_stream() {
    let queries: Vec<LogQuery> = Vec::new();
    let out = collapse_sorted(&queries, ElisionPolicy::ElideSilentReverts).unwrap();
    assert_eq!(out.len(), 0);
}
