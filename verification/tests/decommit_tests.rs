use witness_core::decommit::{
    check_decommittment_stream, dedup_decommittments, deduplicate_decommittments,
    DecommitViolation,
};
use witness_core::queries::DecommittmentQuery;
use witness_core::sorting::sort_by_key_time;

fn decommit(code_hash: u64, page: u32, timestamp: u32) -> DecommittmentQuery {
    DecommittmentQuery { code_hash, page, timestamp }
}

#[test]
fn consistent_stream_passes_the_check() {
    let s = vec![
        decommit(10, 1, 1),
        decommit(10, 1, 5),
        decommit(20, 2, 3),
        decommit(30, 3, 2),
    ];
    assert!(check_decommittment_stream(&s).is_ok());
}

#[test]
fn decreasing_hash_is_rejected() {
    let s = vec![decommit(20, 1, 1), decommit(10, 2, 2)];
    let err = check_decommittment_stream(&s).unwrap_err();
    assert_eq!(err.index, 1);
    assert_eq!(err.kind, DecommitViolation::UnsortedHash);
}

#[test]
fn repeated_hash_with_new_page_is_rejected() {
    let s = vec![decommit(10, 1, 1), decommit(10, 2, 2)];
    let err = check_decommittment_stream(&s).unwrap_err();
    assert_eq!(err.index, 1);
    assert_eq!(err.kind, DecommitViolation::PageMismatch);
}

#[test]
fn repeated_hash_with_stale_timestamp_is_rejected() {
    let s = vec![decommit(10, 1, 5), decommit(10, 1, 5)];
    let err = check_decommittment_stream(&s).unwrap_err();
    assert_eq!(err.index, 1);
    assert_eq!(err.kind, DecommitViolation::TimestampOrder);
}

#[test]
fn dedup_keeps_the_first_request_per_hash() {
    let s = vec![
        decommit(10, 1, 1),
        decommit(10, 1, 4),
        decommit(10, 1, 9),
        decommit(20, 2, 2),
    ];
    let sorted = sort_by_key_time(&s);
    let out = dedup_decommittments(&sorted);
    assert_eq!(out.len(), 2);
    assert_eq!(out[0], decommit(10, 1, 1));
    assert_eq!(out[1], decommit(20, 2, 2));
}

#[test]
fn full_decommit_pipeline_sorts_checks_and_dedups() {
    let s = vec![
        decommit(20, 2, 2),
        decommit(10, 1, 4),
        decommit(10, 1, 1),
    ];
    let out = deduplicate_decommittments(&s).unwrap();
    assert_eq!(out.len(), 2);
    assert_eq!(out[0], decommit(10, 1, 1));
    assert_eq!(out[1], decommit(20, 2, 2));
}
