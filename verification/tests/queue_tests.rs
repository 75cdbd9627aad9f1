use witness_core::queries::{LogQuery, QueryTag};
use witness_core::queue::QueueSimulator;

fn storage_write(key: u64, read_value: u64, written_value: u64, timestamp: u32) -> LogQuery {
    LogQuery {
        tag: QueryTag::RollupStorage,
        shard_id: 0,
        address: 0xabc,
        key,
        read_value,
        written_value,
        rw_flag: true,
        rollback: false,
        timestamp,
    }
}

#[test]
fn state_at_is_a_function_of_the_prefix() {
    let q1 = storage_write(1, 0, 10, 1);
    let q2 = storage_write(2, 0, 20, 2);
    let q3 = storage_write(3, 0, 30, 3);
    let q4 = storage_write(9, 0, 90, 9);

    let mut a: QueueSimulator<LogQuery> = QueueSimulator::new();
    a.append(q1);
    a.append(q2);
    a.append(q3);

    let mut b: QueueSimulator<LogQuery> = QueueSimulator::new();
    b.append(q1);
    b.append(q2);
    b.append(q4);

    // the first two checkpoints agree whatever was appended afterwards
    assert_eq!(a.state_at(0).unwrap(), b.state_at(0).unwrap());
    assert_eq!(a.state_at(1).unwrap(), b.state_at(1).unwrap());
    assert_eq!(a.state_at(2).unwrap(), b.state_at(2).unwrap());
    // the third differs: the queues diverged there
    assert_ne!(a.state_at(3).unwrap(), b.state_at(3).unwrap());
}

#[test]
fn state_at_zero_is_the_empty_state() {
    let sim: QueueSimulator<LogQuery> = QueueSimulator::new();
    let s = sim.state_at(0).unwrap();
    assert_eq!(s.digest, 0);
    assert_eq!(s.length, 0);
}

#[test]
fn state_at_out_of_range_fails() {
    let mut sim: QueueSimulator<LogQuery> = QueueSimulator::new();
    sim.append(storage_write(1, 0, 1, 1));
    let err = sim.state_at(2).unwrap_err();
    assert_eq!(err.requested, 2);
    assert_eq!(err.length, 1);
}

#[test]
fn tail_state_matches_last_checkpoint() {
    let mut sim: QueueSimulator<LogQuery> = QueueSimulator::new();
    sim.append(storage_write(1, 0, 1, 1));
    sim.append(storage_write(2, 0, 2, 2));
    assert_eq!(sim.tail_state(), sim.state_at(2).unwrap());
    assert_eq!(sim.len(), 2);
    assert_eq!(sim.tail_state().length, 2);
}

#[test]
fn append_returns_the_new_state() {
    let mut sim: QueueSimulator<LogQuery> = QueueSimulator::new();
    let s1 = sim.append(storage_write(7, 0, 7, 7));
    assert_eq!(s1, sim.state_at(1).unwrap());
    assert_eq!(s1.length, 1);
    assert_ne!(s1.digest, 0);
}
