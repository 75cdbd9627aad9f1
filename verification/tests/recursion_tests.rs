use witness_core::assembler::assemble_instances;
use witness_core::queries::MemoryQuery;
use witness_core::queue::QueueSimulator;
use witness_core::recursion::{
    bind_payload, build_recursion_queue, recursion_requests_for, verify, verify_layer_proofs,
    RecursionProof, RecursionRequest, VerificationKey,
};

fn node_vk() -> VerificationKey {
    VerificationKey { layer_kind: 3, seed: 0x5eed }
}

fn valid_proof(payload: Vec<u64>) -> RecursionProof {
    let vk = node_vk();
    let binding = bind_payload(&vk, &payload);
    RecursionProof { layer_kind: 3, payload, binding }
}

#[test]
fn valid_proofs_verify_and_mutated_payloads_do_not() {
    let vk = node_vk();
    let proofs = vec![
        valid_proof(vec![1, 2, 3]),
        valid_proof(vec![4, 5]),
        valid_proof(vec![]),
    ];
    for p in &proofs {
        assert!(verify(3, p, &vk));
    }
    assert!(verify_layer_proofs(3, &proofs, &vk).is_ok());

    let mut tampered = proofs.clone();
    tampered[1].payload[0] = 999;
    assert!(!verify(3, &tampered[1], &vk));
    let err = verify_layer_proofs(3, &tampered, &vk).unwrap_err();
    assert_eq!(err.index, 1);
}

#[test]
fn verify_rejects_the_wrong_layer() {
    let vk = node_vk();
    let p = valid_proof(vec![7]);
    assert!(verify(3, &p, &vk));
    assert!(!verify(4, &p, &vk));
    let other_vk = VerificationKey { layer_kind: 4, seed: 0x5eed };
    assert!(!verify(3, &p, &other_vk));
}

#[test]
fn verify_rejects_a_foreign_key() {
    let vk = node_vk();
    let p = valid_proof(vec![7, 8]);
    let foreign = VerificationKey { layer_kind: 3, seed: 0xbad };
    assert!(!verify(3, &p, &foreign));
}

#[test]
fn recursion_queue_state_binds_the_request_list() {
    let requests = vec![
        RecursionRequest { circuit_kind: 1, instance_index: 0, input_digest: 11 },
        RecursionRequest { circuit_kind: 1, instance_index: 1, input_digest: 22 },
    ];
    let a = build_recursion_queue(&requests);
    let b = build_recursion_queue(&requests);
    assert_eq!(a.tail_state(), b.tail_state());
    assert_eq!(a.tail_state().length, 2);

    let mut other = requests.clone();
    other[1].input_digest = 23;
    let c = build_recursion_queue(&other);
    assert_ne!(a.tail_state(), c.tail_state());
}

#[test]
fn one_request_per_instance_binds_its_boundaries() {
    let mut sim: QueueSimulator<MemoryQuery> = QueueSimulator::new();
    for i in 0..3u64 {
        sim.append(MemoryQuery { address: i, value: i, rw_flag: true, cycle: i as u32 });
    }
    let instances = assemble_instances(&sim, 2);
    assert_eq!(instances.len(), 2);
    let requests = recursion_requests_for(7, &instances);
    assert_eq!(requests.len(), 2);
    assert_eq!(requests[0].circuit_kind, 7);
    assert_eq!(requests[0].instance_index, 0);
    assert_eq!(requests[1].instance_index, 1);
    // different boundary states bind to different digests
    assert_ne!(requests[0].input_digest, requests[1].input_digest);
    let queue = build_recursion_queue(&requests);
    assert_eq!(queue.tail_state().length, 2);
}

#[test]
fn recursion_queue_exposes_prefix_states() {
    let requests = vec![
        RecursionRequest { circuit_kind: 2, instance_index: 0, input_digest: 5 },
        RecursionRequest { circuit_kind: 2, instance_index: 1, input_digest: 6 },
    ];
    let sim: QueueSimulator<RecursionRequest> = build_recursion_queue(&requests);
    assert_eq!(sim.state_at(0).unwrap().length, 0);
    assert_eq!(sim.state_at(2).unwrap(), sim.tail_state());
    assert!(sim.state_at(3).is_err());
}
