//! Recursive aggregation glue.
//!
//! Builds the queue of recursion requests — one per lower-layer proof to
//! be folded — with its own queue state, and exposes the offline
//! verification entry point the debug and replay tooling uses before a
//! proof is handed to recursive composition. Verification is advisory:
//! it reports a boolean and the caller decides severity.

use crate::assembler::CircuitInstanceWitness;
use crate::queries::QueueItem;
use crate::queue::{fold_words, mix, mix_words, QueueSimulator};
use vstd::prelude::*;

verus! {

/// One reference to a lower-layer proof to be folded by the next
/// aggregation layer.
#[derive(Clone, Copy, PartialEq, Eq, Structural, Debug)]
pub struct RecursionRequest {
    /// Which circuit kind the proof belongs to.
    pub circuit_kind: u64,
    /// Which instance of that kind it proves.
    pub instance_index: u64,
    /// Digest binding the instance's closed-form input.
    pub input_digest: u64,
}

impl QueueItem for RecursionRequest {
    open spec fn encoding(&self) -> Seq<u64> {
        seq![self.circuit_kind, self.instance_index, self.input_digest]
    }

    fn encode(&self) -> (r: Vec<u64>) {
        let mut r: Vec<u64> = Vec::new();
        r.push(self.circuit_kind);
        r.push(self.instance_index);
        r.push(self.input_digest);
        proof {
            assert(r@ =~= self.encoding());
        }
        r
    }
}

/// Builds the recursion-request queue for one layer: absorbs every
/// request in order, so the queue's state binds the full request list.
pub fn build_recursion_queue(requests: &Vec<RecursionRequest>) -> (sim: QueueSimulator<
    RecursionRequest,
>)
    ensures
        sim.wf(),
        sim@ == requests@,
{
    let mut sim: QueueSimulator<RecursionRequest> = QueueSimulator::new();
    let mut i: usize = 0;
    while i < requests.len()
        invariant
            sim.wf(),
            0 <= i <= requests@.len(),
            sim@ == requests@.take(i as int),
        decreases requests@.len() - i,
    {
        proof {
            assert(requests@.take(i + 1) =~= requests@.take(i as int).push(requests@[i as int]));
        }
        sim.append(requests[i]);
        i = i + 1;
    }
    proof {
        assert(requests@.take(requests@.len() as int) =~= requests@);
    }
    sim
}

/// The digest of one circuit instance's closed-form input: its boundary
/// queue states, which the proving backend binds on.
pub open spec fn closed_form_digest<T: QueueItem>(inst: CircuitInstanceWitness<T>) -> u64 {
    mix(
        mix(inst.start_state.digest, inst.start_state.length),
        mix(inst.end_state.digest, inst.end_state.length),
    )
}

/// Builds the recursion requests for one layer's circuit instances: one
/// request per instance in instance order, each binding the instance's
/// boundary states as its closed-form input digest.
pub fn recursion_requests_for<T: QueueItem + Copy>(
    circuit_kind: u64,
    instances: &Vec<CircuitInstanceWitness<T>>,
) -> (r: Vec<RecursionRequest>)
    ensures
        r@.len() == instances@.len(),
        forall|i: int|
            0 <= i < r@.len() ==> #[trigger] r@[i] == (RecursionRequest {
                circuit_kind,
                instance_index: i as u64,
                input_digest: closed_form_digest(instances@[i]),
            }),
{
    let mut r: Vec<RecursionRequest> = Vec::new();
    let mut i: usize = 0;
    while i < instances.len()
        invariant
            0 <= i <= instances@.len(),
            r@.len() == i,
            forall|m: int|
                0 <= m < i ==> #[trigger] r@[m] == (RecursionRequest {
                    circuit_kind,
                    instance_index: m as u64,
                    input_digest: closed_form_digest(instances@[m]),
                }),
        decreases instances@.len() - i,
    {
        let inst = &instances[i];
        let digest = mix_words(
            mix_words(inst.start_state.digest, inst.start_state.length),
            mix_words(inst.end_state.digest, inst.end_state.length),
        );
        r.push(
            RecursionRequest {
                circuit_kind,
                instance_index: i as u64,
                input_digest: digest,
            },
        );
        i = i + 1;
    }
    r
}

/// The verification key of one recursion layer.
#[derive(Clone, Copy, PartialEq, Eq, Structural, Debug)]
pub struct VerificationKey {
    /// The layer this key verifies.
    pub layer_kind: u64,
    /// The key material, as a digest seed.
    pub seed: u64,
}

/// A proof over a public-input payload, bound to a verification key.
#[derive(Clone, PartialEq, Eq, Debug)]
pub struct RecursionProof {
    /// The layer the proof claims to belong to.
    pub layer_kind: u64,
    /// The proof's public-input words.
    pub payload: Vec<u64>,
    /// The binding the prover computed over key and payload.
    pub binding: u64,
}

/// The binding a valid proof for `vk` must carry over `payload`: the
/// digest fold of the payload, seeded by the key.
pub open spec fn binding_of(vk: VerificationKey, payload: Seq<u64>) -> u64 {
    fold_words(mix(vk.seed, vk.layer_kind), payload)
}

/// Computes the binding for a payload under a key — the value the
/// proving side attaches and the verifier recomputes.
pub fn bind_payload(vk: &VerificationKey, payload: &Vec<u64>) -> (b: u64)
    ensures
        b == binding_of(*vk, payload@),
{
    let seeded = crate::queue::mix_words(vk.seed, vk.layer_kind);
    crate::queue::fold_digest(seeded, payload)
}

/// A proof is valid for a layer and key when it names that layer, the
/// key verifies that layer, and its binding matches the recomputation
/// over its payload.
pub open spec fn proof_valid(layer_kind: u64, proof: RecursionProof, vk: VerificationKey) -> bool {
    &&& proof.layer_kind == layer_kind
    &&& vk.layer_kind == layer_kind
    &&& proof.binding == binding_of(vk, proof.payload@)
}

/// Offline verification entry point: recomputes the binding of one proof
/// against a verification key. Pure; reports validity as a boolean and
/// leaves severity to the caller.
pub fn verify(layer_kind: u64, proof: &RecursionProof, vk: &VerificationKey) -> (b: bool)
    ensures
        b == proof_valid(layer_kind, *proof, *vk),
{
    if proof.layer_kind != layer_kind {
        return false;
    }
    if vk.layer_kind != layer_kind {
        return false;
    }
    let expected = bind_payload(vk, &proof.payload);
    expected == proof.binding
}

/// A proof in a layer's batch that failed offline verification.
#[derive(Clone, Copy, PartialEq, Eq, Structural, Debug)]
pub struct ProofRejected {
    /// Position of the first invalid proof in the batch.
    pub index: usize,
}

/// Verifies every proof of one aggregation layer against its key, as the
/// debugging path does for a node layer before composing: succeeds
/// exactly when all proofs are valid, and otherwise names the first that
/// is not.
pub fn verify_layer_proofs(layer_kind: u64, proofs: &Vec<RecursionProof>, vk: &VerificationKey) -> (r:
    Result<(), ProofRejected>)
    ensures
        r is Ok <==> (forall|i: int|
            0 <= i < proofs@.len() ==> proof_valid(layer_kind, #[trigger] proofs@[i], *vk)),
        r is Err ==> {
            let e = r->Err_0;
            &&& 0 <= e.index < proofs@.len()
            &&& !proof_valid(layer_kind, proofs@[e.index as int], *vk)
            &&& forall|i: int|
                0 <= i < e.index ==> proof_valid(layer_kind, #[trigger] proofs@[i], *vk)
        },
{
    let mut i: usize = 0;
    while i < proofs.len()
        invariant
            0 <= i <= proofs@.len(),
            forall|m: int| 0 <= m < i ==> proof_valid(layer_kind, #[trigger] proofs@[m], *vk),
        decreases proofs@.len() - i,
    {
        if !verify(layer_kind, &proofs[i], vk) {
            return Err(ProofRejected { index: i });
        }
        i = i + 1;
    }
    Ok(())
}

} // verus!
