//! A node's record of the proofs it was asked for, and the output it
//! publishes for a proof once generated.

use vstd::prelude::*;
use crate::crypto::{KeyManager, sealed_for, encrypt_failure, encrypt_error_text, crypto_error_text};
use crate::node::{RoleOutputV2, split_accepts, split_and_encrypt_output, split_refusal, shares_sealed, share_payloads, seq_of};
use crate::proof_output::{EncryptedShare, ProofOutput, ProofOutputType, ProofStatus, UserPublicKey};
use crate::support::{new_uuid_string, str_eq, first_where, lemma_first_where};

verus! {

/// A status is the one for proof `id`.
pub open spec fn is_status_for(id: Seq<char>) -> spec_fn(ProofStatus) -> bool {
    |st: ProofStatus| st.proof_id@ == id
}

/// The index of the status of proof `id`, or -1.
pub open spec fn status_index(s: Seq<ProofStatus>, id: Seq<char>) -> int {
    first_where(s, is_status_for(id))
}

proof fn lemma_status_index(s: Seq<ProofStatus>, id: Seq<char>)
    ensures
        -1 <= status_index(s, id) < s.len(),
        status_index(s, id) >= 0 ==> s[status_index(s, id)].proof_id@ == id,
        status_index(s, id) < 0 <==> forall|j: int| 0 <= j < s.len() ==> #[trigger] s[j].proof_id@ != id,
        forall|j: int| 0 <= j < status_index(s, id) ==> #[trigger] s[j].proof_id@ != id,
{
    lemma_first_where(s, is_status_for(id));
}

fn find_status(proofs: &Vec<ProofStatus>, id: &str) -> (r: Option<usize>)
    ensures
        match r {
            Some(k) => k == status_index(proofs@, id@) && k < proofs@.len(),
            None => status_index(proofs@, id@) < 0,
        },
{
    proof {
        lemma_status_index(proofs@, id@);
    }
    let n = proofs.len();
    let mut i: usize = 0;
    while i < n
        invariant
            n == proofs@.len(),
            i <= n,
            forall|k: int| 0 <= k < i ==> #[trigger] proofs@[k].proof_id@ != id@,
            -1 <= status_index(proofs@, id@) < proofs@.len(),
            status_index(proofs@, id@) >= 0 ==> proofs@[status_index(proofs@, id@)].proof_id@ == id@,
            status_index(proofs@, id@) < 0 <==> forall|j: int|
                0 <= j < proofs@.len() ==> #[trigger] proofs@[j].proof_id@ != id@,
            forall|j: int| 0 <= j < status_index(proofs@, id@) ==> #[trigger] proofs@[j].proof_id@ != id@,
        decreases n - i,
    {
        if str_eq(proofs[i].proof_id.as_str(), id) {
            return Some(i);
        }
        i += 1;
    }
    None
}

/// The proofs a node was asked for, one status per proof id.
pub struct ProofManager {
    pub proofs: Vec<ProofStatus>,
}

impl ProofManager {
    /// Proof ids are distinct.
    pub open spec fn wf(self) -> bool {
        forall|i: int, j: int|
            0 <= i < j < self.proofs@.len() ==> #[trigger] self.proofs@[i].proof_id@ != #[trigger] self.proofs@[j].proof_id@
    }

    pub fn new() -> (m: Self)
        ensures
            m.wf(),
            m.proofs@.len() == 0,
    {
        ProofManager { proofs: Vec::new() }
    }

    /// Registers a proof request under a fresh id, as pending; returns the id.
    pub fn register_proof_request(&mut self) -> (id: String)
        requires
            old(self).wf(),
        ensures
            final(self).wf(),
            status_index(final(self).proofs@, id@) >= 0,
            ({
                let st = final(self).proofs@[status_index(final(self).proofs@, id@)];
                &&& st.state@ == "pending"@
                &&& st.message is None
                &&& st.output is None
            }),
            forall|x: Seq<char>|
                x != id@ && #[trigger] status_index(old(self).proofs@, x) >= 0 ==> status_index(final(self).proofs@, x)
                    >= 0 && final(self).proofs@[status_index(final(self).proofs@, x)] == old(self).proofs@[status_index(
                    old(self).proofs@,
                    x,
                )],
    {
        let proof_id = new_uuid_string();
        let status = ProofStatus { state: "pending".to_owned(), proof_id: proof_id.clone(), message: None, output: None };
        self.put(status);
        proof_id
    }

    /// Puts `status` in place of the one with its id, or adds it.
    fn put(&mut self, status: ProofStatus)
        requires
            old(self).wf(),
        ensures
            final(self).wf(),
            status_index(final(self).proofs@, status.proof_id@) >= 0,
            final(self).proofs@[status_index(final(self).proofs@, status.proof_id@)] == status,
            forall|x: Seq<char>|
                x != status.proof_id@ && #[trigger] status_index(old(self).proofs@, x) >= 0 ==> status_index(
                    final(self).proofs@,
                    x,
                ) >= 0 && final(self).proofs@[status_index(final(self).proofs@, x)] == old(self).proofs@[status_index(
                    old(self).proofs@,
                    x,
                )],
    {
        let ghost before = self.proofs@;
        let ghost id = status.proof_id@;
        proof {
            lemma_status_index(before, id);
        }
        match find_status(&self.proofs, status.proof_id.as_str()) {
            Some(k) => {
                self.proofs.set(k, status);
                proof {
                    assert forall|i: int| 0 <= i < self.proofs@.len() implies #[trigger] self.proofs@[i].proof_id@
                        == before[i].proof_id@ by {}
                    assert forall|x: Seq<char>| #[trigger] status_index(self.proofs@, x) == status_index(before, x) by {
                        lemma_same_ids_same_index(self.proofs@, before, x);
                    }
                }
            },
            None => {
                self.proofs.push(status);
                proof {
                    assert(self.proofs@.drop_last() =~= before);
                    lemma_status_index(self.proofs@, id);
                    assert forall|x: Seq<char>| x != id && #[trigger] status_index(before, x) >= 0 implies status_index(
                        self.proofs@,
                        x,
                    ) == status_index(before, x) by {
                        lemma_status_index(before, x);
                        lemma_status_index(self.proofs@, x);
                        assert(self.proofs@.drop_last() =~= before);
                    }
                }
            },
        }
        proof {
            lemma_status_index(self.proofs@, id);
            assert forall|x: Seq<char>| x != id && #[trigger] status_index(before, x) >= 0 implies status_index(
                self.proofs@,
                x,
            ) >= 0 && self.proofs@[status_index(self.proofs@, x)] == before[status_index(before, x)] by {
                lemma_status_index(before, x);
                lemma_status_index(self.proofs@, x);
            }
        }
    }

    /// The status of proof `proof_id`, if registered.
    pub fn get_proof_status(&self, proof_id: &str) -> (r: Option<&ProofStatus>)
        ensures
            status_index(self.proofs@, proof_id@) < 0 ==> r is None,
            status_index(self.proofs@, proof_id@) >= 0 ==> r is Some && *r->Some_0
                == self.proofs@[status_index(self.proofs@, proof_id@)],
    {
        match find_status(&self.proofs, proof_id) {
            Some(k) => Some(&self.proofs[k]),
            None => None,
        }
    }

    /// Sets the state and message of proof `proof_id`, if registered; its
    /// output stays.
    pub fn update_proof_status(&mut self, proof_id: &str, state: &str, message: Option<String>)
        requires
            old(self).wf(),
        ensures
            final(self).wf(),
            final(self).proofs@.len() == old(self).proofs@.len(),
            status_index(old(self).proofs@, proof_id@) < 0 ==> final(self).proofs@ == old(self).proofs@,
            status_index(old(self).proofs@, proof_id@) >= 0 ==> {
                let k = status_index(old(self).proofs@, proof_id@);
                let st = final(self).proofs@[k];
                &&& forall|j: int|
                    0 <= j < old(self).proofs@.len() && j != k ==> #[trigger] final(self).proofs@[j]
                        == old(self).proofs@[j]
                &&& st.state@ == state@
                &&& st.message == message
                &&& st.proof_id == old(self).proofs@[k].proof_id
                &&& st.output == old(self).proofs@[k].output
            },
    {
        proof {
            lemma_status_index(self.proofs@, proof_id@);
        }
        if let Some(k) = find_status(&self.proofs, proof_id) {
            self.proofs[k].state = state.to_owned();
            self.proofs[k].message = message;
        }
    }

    /// Sets the state, message and output of proof `proof_id`, if registered.
    pub fn update_proof_status_with_output(
        &mut self,
        proof_id: &str,
        state: &str,
        message: Option<String>,
        output: Option<ProofOutput>,
    )
        requires
            old(self).wf(),
        ensures
            final(self).wf(),
            final(self).proofs@.len() == old(self).proofs@.len(),
            status_index(old(self).proofs@, proof_id@) < 0 ==> final(self).proofs@ == old(self).proofs@,
            status_index(old(self).proofs@, proof_id@) >= 0 ==> {
                let k = status_index(old(self).proofs@, proof_id@);
                let st = final(self).proofs@[k];
                &&& forall|j: int|
                    0 <= j < old(self).proofs@.len() && j != k ==> #[trigger] final(self).proofs@[j]
                        == old(self).proofs@[j]
                &&& st.state@ == state@
                &&& st.message == message
                &&& st.proof_id == old(self).proofs@[k].proof_id
                &&& st.output == output
            },
    {
        proof {
            lemma_status_index(self.proofs@, proof_id@);
        }
        if let Some(k) = find_status(&self.proofs, proof_id) {
            self.proofs[k].state = state.to_owned();
            self.proofs[k].message = message;
            self.proofs[k].output = output;
        }
    }

    /// Records how generating proof `proof_id` ended: completed with its
    /// output when the proof verified, failed otherwise.
    pub fn record_generation(&mut self, proof_id: &str, is_valid: bool, output: Option<ProofOutput>)
        requires
            old(self).wf(),
        ensures
            final(self).wf(),
            final(self).proofs@.len() == old(self).proofs@.len(),
            status_index(old(self).proofs@, proof_id@) < 0 ==> final(self).proofs@ == old(self).proofs@,
            status_index(old(self).proofs@, proof_id@) >= 0 ==> {
                let k = status_index(old(self).proofs@, proof_id@);
                let st = final(self).proofs@[k];
                &&& forall|j: int|
                    0 <= j < old(self).proofs@.len() && j != k ==> #[trigger] final(self).proofs@[j]
                        == old(self).proofs@[j]
                &&& is_valid ==> st.state@ == "completed"@ && st.message is Some && st.message->Some_0@
                    == "Proof generated successfully"@ && st.output == output
                &&& !is_valid ==> st.state@ == "failed"@ && st.message is Some && st.message->Some_0@
                    == "Proof verification failed"@ && st.output == old(self).proofs@[k].output
            },
    {
        if is_valid {
            self.update_proof_status_with_output(
                proof_id,
                "completed",
                Some("Proof generated successfully".to_owned()),
                output,
            );
        } else {
            self.update_proof_status(proof_id, "failed", Some("Proof verification failed".to_owned()));
        }
    }
}

/// Two status lists with the same ids find an id at the same place.
proof fn lemma_same_ids_same_index(a: Seq<ProofStatus>, b: Seq<ProofStatus>, x: Seq<char>)
    requires
        a.len() == b.len(),
        forall|i: int| 0 <= i < a.len() ==> #[trigger] a[i].proof_id@ == b[i].proof_id@,
    ensures
        status_index(a, x) == status_index(b, x),
    decreases a.len(),
{
    if a.len() > 0 {
        lemma_same_ids_same_index(a.drop_last(), b.drop_last(), x);
    }
}

/// What a node answers for a proof it does not know.
pub fn not_found_status(proof_id: &str) -> (st: ProofStatus)
    ensures
        st.state@ == "not_found"@,
        st.proof_id@ == proof_id@,
        st.message is Some && st.message->Some_0@ == "Proof "@ + proof_id@ + " not found"@,
        st.output is None,
{
    ProofStatus {
        state: "not_found".to_owned(),
        proof_id: proof_id.to_owned(),
        message: Some("Proof ".to_owned().concat(proof_id).concat(" not found")),
        output: None,
    }
}

/// The output a node publishes for a verified proof, by who may read it:
/// everybody reads the circuit's outputs; listed users each get their share
/// encrypted; a single private reader gets the outputs encrypted.
pub fn build_proof_output(
    keys: &KeyManager,
    node_id: u32,
    output_type: ProofOutputType,
    circuit_outputs: Vec<u8>,
    proof_bytes: Vec<u8>,
    public_input_bytes: Vec<u8>,
    v2: Option<Vec<RoleOutputV2>>,
    v1: Option<Vec<String>>,
) -> (r: Result<ProofOutput, String>)
    ensures
        output_type is Public ==> r is Ok && r->Ok_0.value == Some(circuit_outputs) && r->Ok_0.shares is None,
        r matches Ok(o) ==> o.proof == Some(proof_bytes) && o.public_inputs == Some(public_input_bytes),
        output_type is PrivateToPublic && r is Ok ==> {
            let pubkeys = output_type->PrivateToPublic_0;
            let o = r->Ok_0;
            &&& o.value is None
            &&& o.shares is Some
            &&& shares_sealed(
                *keys,
                node_id,
                pubkeys@,
                share_payloads(circuit_outputs@, seq_of(v2), seq_of(v1), pubkeys@.len()),
                o.shares->Some_0@,
            )
        },
        output_type is PrivateToPrivate && r is Ok ==> {
            let pk = output_type->PrivateToPrivate_0;
            let o = r->Ok_0;
            &&& o.shares is None
            &&& o.value is Some
            &&& sealed_for(keys.keys, pk@, circuit_outputs@, o.value->Some_0@)
        },
        output_type is PrivateToPrivate && r is Err ==> r->Err_0@ == encrypt_error_text(
            keys.keys,
            output_type->PrivateToPrivate_0@,
        ),
        output_type is PrivateToPrivate ==> (r is Ok <==> encrypt_failure(
            keys.keys,
            output_type->PrivateToPrivate_0@,
        ) is None),
        output_type is PrivateToPublic ==> (r is Ok <==> split_accepts(
            keys.keys,
            circuit_outputs@,
            output_type->PrivateToPublic_0@,
            seq_of(v2),
            seq_of(v1),
        )),
        output_type is PrivateToPublic && r is Err ==> split_refusal(
            keys.keys,
            circuit_outputs@,
            output_type->PrivateToPublic_0@,
            seq_of(v2),
            seq_of(v1),
            r->Err_0@,
        ),
{
    match output_type {
        ProofOutputType::Public => Ok(
            ProofOutput {
                output_type: ProofOutputType::Public,
                value: Some(circuit_outputs),
                proof: Some(proof_bytes),
                public_inputs: Some(public_input_bytes),
                shares: None,
            },
        ),
        ProofOutputType::PrivateToPublic(pubkeys) => {
            match split_and_encrypt_output(keys, node_id, circuit_outputs.as_slice(), &pubkeys, v2, v1) {
                Ok(shares) => Ok(
                    ProofOutput {
                        output_type: ProofOutputType::PrivateToPublic(pubkeys),
                        value: None,
                        proof: Some(proof_bytes),
                        public_inputs: Some(public_input_bytes),
                        shares: Some(shares),
                    },
                ),
                Err(e) => Err(e),
            }
        },
        ProofOutputType::PrivateToPrivate(pk) => {
            match keys.encrypt_share(circuit_outputs.as_slice(), pk.as_str()) {
                Ok(encrypted) => Ok(
                    ProofOutput {
                        output_type: ProofOutputType::PrivateToPrivate(pk),
                        value: Some(encrypted),
                        proof: Some(proof_bytes),
                        public_inputs: Some(public_input_bytes),
                        shares: None,
                    },
                ),
                Err(e) => Err(e.to_string()),
            }
        },
    }
}

} // verus!
