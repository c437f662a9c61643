//! What the MPC nodes hand back for a proof: the public output, the proof
//! bytes, and per-user encrypted shares.

use vstd::prelude::*;

verus! {

/// A user's public key (Base64) under the user's id.
#[derive(Debug)]
pub struct UserPublicKey {
    pub user_id: String,
    pub public_key: String,
}

impl UserPublicKey {
    pub fn new(user_id: String, public_key: String) -> (k: Self)
        ensures
            k.user_id == user_id,
            k.public_key == public_key,
    {
        UserPublicKey { user_id, public_key }
    }
}

/// Who may read a proof's output.
#[derive(Debug)]
pub enum ProofOutputType {
    /// Everybody.
    Public,
    /// The output is private; each listed user gets an encrypted share.
    PrivateToPublic(Vec<UserPublicKey>),
    /// The output is private and goes to one key.
    PrivateToPrivate(String),
}

/// A node's share of a private output, encrypted for one user.
#[derive(Debug)]
pub struct EncryptedShare {
    pub node_id: u32,
    pub user_id: String,
    /// A 24-byte nonce followed by the ciphertext.
    pub encrypted_data: Vec<u8>,
}

#[derive(Debug)]
pub struct ProofOutput {
    pub output_type: ProofOutputType,
    pub value: Option<Vec<u8>>,
    pub proof: Option<Vec<u8>>,
    pub public_inputs: Option<Vec<u8>>,
    pub shares: Option<Vec<EncryptedShare>>,
}

/// A node's report on a proof.
#[derive(Debug)]
pub struct ProofStatus {
    pub state: String,
    pub proof_id: String,
    pub message: Option<String>,
    pub output: Option<ProofOutput>,
}

/// The first proof bytes that any report carries.
pub open spec fn first_proof(s: Seq<ProofStatus>) -> Option<Vec<u8>>
    decreases s.len(),
{
    if s.len() == 0 {
        None
    } else {
        match s[0].output {
            Some(o) => match o.proof {
                Some(p) => Some(p),
                None => first_proof(s.drop_first()),
            },
            None => first_proof(s.drop_first()),
        }
    }
}

/// The first public-input bytes that any report carries.
pub open spec fn first_public_inputs(s: Seq<ProofStatus>) -> Option<Vec<u8>>
    decreases s.len(),
{
    if s.len() == 0 {
        None
    } else {
        match s[0].output {
            Some(o) => match o.public_inputs {
                Some(p) => Some(p),
                None => first_public_inputs(s.drop_first()),
            },
            None => first_public_inputs(s.drop_first()),
        }
    }
}

/// The shares one report carries.
pub open spec fn shares_of(st: ProofStatus) -> Seq<EncryptedShare> {
    match st.output {
        Some(o) => match o.shares {
            Some(v) => v@,
            None => Seq::empty(),
        },
        None => Seq::empty(),
    }
}

/// The shares of all reports, in report order.
pub open spec fn all_shares(s: Seq<ProofStatus>) -> Seq<EncryptedShare>
    decreases s.len(),
{
    if s.len() == 0 {
        Seq::empty()
    } else {
        shares_of(s[0]) + all_shares(s.drop_first())
    }
}

/// `r` is the merge of the reports `s`: none without reports or when the
/// first has no output; else the first report's type and value, the first
/// proof and public inputs found, and every share (none if there are none).
pub open spec fn merges(r: Option<ProofOutput>, s: Seq<ProofStatus>) -> bool {
    &&& (s.len() == 0 || s[0].output is None) <==> r is None
    &&& r matches Some(o) ==> {
        &&& o.output_type == s[0].output->Some_0.output_type
        &&& o.value == s[0].output->Some_0.value
        &&& o.proof == first_proof(s)
        &&& o.public_inputs == first_public_inputs(s)
        &&& (all_shares(s).len() == 0 ==> o.shares is None)
        &&& (all_shares(s).len() > 0 ==> o.shares is Some && o.shares->Some_0@ == all_shares(s))
    }
}

/// Merges the nodes' reports into one output.
pub fn merge_proof_outputs(statuses: Vec<ProofStatus>) -> (r: Option<ProofOutput>)
    ensures
        merges(r, statuses@),
{
    if statuses.len() == 0 {
        return None;
    }
    if statuses[0].output.is_none() {
        return None;
    }
    let ghost all = statuses@;
    let mut rest = statuses;
    let mut first_type: Option<ProofOutputType> = None;
    let mut first_value: Option<Vec<u8>> = None;
    let mut proof: Option<Vec<u8>> = None;
    let mut public_inputs: Option<Vec<u8>> = None;
    let mut shares: Vec<EncryptedShare> = Vec::new();
    let mut taken: usize = 0;
    while rest.len() > 0
        invariant
            0 < all.len() <= usize::MAX,
            all[0].output is Some,
            taken + rest@.len() == all.len(),
            rest@ == all.skip(taken as int),
            taken == 0 ==> first_type is None,
            taken > 0 ==> first_type == Some(all[0].output->Some_0.output_type)
                && first_value == all[0].output->Some_0.value,
            first_proof(all) == (if proof is Some {
                proof
            } else {
                first_proof(rest@)
            }),
            first_public_inputs(all) == (if public_inputs is Some {
                public_inputs
            } else {
                first_public_inputs(rest@)
            }),
            all_shares(all) == shares@ + all_shares(rest@),
        decreases rest@.len(),
    {
        let ghost before = rest@;
        let status = rest.remove(0);
        assert(rest@ =~= before.drop_first());
        assert(all.skip(taken + 1) =~= all.skip(taken as int).drop_first());
        assert(before[0] == status);
        let ghost shares_before = shares@;
        let ghost here = shares_of(status);
        assert(all_shares(before) == here + all_shares(rest@));
        match status.output {
            Some(o) => {
                let ProofOutput { output_type, value, proof: p, public_inputs: q, shares: s } = o;
                if taken == 0 {
                    first_type = Some(output_type);
                    first_value = value;
                }
                if proof.is_none() {
                    proof = p;
                }
                if public_inputs.is_none() {
                    public_inputs = q;
                }
                match s {
                    Some(v) => {
                        let mut v = v;
                        shares.append(&mut v);
                    },
                    None => {},
                }
            },
            None => {},
        }
        assert(shares@ =~= shares_before + here);
        assert(shares_before + (here + all_shares(rest@)) =~= shares@ + all_shares(rest@));
        taken += 1;
    }
    assert(all.skip(taken as int).len() == 0);
    assert(rest@.len() == 0);
    let merged_shares = if shares.len() == 0 {
        None
    } else {
        Some(shares)
    };
    match first_type {
        Some(t) => Some(
            ProofOutput {
                output_type: t,
                value: first_value,
                proof,
                public_inputs,
                shares: merged_shares,
            },
        ),
        None => None,
    }
}

} // verus!
