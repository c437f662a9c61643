//! What an MPC node does with a computed output: the proof encoding the
//! verifier contract reads, and the per-user encrypted role shares.

use vstd::prelude::*;
use vstd::string::{StringExecFns, StringSliceAdditionalSpecFns};
use crate::crypto::{CryptoError, KeyManager, crypto_error_text, encrypt_failure, sealed_for};
use crate::proof_output::{EncryptedShare, ProofOutput, ProofOutputType, UserPublicKey};
use crate::support::extend_bytes;
use crate::text::{decimal, usize_to_decimal};

verus! {

/// The text of `std::str::from_utf8`'s error on `bytes`.
pub uninterp spec fn utf8_error(bytes: Seq<u8>) -> Seq<char>;

/// `std::str::from_utf8`, its error as text. Claimed: it fails exactly on
/// bytes that are not UTF-8, with the named text.
#[verifier::external_body]
fn utf8_check(bytes: &[u8]) -> (r: Result<(), String>)
    ensures
        r is Ok <==> vstd::utf8::valid_utf8(bytes@),
        r matches Err(e) ==> e@ == utf8_error(bytes@),
{
    match std::str::from_utf8(bytes) {
        Ok(_) => Ok(()),
        Err(e) => Err(e.to_string()),
    }
}

pub open spec fn seq_of<T>(v: Option<Vec<T>>) -> Option<Seq<T>> {
    match v {
        Some(x) => Some(x@),
        None => None,
    }
}

/// The JSON string literal `serde_json` writes for `s`: quoted, with its
/// escapes.
pub uninterp spec fn json_string_literal(s: Seq<char>) -> Seq<char>;

/// `serde_json::Value::String(s)` written out (its `Display`). Claimed: the
/// text is the named one.
#[verifier::external_body]
fn json_quote(s: &str) -> (r: String)
    ensures
        r@ == json_string_literal(s@),
{
    serde_json::Value::String(s.to_owned()).to_string()
}

/// The bytes of the JSON string literal holding `s`.
pub open spec fn json_string(s: Seq<char>) -> Seq<u8> {
    vstd::utf8::encode_utf8(json_string_literal(s))
}

fn push_json_string(out: &mut Vec<u8>, s: &str)
    ensures
        final(out)@ == old(out)@ + json_string(s@),
{
    let quoted = json_quote(s);
    extend_bytes(out, quoted.as_str().as_bytes());
}

pub const PAYLOAD_HEAD: &'static str = "{\"schema_version\":\"role_assignment_share_v2\",\"role_share\":";

pub const PAYLOAD_MIDDLE: &'static str = ",\"role_share_encoding\":\"bn254_fr_decimal_string\",\"werewolf_mates_mask_share\":";

pub const PAYLOAD_TAIL: &'static str = ",\"werewolf_mates_mask_share_encoding\":\"player_index_bitmask_lsb0\"}";

/// The JSON (compact, fields in this order) of a role share sent to a user:
/// schema version, the share, its encoding, the werewolf-mates mask share,
/// its encoding.
pub open spec fn share_payload(role_share: Seq<char>, mask: Seq<char>) -> Seq<u8> {
    PAYLOAD_HEAD.spec_bytes() + json_string(role_share) + PAYLOAD_MIDDLE.spec_bytes() + json_string(mask)
        + PAYLOAD_TAIL.spec_bytes()
}


pub fn role_share_payload(role_share: &str, mask: &str) -> (r: Vec<u8>)
    ensures
        r@ == share_payload(role_share@, mask@),
{
    let mut out: Vec<u8> = Vec::new();
    extend_bytes(&mut out, PAYLOAD_HEAD.as_bytes());
    push_json_string(&mut out, role_share);
    extend_bytes(&mut out, PAYLOAD_MIDDLE.as_bytes());
    push_json_string(&mut out, mask);
    extend_bytes(&mut out, PAYLOAD_TAIL.as_bytes());
    assert(out@ =~= share_payload(role_share@, mask@));
    out
}

/// One role output of the role-assignment circuit: the user's share of
/// the role, and of the mask of fellow werewolves (if any).
#[derive(Debug)]
pub struct RoleOutputV2 {
    pub role_share: String,
    pub werewolf_mates_mask_share: Option<String>,
}

/// The payloads encrypted for the first `n` users, in order; `None` when
/// the output is not a list of role shares.
pub open spec fn share_payloads(
    output: Seq<u8>,
    v2: Option<Seq<RoleOutputV2>>,
    v1: Option<Seq<String>>,
    n: nat,
) -> Seq<Seq<u8>> {
    match v2 {
        Some(outs) => Seq::new(
            n,
            |i: int| share_payload(
                outs[i].role_share@,
                match outs[i].werewolf_mates_mask_share {
                    Some(m) => m@,
                    None => "0"@,
                },
            ),
        ),
        None => match v1 {
            Some(shares) => Seq::new(n, |i: int| share_payload(shares[i]@, "0"@)),
            None => Seq::new(n, |i: int| output),
        },
    }
}

/// How many shares the output has, when it is a list of them.
pub open spec fn share_count(v2: Option<Seq<RoleOutputV2>>, v1: Option<Seq<String>>) -> Option<nat> {
    match v2 {
        Some(outs) => Some(outs.len()),
        None => match v1 {
            Some(shares) => Some(shares.len()),
            None => None,
        },
    }
}

/// The encrypted shares are, in order, the payloads sealed for each user.
pub open spec fn shares_sealed(
    keys: KeyManager,
    node_id: u32,
    pubkeys: Seq<UserPublicKey>,
    payloads: Seq<Seq<u8>>,
    shares: Seq<EncryptedShare>,
) -> bool {
    &&& shares.len() == pubkeys.len()
    &&& forall|i: int|
        0 <= i < shares.len() ==> {
            &&& (#[trigger] shares[i]).node_id == node_id
            &&& shares[i].user_id == pubkeys[i].user_id
            &&& sealed_for(keys.keys, pubkeys[i].public_key@, payloads[i], shares[i].encrypted_data@)
        }
}

/// Every key in `pubkeys` passes the checks made before sealing.
pub open spec fn keys_accepted(keys: Option<crate::crypto::NodeKeys>, pubkeys: Seq<UserPublicKey>) -> bool {
    forall|i: int| 0 <= i < pubkeys.len() ==> encrypt_failure(keys, (#[trigger] pubkeys[i]).public_key@) is None
}

/// The share list, if any, has a share for each user.
pub open spec fn enough_shares(v2: Option<Seq<RoleOutputV2>>, v1: Option<Seq<String>>, n: nat) -> bool {
    share_count(v2, v1) is None || share_count(v2, v1)->Some_0 >= n
}

/// `split_and_encrypt_output` succeeds: the output is UTF-8, there are
/// enough shares, and every user's key passes.
pub open spec fn split_accepts(
    keys: Option<crate::crypto::NodeKeys>,
    output: Seq<u8>,
    pubkeys: Seq<UserPublicKey>,
    v2: Option<Seq<RoleOutputV2>>,
    v1: Option<Seq<String>>,
) -> bool {
    &&& vstd::utf8::valid_utf8(output)
    &&& enough_shares(v2, v1, pubkeys.len())
    &&& keys_accepted(keys, pubkeys)
}

/// `e` is the error `split_and_encrypt_output` gives: the UTF-8 error, the
/// share-count mismatch, or the error of the first user whose key fails.
pub open spec fn split_refusal(
    keys: Option<crate::crypto::NodeKeys>,
    output: Seq<u8>,
    pubkeys: Seq<UserPublicKey>,
    v2: Option<Seq<RoleOutputV2>>,
    v1: Option<Seq<String>>,
    e: Seq<char>,
) -> bool {
    if !vstd::utf8::valid_utf8(output) {
        e == utf8_error(output)
    } else if !enough_shares(v2, v1, pubkeys.len()) {
        e == "role share length mismatch: got "@ + decimal(share_count(v2, v1)->Some_0)
            + ", expected at least "@ + decimal(pubkeys.len())
    } else {
        exists|i: int|
            0 <= i < pubkeys.len() && encrypt_failure(keys, (#[trigger] pubkeys[i]).public_key@) is Some
                && e == crate::crypto::encrypt_error_text(keys, pubkeys[i].public_key@)
                && keys_accepted(keys, pubkeys.take(i))
    }
}

/// Encrypts the output for each user: share by share when the output is a
/// list of role shares (`v2` or `v1`, as the caller read it from the
/// output's JSON), the whole output otherwise.
pub fn split_and_encrypt_output(
    keys: &KeyManager,
    node_id: u32,
    output: &[u8],
    pubkeys: &Vec<UserPublicKey>,
    v2: Option<Vec<RoleOutputV2>>,
    v1: Option<Vec<String>>,
) -> (r: Result<Vec<EncryptedShare>, String>)
    ensures
        r is Ok <==> split_accepts(keys.keys, output@, pubkeys@, seq_of(v2), seq_of(v1)),
        r matches Err(e) ==> split_refusal(keys.keys, output@, pubkeys@, seq_of(v2), seq_of(v1), e@),
        r matches Ok(shares) ==> shares_sealed(
            *keys,
            node_id,
            pubkeys@,
            share_payloads(output@, seq_of(v2), seq_of(v1), pubkeys@.len()),
            shares@,
        ),
{
    match utf8_check(output) {
        Ok(()) => {},
        Err(e) => return Err(e),
    }
    let ghost v2s = seq_of(v2);
    let ghost v1s = seq_of(v1);
    let n = pubkeys.len();
    let count: Option<usize> = match &v2 {
        Some(x) => Some(x.len()),
        None => match &v1 {
            Some(x) => Some(x.len()),
            None => None,
        },
    };
    match count {
        Some(c) => {
            if c < n {
                let text = "role share length mismatch: got ".to_owned().concat(
                    usize_to_decimal(c).as_str(),
                ).concat(", expected at least ").concat(usize_to_decimal(n).as_str());
                return Err(text);
            }
        },
        None => {},
    }
    let ghost payloads = share_payloads(output@, v2s, v1s, n as nat);
    let mut shares: Vec<EncryptedShare> = Vec::new();
    let mut i: usize = 0;
    while i < n
        invariant
            n == pubkeys@.len(),
            i <= n,
            payloads == share_payloads(output@, v2s, v1s, n as nat),
            v2s == seq_of(v2),
            v1s == seq_of(v1),
            vstd::utf8::valid_utf8(output@),
            forall|k: int| 0 <= k < i ==> encrypt_failure(keys.keys, (#[trigger] pubkeys@[k]).public_key@) is None,
            share_count(v2s, v1s) is Some ==> share_count(v2s, v1s)->Some_0 >= n,
            shares@.len() == i,
            forall|k: int|
                0 <= k < i ==> {
                    &&& (#[trigger] shares@[k]).node_id == node_id
                    &&& shares@[k].user_id == pubkeys@[k].user_id
                    &&& sealed_for(keys.keys, pubkeys@[k].public_key@, payloads[k], shares@[k].encrypted_data@)
                },
        decreases n - i,
    {
        let payload: Vec<u8> = match &v2 {
            Some(outs) => {
                let mask: &str = match &outs[i].werewolf_mates_mask_share {
                    Some(m) => m.as_str(),
                    None => "0",
                };
                role_share_payload(outs[i].role_share.as_str(), mask)
            },
            None => match &v1 {
                Some(list) => role_share_payload(list[i].as_str(), "0"),
                None => {
                    let mut whole: Vec<u8> = Vec::new();
                    extend_bytes(&mut whole, output);
                    whole
                },
            },
        };
        assert(payload@ == payloads[i as int]);
        let encrypted = match keys.encrypt_share(payload.as_slice(), pubkeys[i].public_key.as_str()) {
            Ok(c) => c,
            Err(e) => {
                let text = e.to_string();
                assert(pubkeys@[i as int].public_key@ == pubkeys[i as int].public_key@);
                assert(keys_accepted(keys.keys, pubkeys@.take(i as int)));
                return Err(text);
            },
        };
        shares.push(
            EncryptedShare { node_id, user_id: pubkeys[i].user_id.clone(), encrypted_data: encrypted },
        );
        i += 1;
    }
    proof {
        if n > 0 {
            assert(encrypt_failure(keys.keys, pubkeys@[0].public_key@) is None);
        }
    }
    Ok(shares)
}

/// A 32-byte big-endian word from a little-endian integer (cut or padded
/// to 32 bytes).
pub open spec fn word_of(le: Seq<u8>) -> Seq<u8> {
    Seq::new(32, |i: int| if 31 - i < le.len() { le[31 - i] } else { 0u8 })
}

pub fn field_to_word(le: &[u8]) -> (w: [u8; 32])
    ensures
        w@ == word_of(le@),
{
    let mut out = [0u8; 32];
    let mut i: usize = 0;
    while i < 32
        invariant
            i <= 32,
            forall|j: int| 0 <= j < i ==> out@[j] == word_of(le@)[j],
        decreases 32 - i,
    {
        let k = 31 - i;
        out[i] = if k < le.len() {
            le[k]
        } else {
            0
        };
        i += 1;
    }
    assert(out@ =~= word_of(le@));
    out
}

pub open spec fn words_of(values: Seq<Seq<u8>>) -> Seq<u8>
    decreases values.len(),
{
    if values.len() == 0 {
        Seq::empty()
    } else {
        words_of(values.drop_last()) + word_of(values.last())
    }
}

/// The public inputs as consecutive 32-byte words; there must be exactly
/// `expected_len` of them.
pub fn abi_encode_fixed_uint256_inputs(inputs: &Vec<Vec<u8>>, expected_len: usize) -> (r: Result<Vec<u8>, String>)
    ensures
        inputs@.len() != expected_len ==> r is Err && r->Err_0@ == "expected "@ + decimal(
            expected_len as nat,
        ) + " public inputs, got "@ + decimal(inputs@.len()),
        inputs@.len() == expected_len ==> r is Ok && r->Ok_0@ == words_of(
            inputs@.map_values(|v: Vec<u8>| v@),
        ),
{
    if inputs.len() != expected_len {
        return Err(
            "expected ".to_owned().concat(usize_to_decimal(expected_len).as_str()).concat(
                " public inputs, got ",
            ).concat(usize_to_decimal(inputs.len()).as_str()),
        );
    }
    let mut out: Vec<u8> = Vec::new();
    let n = inputs.len();
    let mut i: usize = 0;
    while i < n
        invariant
            n == inputs@.len(),
            i <= n,
            out@ == words_of(inputs@.map_values(|v: Vec<u8>| v@).take(i as int)),
        decreases n - i,
    {
        let w = field_to_word(inputs[i].as_slice());
        extend_bytes(&mut out, w.as_slice());
        proof {
            let vs = inputs@.map_values(|v: Vec<u8>| v@);
            assert(vs.take(i + 1).drop_last() =~= vs.take(i as int));
            assert(vs.take(i + 1).last() == inputs@[i as int]@);
        }
        i += 1;
    }
    assert(inputs@.map_values(|v: Vec<u8>| v@).take(n as int) =~= inputs@.map_values(|v: Vec<u8>| v@));
    Ok(out)
}

/// A Groth16 proof as the verifier reads it: the words of a.x, a.y,
/// b.x.c0, b.x.c1, b.y.c0, b.y.c1, c.x, c.y.
pub fn abi_encode_groth16_proof(coordinates: &[Vec<u8>; 8]) -> (r: Vec<u8>)
    ensures
        r@ == words_of(coordinates@.map_values(|v: Vec<u8>| v@)),
{
    let mut out: Vec<u8> = Vec::new();
    let mut i: usize = 0;
    while i < 8
        invariant
            i <= 8,
            coordinates@.len() == 8,
            out@ == words_of(coordinates@.map_values(|v: Vec<u8>| v@).take(i as int)),
        decreases 8 - i,
    {
        let w = field_to_word(coordinates[i].as_slice());
        extend_bytes(&mut out, w.as_slice());
        proof {
            let vs = coordinates@.map_values(|v: Vec<u8>| v@);
            assert(vs.take(i + 1).drop_last() =~= vs.take(i as int));
            assert(vs.take(i + 1).last() == coordinates@[i as int]@);
        }
        i += 1;
    }
    assert(coordinates@.map_values(|v: Vec<u8>| v@).take(8) =~= coordinates@.map_values(|v: Vec<u8>| v@));
    out
}

/// How many public inputs a circuit's proof has: a role assignment for `n`
/// players in `m` groups has (n + m)^2.
pub open spec fn public_input_len(kind: crate::batch::ProofTypeKey, n: nat, m: nat) -> nat {
    match kind {
        crate::batch::ProofTypeKey::RoleAssignment => (n + m) * (n + m),
        crate::batch::ProofTypeKey::Divination => 8,
        crate::batch::ProofTypeKey::AnonymousVoting => 1,
        crate::batch::ProofTypeKey::WinningJudge => 2,
        crate::batch::ProofTypeKey::KeyPublicize => 0,
    }
}

/// `players` and `groups` describe the first role-assignment input (both 0
/// without one).
pub fn expected_public_input_len(kind: crate::batch::ProofTypeKey, players: usize, groups: usize) -> (r: usize)
    requires
        players + groups <= usize::MAX,
        (players + groups) * (players + groups) <= usize::MAX,
    ensures
        r == public_input_len(kind, players as nat, groups as nat),
{
    match kind {
        crate::batch::ProofTypeKey::RoleAssignment => {
            let size = players + groups;
            size * size
        },
        crate::batch::ProofTypeKey::Divination => 8,
        crate::batch::ProofTypeKey::AnonymousVoting => 1,
        crate::batch::ProofTypeKey::WinningJudge => 2,
        crate::batch::ProofTypeKey::KeyPublicize => 0,
    }
}

} // verus!
