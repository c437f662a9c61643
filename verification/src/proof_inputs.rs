//! Preparing a batch for the MPC nodes: the common kind of its requests,
//! their order, and who may read the output.

use vstd::prelude::*;
use vstd::string::StringExecFns;
use crate::batch::{ClientRequestType, ProofTypeKey, info_of, proof_type_of};
use crate::proof_output::{ProofOutputType, UserPublicKey};
use crate::sort::{is_order, stable_sort_by_key, stably_keyed};
use crate::text::{parse_u32, parse_u32_spec};

verus! {

/// All requests are of the kind of the first one.
pub open spec fn uniform_kind(requests: Seq<ClientRequestType>) -> bool {
    forall|i: int| 0 <= i < requests.len() ==> proof_type_of(#[trigger] requests[i]) == proof_type_of(
        requests[0],
    )
}

/// What `serde_json` reports when it reads `text` as JSON: `None` when it
/// reads, its error message otherwise.
pub uninterp spec fn json_syntax_error(text: Seq<char>) -> Option<Seq<char>>;

/// `serde_json::from_str::<serde_json::Value>(text)`. Claimed: it fails
/// exactly when the name says so, with the error's `Display` text.
#[verifier::external_body]
fn json_check(text: &str) -> (r: Option<String>)
    ensures
        match r {
            None => json_syntax_error(text@) is None,
            Some(e) => json_syntax_error(text@) == Some(e@),
        },
{
    match serde_json::from_str::<serde_json::Value>(text) {
        Ok(_) => None,
        Err(e) => Some(e.to_string()),
    }
}

/// The request's encrypted input reads as JSON.
pub open spec fn input_parses(r: ClientRequestType) -> bool {
    json_syntax_error(info_of(r).encrypted_data@) is None
}

/// The name of the circuit input a request of `kind` carries.
pub open spec fn input_name(kind: ProofTypeKey) -> Seq<char> {
    match kind {
        ProofTypeKey::Divination => "DivinationOutput"@,
        ProofTypeKey::AnonymousVoting => "AnonymousVotingOutput"@,
        ProofTypeKey::WinningJudge => "WinningJudgeOutput"@,
        ProofTypeKey::RoleAssignment => "RoleAssignmentOutput"@,
        ProofTypeKey::KeyPublicize => "KeyPublicizeOutput"@,
    }
}

fn input_name_of(kind: ProofTypeKey) -> (s: &'static str)
    ensures
        s@ == input_name(kind),
{
    match kind {
        ProofTypeKey::Divination => "DivinationOutput",
        ProofTypeKey::AnonymousVoting => "AnonymousVotingOutput",
        ProofTypeKey::WinningJudge => "WinningJudgeOutput",
        ProofTypeKey::RoleAssignment => "RoleAssignmentOutput",
        ProofTypeKey::KeyPublicize => "KeyPublicizeOutput",
    }
}

/// Every request's encrypted input reads as JSON.
pub open spec fn all_inputs_parse(requests: Seq<ClientRequestType>) -> bool {
    forall|i: int| 0 <= i < requests.len() ==> input_parses(#[trigger] requests[i])
}

/// `e` is the error for the first request, in order, whose input does not
/// read.
pub open spec fn first_parse_error(requests: Seq<ClientRequestType>, e: Seq<char>) -> bool {
    exists|i: int|
        0 <= i < requests.len() && !input_parses(#[trigger] requests[i]) && all_inputs_parse(requests.take(i))
            && e == "Failed to deserialize "@ + input_name(proof_type_of(requests[0])) + ": "@
            + json_syntax_error(info_of(requests[i]).encrypted_data@)->Some_0
}

/// The kind of circuit a batch is for: that of its requests, which must
/// all be of one kind, and each of whose encrypted inputs must read as
/// JSON (the first one that does not gives the error).
pub fn try_convert_to_identifier(requests: &Vec<ClientRequestType>) -> (r: Result<ProofTypeKey, String>)
    ensures
        requests@.len() == 0 ==> r is Err && r->Err_0@ == "Empty request list"@,
        requests@.len() > 0 && uniform_kind(requests@) && all_inputs_parse(requests@) ==> r == Ok::<
            ProofTypeKey,
            String,
        >(proof_type_of(requests@[0])),
        requests@.len() > 0 && uniform_kind(requests@) && !all_inputs_parse(requests@) ==> r is Err
            && first_parse_error(requests@, r->Err_0@),
        requests@.len() > 0 && !uniform_kind(requests@) ==> r is Err && r->Err_0@
            == "ClientRequestType variants are mixed; cannot convert"@,
{
    if requests.len() == 0 {
        return Err("Empty request list".to_owned());
    }
    let kind = requests[0].get_proof_type();
    let n = requests.len();
    let mut i: usize = 1;
    while i < n
        invariant
            n == requests@.len(),
            1 <= i <= n,
            kind == proof_type_of(requests@[0]),
            forall|j: int| 0 <= j < i ==> proof_type_of(#[trigger] requests@[j]) == kind,
        decreases n - i,
    {
        if requests[i].get_proof_type() != kind {
            return Err("ClientRequestType variants are mixed; cannot convert".to_owned());
        }
        i += 1;
    }
    let mut k: usize = 0;
    while k < n
        invariant
            n == requests@.len(),
            k <= n,
            kind == proof_type_of(requests@[0]),
            uniform_kind(requests@),
            all_inputs_parse(requests@.take(k as int)),
        decreases n - k,
    {
        match json_check(requests[k].info().encrypted_data.as_str()) {
            None => {},
            Some(e) => {
                let text = "Failed to deserialize ".to_owned().concat(input_name_of(kind)).concat(": ").concat(
                    e.as_str(),
                );
                assert(!input_parses(requests@[k as int]));
                assert(first_parse_error(requests@, text@));
                return Err(text);
            },
        }
        assert(all_inputs_parse(requests@.take(k + 1)));
        k += 1;
    }
    assert(requests@.take(n as int) =~= requests@);
    Ok(kind)
}

/// The number a request sorts by: its user id read as a `u32`, or
/// `u32::MAX` when it is not one.
pub open spec fn user_sort_key(r: ClientRequestType) -> u64 {
    match parse_u32_spec(vstd::utf8::encode_utf8(info_of(r).user_id@)) {
        Some(v) => v as u64,
        None => u32::MAX as u64,
    }
}

/// The requests in the order the nodes expect them: by user id as a
/// number, requests with the same number (or none) keeping their order.
pub fn order_requests_by_user(requests: Vec<ClientRequestType>) -> (r: Vec<ClientRequestType>)
    ensures
        exists|ord: Seq<int>|
            #![trigger is_order(ord, requests@.len())]
            is_order(ord, requests@.len()) && stably_keyed(
                requests@.map_values(|q: ClientRequestType| user_sort_key(q)),
                ord,
            ) && r@.len() == requests@.len() && forall|k: int|
                0 <= k < r@.len() ==> r@[k] == requests@[#[trigger] ord[k]],
{
    let mut keys: Vec<u64> = Vec::new();
    let n = requests.len();
    let mut i: usize = 0;
    while i < n
        invariant
            n == requests@.len(),
            i <= n,
            keys@ == requests@.take(i as int).map_values(|q: ClientRequestType| user_sort_key(q)),
        decreases n - i,
    {
        let k: u64 = match parse_u32(requests[i].get_user_id()) {
            Some(v) => v as u64,
            None => 4294967295u64,
        };
        proof {
            assert(requests@.take(i + 1) =~= requests@.take(i as int).push(requests@[i as int]));
        }
        keys.push(k);
        assert(keys@ =~= requests@.take(i + 1).map_values(|q: ClientRequestType| user_sort_key(q)));
        i += 1;
    }
    assert(requests@.take(n as int) =~= requests@);
    stable_sort_by_key(requests, &keys)
}

/// The public keys of the requests that carry one, in order.
pub open spec fn recipients(requests: Seq<ClientRequestType>) -> Seq<(Seq<char>, Seq<char>)>
    decreases requests.len(),
{
    if requests.len() == 0 {
        Seq::empty()
    } else {
        let rest = recipients(requests.drop_last());
        match info_of(requests.last()).public_key {
            Some(k) => rest.push((info_of(requests.last()).user_id@, k@)),
            None => rest,
        }
    }
}

pub open spec fn key_view(k: UserPublicKey) -> (Seq<char>, Seq<char>) {
    (k.user_id@, k.public_key@)
}

/// Who may read the output of a `kind` computation over `requests`: for a
/// role assignment, the players that sent a public key (there must be
/// one); for the other kinds, everybody.
pub fn output_type_for(kind: ProofTypeKey, requests: &Vec<ClientRequestType>) -> (r: Result<
    ProofOutputType,
    String,
>)
    ensures
        kind != ProofTypeKey::RoleAssignment ==> r matches Ok(ProofOutputType::Public),
        kind == ProofTypeKey::RoleAssignment && recipients(requests@).len() == 0 ==> r is Err
            && r->Err_0@ == "No player public keys found for RoleAssignment"@,
        kind == ProofTypeKey::RoleAssignment && recipients(requests@).len() > 0 ==> r is Ok
            && r->Ok_0 is PrivateToPublic && r->Ok_0->PrivateToPublic_0@.map_values(
            |k: UserPublicKey| key_view(k),
        ) == recipients(requests@),
{
    if kind != ProofTypeKey::RoleAssignment {
        return Ok(ProofOutputType::Public);
    }
    let mut keys: Vec<UserPublicKey> = Vec::new();
    let n = requests.len();
    let mut i: usize = 0;
    while i < n
        invariant
            n == requests@.len(),
            i <= n,
            keys@.map_values(|k: UserPublicKey| key_view(k)) == recipients(requests@.take(i as int)),
        decreases n - i,
    {
        proof {
            assert(requests@.take(i + 1).drop_last() =~= requests@.take(i as int));
            assert(requests@.take(i + 1).last() == requests@[i as int]);
        }
        match requests[i].get_public_key() {
            Some(k) => {
                let ghost before = keys@;
                keys.push(UserPublicKey::new(requests[i].get_user_id().to_owned(), k.to_owned()));
                assert(keys@.map_values(|k: UserPublicKey| key_view(k)) =~= before.map_values(
                    |k: UserPublicKey| key_view(k),
                ).push((info_of(requests@[i as int]).user_id@, info_of(requests@[i as int]).public_key->Some_0@)));
            },
            None => {},
        }
        i += 1;
    }
    assert(requests@.take(n as int) =~= requests@);
    if keys.len() == 0 {
        return Err("No player public keys found for RoleAssignment".to_owned());
    }
    Ok(ProofOutputType::PrivateToPublic(keys))
}

} // verus!
