//! What a finished MPC computation does to a game: the checks made before
//! its proof goes to the chain, and how each kind of output changes the game.
//! The caller runs the computation and the chain call; the decisions are here.

use vstd::prelude::*;
use vstd::string::StringExecFns;
use crate::batch::{BatchRequest, BatchStatus, ProofTypeKey};
use crate::chain::ProofType;
use crate::chat::{ChatMessage, ChatMessageType, is_system_message};
use crate::codec::{base64_encode, base64_text};
use crate::field::{
    decode_fr, decode_fr_pair, decode_fr_vec, fr_canonical_bytes, fr_pair_canonical_bytes,
    fr_vec_canonical_bytes, repr_is_small, small_repr,
};
use crate::game::{
    ComputationEntry, ComputationResults, Game, GamePhase, GameResult, PlayerRoleAssignment,
    RoleAssignmentComputationResult, phase_message,
};
use crate::player::Player;
use crate::proof_output::{EncryptedShare, ProofOutput};
use crate::role::Role;
use crate::support::now_millis;
use crate::text::{parse_usize, parse_usize_spec};

verus! {

/// What the circuit library reports about a computation's circuit.
#[derive(Debug, Clone, Copy)]
pub struct CircuitProfileInfo {
    pub player_count: usize,
    pub werewolf_count: usize,
    /// Whether the verifier contract has a key for this circuit.
    pub supported_onchain: bool,
}

/// A proof to be checked by the verifier contract.
#[derive(Debug)]
pub struct VerificationRequest {
    pub proof_type: ProofType,
    pub player_count: u8,
    pub werewolf_count: u8,
    pub proof_data: Vec<u8>,
    pub public_inputs: Vec<u8>,
}

/// An encrypted role share on its way to one player.
#[derive(Debug)]
pub struct RoleDelivery {
    pub player_id: String,
    pub node_id: u32,
    /// Base64 of the ciphertext.
    pub encrypted: String,
    /// Base64 of the 24-byte nonce.
    pub nonce: String,
}

/// What the caller announces after an output was applied.
#[derive(Debug)]
pub enum BatchEffect {
    /// Nothing to announce.
    Nothing,
    /// A divination result is stored; `announce_processing` when it came at night.
    DivinationReady { announce_processing: bool },
    /// The player at `index` was executed.
    PlayerExecuted { index: usize },
    /// The winner check gave `result`; `state_value` is the raw field value.
    GameJudged { result: GameResult, state_value: Vec<u8> },
    /// Encrypted role shares to hand to players.
    RolesDelivered { deliveries: Vec<RoleDelivery> },
    /// Roles read in the clear; `last_role` is the role read for the last player.
    RolesAssigned { last_role: Option<Role> },
    /// The seer's public key, as canonical field bytes.
    SeerKeyReady { x: Vec<u8>, y: Vec<u8> },
}

pub open spec fn chain_proof_type(k: ProofTypeKey) -> ProofType {
    match k {
        ProofTypeKey::RoleAssignment => ProofType::RoleAssignment,
        ProofTypeKey::Divination => ProofType::Divination,
        ProofTypeKey::AnonymousVoting => ProofType::AnonymousVoting,
        ProofTypeKey::WinningJudge => ProofType::WinningJudgement,
        ProofTypeKey::KeyPublicize => ProofType::KeyPublicize,
    }
}

/// The name of a proof kind in chain messages.
pub open spec fn proof_label_spec(k: ProofTypeKey) -> Seq<char> {
    match k {
        ProofTypeKey::RoleAssignment => "RoleAssignment"@,
        ProofTypeKey::Divination => "Divination"@,
        ProofTypeKey::AnonymousVoting => "AnonymousVoting"@,
        ProofTypeKey::WinningJudge => "WinningJudgement"@,
        ProofTypeKey::KeyPublicize => "KeyPublicize"@,
    }
}

pub fn proof_label(k: ProofTypeKey) -> (s: String)
    ensures
        s@ == proof_label_spec(k),
{
    match k {
        ProofTypeKey::RoleAssignment => "RoleAssignment".to_owned(),
        ProofTypeKey::Divination => "Divination".to_owned(),
        ProofTypeKey::AnonymousVoting => "AnonymousVoting".to_owned(),
        ProofTypeKey::WinningJudge => "WinningJudgement".to_owned(),
        ProofTypeKey::KeyPublicize => "KeyPublicize".to_owned(),
    }
}

pub fn chain_type_of(k: ProofTypeKey) -> (t: ProofType)
    ensures
        t == chain_proof_type(k),
{
    match k {
        ProofTypeKey::RoleAssignment => ProofType::RoleAssignment,
        ProofTypeKey::Divination => ProofType::Divination,
        ProofTypeKey::AnonymousVoting => ProofType::AnonymousVoting,
        ProofTypeKey::WinningJudge => ProofType::WinningJudgement,
        ProofTypeKey::KeyPublicize => ProofType::KeyPublicize,
    }
}

/// `new` is `old` followed by one server message per text.
pub open spec fn chat_extended(
    old: Seq<ChatMessage>,
    new: Seq<ChatMessage>,
    texts: Seq<Seq<char>>,
) -> bool {
    &&& new.len() == old.len() + texts.len()
    &&& new.take(old.len() as int) == old
    &&& forall|i: int| 0 <= i < texts.len() ==> is_system_message(new[old.len() + i], #[trigger] texts[i])
}

/// The batch being processed, marked `status`.
pub open spec fn with_status(b: BatchRequest, status: BatchStatus) -> BatchRequest {
    BatchRequest { status, ..b }
}

/// `new` differs from `old` only in that its batch failed and the server
/// posted `text`.
pub open spec fn failed_with(old: Game, new: Game, text: Seq<char>) -> bool {
    &&& new == (Game {
        batch_request: with_status(old.batch_request, BatchStatus::Failed),
        chat_log: new.chat_log,
        ..old
    })
    &&& new.chat_log.room_id == old.chat_log.room_id
    &&& chat_extended(old.chat_log.messages@, new.chat_log.messages@, seq![text])
}

/// `new` differs from `old` only in that the server posted `texts`.
pub open spec fn only_posted(old: Game, new: Game, texts: Seq<Seq<char>>) -> bool {
    &&& new == (Game { chat_log: new.chat_log, ..old })
    &&& new.chat_log.room_id == old.chat_log.room_id
    &&& chat_extended(old.chat_log.messages@, new.chat_log.messages@, texts)
}

proof fn lemma_one_more(old: Seq<ChatMessage>, new: Seq<ChatMessage>, text: Seq<char>)
    requires
        new.len() == old.len() + 1,
        new.drop_last() == old,
        is_system_message(new.last(), text),
    ensures
        chat_extended(old, new, seq![text]),
{
    assert(new.take(old.len() as int) =~= new.drop_last());
    let texts = seq![text];
    assert forall|i: int| 0 <= i < texts.len() implies is_system_message(
        new[old.len() + i],
        #[trigger] texts[i],
    ) by {
        assert(i == 0);
    }
}

proof fn lemma_two_more(
    old: Seq<ChatMessage>,
    mid: Seq<ChatMessage>,
    new: Seq<ChatMessage>,
    a: Seq<char>,
    b: Seq<char>,
)
    requires
        chat_extended(old, mid, seq![a]),
        new.len() == mid.len() + 1,
        new.drop_last() == mid,
        is_system_message(new.last(), b),
    ensures
        chat_extended(old, new, seq![a, b]),
{
    assert(new.take(old.len() as int) =~= mid.take(old.len() as int));
    let first = seq![a];
    let texts = seq![a, b];
    assert(first[0] == a);
    assert forall|i: int| 0 <= i < texts.len() implies is_system_message(
        new[old.len() + i],
        #[trigger] texts[i],
    ) by {
        if i == 0 {
            assert(new[old.len() as int] == mid[old.len() as int]);
        }
    }
}

/// Why a proof cannot go to the chain, if it cannot.
pub open spec fn verification_failure(
    kind: ProofTypeKey,
    profile: Option<CircuitProfileInfo>,
    output: ProofOutput,
) -> Option<Seq<char>> {
    match profile {
        None => Some("On-chain proof verification skipped: failed to derive circuit profile."@),
        Some(p) => if !p.supported_onchain {
            Some("On-chain proof verification skipped: unsupported circuit profile."@)
        } else if p.player_count > 255 {
            Some(
                "On-chain proof verification skipped: invalid player count for "@
                    + proof_label_spec(kind) + "."@,
            )
        } else if p.werewolf_count > 255 {
            Some(
                "On-chain proof verification skipped: invalid werewolf count for "@
                    + proof_label_spec(kind) + "."@,
            )
        } else if output.proof is None || output.proof->Some_0@.len() == 0 {
            Some(
                "On-chain proof verification skipped: missing proof bytes for "@ + proof_label_spec(
                    kind,
                ) + "."@,
            )
        } else if output.public_inputs is None && kind != ProofTypeKey::KeyPublicize {
            Some(
                "On-chain proof verification skipped: missing public inputs for "@
                    + proof_label_spec(kind) + "."@,
            )
        } else {
            None
        },
    }
}

/// What recording the verifier contract's answer `outcome` does to the game.
pub open spec fn verification_recorded(
    old: Game,
    new: Game,
    kind: ProofTypeKey,
    outcome: Result<Option<bool>, String>,
) -> bool {
    match outcome {
        Ok(Some(true)) => only_posted(
            old,
            new,
            seq!["On-chain proof verification succeeded: "@ + proof_label_spec(kind) + "."@],
        ),
        Ok(None) => new == old,
        Ok(Some(false)) => failed_with(old, new, "On-chain proof verification failed."@),
        Err(e) => failed_with(old, new, "On-chain proof verification error: "@ + e@),
    }
}

/// Whether the last step left the batch to go on.
pub open spec fn verification_proceeds(outcome: Result<Option<bool>, String>) -> bool {
    match outcome {
        Ok(Some(v)) => v,
        Ok(None) => true,
        Err(_) => false,
    }
}

impl Game {
    /// Marks the current batch as being processed.
    pub fn begin_batch_processing(&mut self)
        ensures
            *final(self) == (Game {
                batch_request: with_status(old(self).batch_request, BatchStatus::Processing),
                ..*old(self)
            }),
    {
        self.batch_request.status = BatchStatus::Processing;
    }

    fn mark_failed(&mut self, text: String)
        ensures
            failed_with(*old(self), *final(self), text@),
    {
        self.batch_request.status = BatchStatus::Failed;
        self.chat_log.add_system_message(text);
        proof {
            lemma_one_more(old(self).chat_log.messages@, self.chat_log.messages@, text@);
        }
    }

    fn post(&mut self, text: String)
        ensures
            only_posted(*old(self), *final(self), seq![text@]),
    {
        self.chat_log.add_system_message(text);
        proof {
            lemma_one_more(old(self).chat_log.messages@, self.chat_log.messages@, text@);
        }
    }

    /// The computation failed with `error`.
    pub fn fail_batch(&mut self, error: String)
        ensures
            failed_with(*old(self), *final(self), "Failed to process proof: "@ + error@),
    {
        let text = "Failed to process proof: ".to_owned().concat(error.as_str());
        self.mark_failed(text);
    }

    /// The request that sends the proof of a `kind` computation to the
    /// verifier contract, or, when it cannot be sent, `None`, with the batch
    /// failed and the reason posted.
    pub fn plan_onchain_verification(
        &mut self,
        kind: ProofTypeKey,
        profile: Option<CircuitProfileInfo>,
        output: &ProofOutput,
    ) -> (r: Option<VerificationRequest>)
        ensures
            match verification_failure(kind, profile, *output) {
                Some(text) => r is None && failed_with(*old(self), *final(self), text),
                None => {
                    &&& *final(self) == *old(self)
                    &&& r is Some
                    &&& r->Some_0.proof_type == chain_proof_type(kind)
                    &&& r->Some_0.player_count == profile->Some_0.player_count
                    &&& r->Some_0.werewolf_count == profile->Some_0.werewolf_count
                    &&& r->Some_0.proof_data@ == output.proof->Some_0@
                    &&& r->Some_0.public_inputs@ == (match output.public_inputs {
                        Some(p) => p@,
                        None => Seq::<u8>::empty(),
                    })
                },
            },
    {
        let p = match profile {
            Some(p) => p,
            None => {
                self.mark_failed(
                    "On-chain proof verification skipped: failed to derive circuit profile.".to_owned(),
                );
                return None;
            },
        };
        if !p.supported_onchain {
            self.mark_failed(
                "On-chain proof verification skipped: unsupported circuit profile.".to_owned(),
            );
            return None;
        }
        if p.player_count > 255 {
            let text = "On-chain proof verification skipped: invalid player count for ".to_owned().concat(
            proof_label(kind).as_str()).concat(".");
            self.mark_failed(text);
            return None;
        }
        if p.werewolf_count > 255 {
            let text = "On-chain proof verification skipped: invalid werewolf count for ".to_owned().concat(
            proof_label(kind).as_str()).concat(".");
            self.mark_failed(text);
            return None;
        }
        let given = &output.proof;
        let proof_data = match given {
            Some(bytes) => {
                if bytes.len() == 0 {
                    let text = "On-chain proof verification skipped: missing proof bytes for ".to_owned().concat(
                    proof_label(kind).as_str()).concat(".");
                    self.mark_failed(text);
                    return None;
                }
                bytes.clone()
            },
            None => {
                let text = "On-chain proof verification skipped: missing proof bytes for ".to_owned().concat(
                proof_label(kind).as_str()).concat(".");
                self.mark_failed(text);
                return None;
            },
        };
        let public_inputs = match &output.public_inputs {
            Some(bytes) => bytes.clone(),
            None => {
                if kind == ProofTypeKey::KeyPublicize {
                    Vec::new()
                } else {
                    let text = "On-chain proof verification skipped: missing public inputs for ".to_owned().concat(
                    proof_label(kind).as_str()).concat(".");
                    self.mark_failed(text);
                    return None;
                }
            },
        };
        assert(proof_data@ =~= output.proof->Some_0@);
        Some(
            VerificationRequest {
                proof_type: chain_type_of(kind),
                player_count: p.player_count as u8,
                werewolf_count: p.werewolf_count as u8,
                proof_data,
                public_inputs,
            },
        )
    }

    /// Records what the verifier contract said (`Ok(None)`: no chain) and
    /// returns whether the batch goes on.
    pub fn record_onchain_verification(
        &mut self,
        kind: ProofTypeKey,
        outcome: Result<Option<bool>, String>,
    ) -> (proceed: bool)
        ensures
            proceed == verification_proceeds(outcome),
            verification_recorded(*old(self), *final(self), kind, outcome),
    {
        match outcome {
            Ok(Some(true)) => {
                let text = "On-chain proof verification succeeded: ".to_owned().concat(
                    proof_label(kind).as_str(),
                ).concat(".");
                self.post(text);
                true
            },
            Ok(None) => true,
            Ok(Some(false)) => {
                self.mark_failed("On-chain proof verification failed.".to_owned());
                false
            },
            Err(e) => {
                let text = "On-chain proof verification error: ".to_owned().concat(e.as_str());
                self.mark_failed(text);
                false
            },
        }
    }
}

/// The index the vote circuit names: the first byte of its output, when it
/// is a player's index.
pub open spec fn executed_index(target: Option<Seq<u8>>, players: Seq<Player>) -> Option<int> {
    match target {
        Some(t) => if (t[0] as int) < players.len() {
            Some(t[0] as int)
        } else {
            None
        },
        None => None,
    }
}

/// The vote circuit's output `target` applied to `old`.
pub open spec fn vote_applied(old: Game, new: Game, target: Option<Seq<u8>>, eff: BatchEffect) -> bool {
    match executed_index(target, old.players@) {
        None => new == old && eff is Nothing,
        Some(k) => {
            &&& eff == BatchEffect::PlayerExecuted { index: k as usize }
            &&& new.players@ == old.players@.update(k, Player { is_dead: true, ..old.players@[k] })
            &&& new.vote_results@.len() == 0
            &&& new == (Game {
                players: new.players,
                phase: GamePhase::Result,
                vote_results: new.vote_results,
                chat_log: new.chat_log,
                batch_request: with_status(old.batch_request, BatchStatus::Completed),
                phase_started_at: new.phase_started_at,
                ..old
            })
            &&& new.chat_log.room_id == old.chat_log.room_id
            &&& chat_extended(
                old.chat_log.messages@,
                new.chat_log.messages@,
                seq![
                    "Voting result: "@ + old.players@[k].name@ + " has been executed."@,
                    phase_message(GamePhase::Result, old.result),
                ],
            )
        },
    }
}

/// The game result a winner-check output stands for: 1 werewolves, 2 villagers.
pub open spec fn judged_result(state: Seq<u8>) -> GameResult {
    if state == small_repr(1) {
        GameResult::WerewolfWin
    } else if state == small_repr(2) {
        GameResult::VillagerWin
    } else {
        GameResult::InProgress
    }
}

pub open spec fn win_text(r: GameResult) -> Seq<char> {
    match r {
        GameResult::VillagerWin => "Villagers win!"@,
        GameResult::WerewolfWin => "Werewolves win!"@,
        GameResult::InProgress => "The game continues."@,
    }
}

/// The winner-check output `state` applied to `old`.
pub open spec fn judgement_applied(old: Game, new: Game, state: Option<Seq<u8>>, eff: BatchEffect) -> bool {
    match state {
        None => new == old && eff is Nothing,
        Some(s) => {
            let res = judged_result(s);
            &&& eff is GameJudged
            &&& eff->result == res
            &&& eff->state_value@ == s
            &&& new.chat_log.room_id == old.chat_log.room_id
            &&& if res == GameResult::InProgress {
                &&& new == (Game {
                    result: res,
                    chat_log: new.chat_log,
                    batch_request: with_status(old.batch_request, BatchStatus::Completed),
                    ..old
                })
                &&& chat_extended(old.chat_log.messages@, new.chat_log.messages@, seq![win_text(res)])
            } else {
                &&& new == (Game {
                    phase: GamePhase::Finished,
                    result: res,
                    chat_log: new.chat_log,
                    batch_request: with_status(old.batch_request, BatchStatus::Completed),
                    phase_started_at: new.phase_started_at,
                    ..old
                })
                &&& chat_extended(
                    old.chat_log.messages@,
                    new.chat_log.messages@,
                    seq![win_text(res), phase_message(GamePhase::Finished, old.result)],
                )
            }
        },
    }
}

/// A delivery as plain values: player id, node id, ciphertext and nonce text.
pub open spec fn delivery_view(d: RoleDelivery) -> (Seq<char>, u32, Seq<char>, Seq<char>) {
    (d.player_id@, d.node_id, d.encrypted@, d.nonce@)
}

/// Where one share goes: its user id must be the index of a player, and its
/// data must hold a 24-byte nonce.
pub open spec fn delivery_for(players: Seq<Player>, s: EncryptedShare) -> Option<
    (Seq<char>, u32, Seq<char>, Seq<char>),
> {
    match parse_usize_spec(vstd::utf8::encode_utf8(s.user_id@)) {
        Some(i) => if (i as int) < players.len() && s.encrypted_data@.len() >= 24 {
            Some(
                (
                    players[i as int].id@,
                    s.node_id,
                    base64_text(s.encrypted_data@.skip(24)),
                    base64_text(s.encrypted_data@.take(24)),
                ),
            )
        } else {
            None
        },
        None => None,
    }
}

/// The deliveries for `shares`, in order, skipping those that go nowhere.
pub open spec fn deliveries_for(players: Seq<Player>, shares: Seq<EncryptedShare>) -> Seq<
    (Seq<char>, u32, Seq<char>, Seq<char>),
>
    decreases shares.len(),
{
    if shares.len() == 0 {
        Seq::empty()
    } else {
        let rest = deliveries_for(players, shares.drop_last());
        match delivery_for(players, shares.last()) {
            Some(d) => rest.push(d),
            None => rest,
        }
    }
}

/// The role a clear role output stands for: 0 villager, 1 seer, 2 werewolf.
pub open spec fn role_of_repr(r: Seq<u8>) -> Option<Role> {
    if r == small_repr(0) {
        Some(Role::Villager)
    } else if r == small_repr(1) {
        Some(Role::Seer)
    } else if r == small_repr(2) {
        Some(Role::Werewolf)
    } else {
        None
    }
}

/// The name `Debug` gives a role.
pub open spec fn role_debug_name(r: Role) -> Seq<char> {
    match r {
        Role::Villager => "Villager"@,
        Role::Werewolf => "Werewolf"@,
        Role::Seer => "Seer"@,
        Role::Guard => "Guard"@,
    }
}

/// (player id, role name) for the first `n` players whose output names a role.
pub open spec fn assignments_upto(players: Seq<Player>, roles: Seq<Seq<u8>>, n: nat) -> Seq<
    (Seq<char>, Seq<char>),
>
    decreases n,
{
    if n == 0 {
        Seq::empty()
    } else {
        let prev = assignments_upto(players, roles, (n - 1) as nat);
        match role_of_repr(roles[n - 1]) {
            Some(r) => prev.push((players[n - 1].id@, role_debug_name(r))),
            None => prev,
        }
    }
}

pub open spec fn paired_len(players: Seq<Player>, roles: Seq<Seq<u8>>) -> nat {
    if players.len() < roles.len() {
        players.len()
    } else {
        roles.len()
    }
}

pub open spec fn assignment_view(a: PlayerRoleAssignment) -> (Seq<char>, Seq<char>) {
    (a.player_id@, a.role@)
}

/// The clear role outputs `roles` applied to `old`.
pub open spec fn roles_applied(old: Game, new: Game, roles: Option<Seq<Seq<u8>>>, eff: BatchEffect) -> bool {
    match roles {
        None => new == old && eff is Nothing,
        Some(rs) => {
            let n = paired_len(old.players@, rs);
            &&& eff == BatchEffect::RolesAssigned {
                last_role: if n == 0 {
                    None
                } else {
                    role_of_repr(rs[n - 1])
                },
            }
            &&& new == (Game {
                computation_results: ComputationResults {
                    role_assignment: new.computation_results.role_assignment,
                    ..old.computation_results
                },
                batch_request: with_status(old.batch_request, BatchStatus::Completed),
                ..old
            })
            &&& new.computation_results.role_assignment is Some
            &&& {
                let e = new.computation_results.role_assignment->Some_0;
                &&& e.id@ == old.batch_request.batch_id@
                &&& e.phase == old.phase
                &&& e.day_count == old.day_count
                &&& e.result.player_roles@.map_values(|a: PlayerRoleAssignment| assignment_view(a))
                    == assignments_upto(old.players@, rs, n)
                &&& e.result.raw_role_result@.map_values(|v: Vec<u8>| v@) == rs
            }
        },
    }
}

/// The seer-key output `key` applied to `old`.
pub open spec fn key_applied(old: Game, new: Game, key: Option<(Seq<u8>, Seq<u8>)>, eff: BatchEffect) -> bool {
    match key {
        None => new == old && eff is Nothing,
        Some(k) => {
            &&& eff is SeerKeyReady
            &&& eff->x@ == k.0
            &&& eff->y@ == k.1
            &&& new == (Game {
                crypto_parameters: new.crypto_parameters,
                chat_log: new.chat_log,
                batch_request: with_status(old.batch_request, BatchStatus::Completed),
                ..old
            })
            &&& (old.crypto_parameters is None ==> new.crypto_parameters is None)
            &&& (old.crypto_parameters is Some ==> {
                &&& new.crypto_parameters is Some
                &&& new.crypto_parameters->Some_0.pedersen_param
                    == old.crypto_parameters->Some_0.pedersen_param
                &&& new.crypto_parameters->Some_0.player_commitment
                    == old.crypto_parameters->Some_0.player_commitment
                &&& new.crypto_parameters->Some_0.elgamal_param
                    == old.crypto_parameters->Some_0.elgamal_param
                &&& new.crypto_parameters->Some_0.fortune_teller_public_key is Some
                &&& new.crypto_parameters->Some_0.fortune_teller_public_key->Some_0.0@ == k.0
                &&& new.crypto_parameters->Some_0.fortune_teller_public_key->Some_0.1@ == k.1
            })
            &&& new.chat_log.room_id == old.chat_log.room_id
            &&& chat_extended(
                old.chat_log.messages@,
                new.chat_log.messages@,
                seq!["Fortune teller public key has been generated via MPC."@],
            )
        },
    }
}

/// The divination output `value` (a ciphertext) applied to `old`.
pub open spec fn divination_applied(old: Game, new: Game, value: Option<Seq<u8>>, eff: BatchEffect) -> bool {
    match value {
        None => eff is Nothing && only_posted(old, new, seq!["Divination result not found."@]),
        Some(c) => {
            &&& eff == BatchEffect::DivinationReady { announce_processing: old.phase == GamePhase::Night }
            &&& new == (Game {
                computation_results: ComputationResults {
                    divination: new.computation_results.divination,
                    ..old.computation_results
                },
                chat_log: new.chat_log,
                batch_request: with_status(old.batch_request, BatchStatus::Completed),
                ..old
            })
            &&& new.computation_results.divination@.len() == old.computation_results.divination@.len() + 1
            &&& new.computation_results.divination@.drop_last() == old.computation_results.divination@
            &&& new.computation_results.divination@.last().id@ == old.batch_request.batch_id@
            &&& new.computation_results.divination@.last().phase == old.phase
            &&& new.computation_results.divination@.last().day_count == old.day_count
            &&& new.computation_results.divination@.last().result.ciphertext@ == c
            &&& new.chat_log.room_id == old.chat_log.room_id
            &&& chat_extended(
                old.chat_log.messages@,
                new.chat_log.messages@,
                seq!["Divination result has been generated."@],
            )
        },
    }
}

pub open spec fn opt_view(v: Option<Vec<u8>>) -> Option<Seq<u8>> {
    match v {
        Some(b) => Some(b@),
        None => None,
    }
}

/// What a field-element output reads as.
pub open spec fn decoded_fr(v: Option<Vec<u8>>) -> Option<Seq<u8>> {
    match v {
        Some(b) => fr_canonical_bytes(b@),
        None => None,
    }
}

pub open spec fn decoded_fr_vec(v: Option<Vec<u8>>) -> Option<Seq<Seq<u8>>> {
    match v {
        Some(b) => fr_vec_canonical_bytes(b@),
        None => None,
    }
}

pub open spec fn decoded_fr_pair(v: Option<Vec<u8>>) -> Option<(Seq<u8>, Seq<u8>)> {
    match v {
        Some(b) => fr_pair_canonical_bytes(b@),
        None => None,
    }
}

/// What applying the output of a `kind` computation does to the game.
pub open spec fn proof_output_applied(
    old: Game,
    new: Game,
    kind: ProofTypeKey,
    output: ProofOutput,
    eff: BatchEffect,
) -> bool {
    match kind {
        ProofTypeKey::Divination => divination_applied(
            old,
            new,
            opt_view(output.value),
            eff,
        ),
        ProofTypeKey::AnonymousVoting => vote_applied(
            old,
            new,
            decoded_fr(output.value),
            eff,
        ),
        ProofTypeKey::WinningJudge => judgement_applied(
            old,
            new,
            decoded_fr(output.value),
            eff,
        ),
        ProofTypeKey::RoleAssignment => match output.shares {
            Some(s) => shares_applied(old, new, s@, eff),
            None => roles_applied(old, new, decoded_fr_vec(output.value), eff),
        },
        ProofTypeKey::KeyPublicize => key_applied(
            old,
            new,
            decoded_fr_pair(output.value),
            eff,
        ),
    }
}

impl Game {
    /// Stores a divination ciphertext for the current phase and day.
    pub fn apply_divination_output(&mut self, value: Option<Vec<u8>>) -> (eff: BatchEffect)
        ensures
            divination_applied(*old(self), *final(self), opt_view(value), eff),
    {
        match value {
            None => {
                self.post("Divination result not found.".to_owned());
                BatchEffect::Nothing
            },
            Some(c) => {
                let id = self.batch_request.batch_id.clone();
                let at_night = self.phase == GamePhase::Night;
                self.save_divination_result(id, c);
                self.post("Divination result has been generated.".to_owned());
                self.batch_request.status = BatchStatus::Completed;
                BatchEffect::DivinationReady { announce_processing: at_night }
            },
        }
    }

    /// Executes the player the vote circuit names (`target`: the canonical
    /// bytes of its output).
    pub fn apply_vote_result(&mut self, target: Option<Vec<u8>>) -> (eff: BatchEffect)
        requires
            target is Some ==> target->Some_0@.len() > 0,
        ensures
            vote_applied(*old(self), *final(self), opt_view(target), eff),
    {
        let t = match target {
            Some(t) => t,
            None => return BatchEffect::Nothing,
        };
        let index = t[0] as usize;
        if index >= self.players.len() {
            return BatchEffect::Nothing;
        }
        self.players[index].is_dead = true;
        assert(self.players@ =~= old(self).players@.update(
            index as int,
            Player { is_dead: true, ..old(self).players@[index as int] },
        ));
        let text = "Voting result: ".to_owned().concat(self.players[index].name.as_str()).concat(
            " has been executed.",
        );
        let ghost g0 = *self;
        self.chat_log.add_system_message(text);
        proof {
            lemma_one_more(g0.chat_log.messages@, self.chat_log.messages@, text@);
        }
        let ghost g1 = *self;
        self.change_phase(GamePhase::Result);
        proof {
            lemma_two_more(
                g0.chat_log.messages@,
                g1.chat_log.messages@,
                self.chat_log.messages@,
                text@,
                phase_message(GamePhase::Result, old(self).result),
            );
        }
        self.vote_results = Vec::new();
        self.batch_request.status = BatchStatus::Completed;
        BatchEffect::PlayerExecuted { index }
    }

    /// Applies the winner check (`state`: the canonical bytes of its output).
    pub fn apply_judgement(&mut self, state: Option<Vec<u8>>) -> (eff: BatchEffect)
        ensures
            judgement_applied(*old(self), *final(self), opt_view(state), eff),
    {
        let s = match state {
            Some(s) => s,
            None => return BatchEffect::Nothing,
        };
        let result = if repr_is_small(s.as_slice(), 1) {
            GameResult::WerewolfWin
        } else if repr_is_small(s.as_slice(), 2) {
            GameResult::VillagerWin
        } else {
            GameResult::InProgress
        };
        if result == GameResult::InProgress {
            self.post("The game continues.".to_owned());
        } else {
            let text = match result {
                GameResult::VillagerWin => "Villagers win!".to_owned(),
                _ => "Werewolves win!".to_owned(),
            };
            let ghost g0 = *self;
            self.chat_log.add_message(
                ChatMessage::new(
                    "system".to_owned(),
                    "System".to_owned(),
                    text,
                    ChatMessageType::System,
                ),
            );
            proof {
                assert(self.chat_log.messages@.drop_last() =~= g0.chat_log.messages@);
                lemma_one_more(g0.chat_log.messages@, self.chat_log.messages@, text@);
            }
            let ghost g1 = *self;
            self.change_phase(GamePhase::Finished);
            proof {
                lemma_two_more(
                    g0.chat_log.messages@,
                    g1.chat_log.messages@,
                    self.chat_log.messages@,
                    text@,
                    phase_message(GamePhase::Finished, old(self).result),
                );
            }
        }
        self.result = result;
        self.batch_request.status = BatchStatus::Completed;
        BatchEffect::GameJudged { result, state_value: s }
    }
}

/// The delivery of one share, if it goes somewhere.
fn delivery_of(players: &Vec<Player>, share: &EncryptedShare) -> (r: Option<RoleDelivery>)
    ensures
        match r {
            Some(d) => delivery_for(players@, *share) == Some(delivery_view(d)),
            None => delivery_for(players@, *share) is None,
        },
{
    let index = match parse_usize(share.user_id.as_str()) {
        Some(i) => i,
        None => return None,
    };
    if index >= players.len() {
        return None;
    }
    let data = &share.encrypted_data;
    if data.len() < 24 {
        return None;
    }
    let nonce = base64_encode(slice_take(data.as_slice(), 24));
    let encrypted = base64_encode(slice_skip(data.as_slice(), 24));
    Some(
        RoleDelivery {
            player_id: players[index].id.clone(),
            node_id: share.node_id,
            encrypted,
            nonce,
        },
    )
}

/// `bytes[..n]`.
fn slice_take(bytes: &[u8], n: usize) -> (r: &[u8])
    requires
        n <= bytes@.len(),
    ensures
        r@ == bytes@.take(n as int),
{
    vstd::slice::slice_subrange(bytes, 0, n)
}

/// `bytes[n..]`.
fn slice_skip(bytes: &[u8], n: usize) -> (r: &[u8])
    requires
        n <= bytes@.len(),
    ensures
        r@ == bytes@.skip(n as int),
{
    vstd::slice::slice_subrange(bytes, n, bytes.len())
}

/// The deliveries for `shares`, in order.
pub fn role_deliveries(players: &Vec<Player>, shares: &Vec<EncryptedShare>) -> (r: Vec<RoleDelivery>)
    ensures
        r@.map_values(|d: RoleDelivery| delivery_view(d)) == deliveries_for(players@, shares@),
{
    let mut out: Vec<RoleDelivery> = Vec::new();
    let n = shares.len();
    let mut i: usize = 0;
    while i < n
        invariant
            n == shares@.len(),
            i <= n,
            out@.map_values(|d: RoleDelivery| delivery_view(d)) == deliveries_for(
                players@,
                shares@.take(i as int),
            ),
        decreases n - i,
    {
        let d = delivery_of(players, &shares[i]);
        proof {
            assert(shares@.take(i + 1).drop_last() =~= shares@.take(i as int));
            assert(shares@.take(i + 1).last() == shares@[i as int]);
        }
        match d {
            Some(d) => {
                let ghost before = out@;
                out.push(d);
                assert(out@.map_values(|d: RoleDelivery| delivery_view(d)) =~= before.map_values(
                    |d: RoleDelivery| delivery_view(d),
                ).push(delivery_view(d)));
            },
            None => {},
        }
        i += 1;
    }
    assert(shares@.take(n as int) =~= shares@);
    out
}

/// The role-share outputs applied to `old`.
pub open spec fn shares_applied(old: Game, new: Game, shares: Seq<EncryptedShare>, eff: BatchEffect) -> bool {
    &&& eff is RolesDelivered
    &&& eff->deliveries@.map_values(|d: RoleDelivery| delivery_view(d)) == deliveries_for(
        old.players@,
        shares,
    )
    &&& new == (Game {
        chat_log: new.chat_log,
        batch_request: with_status(old.batch_request, BatchStatus::Completed),
        ..old
    })
    &&& new.chat_log.room_id == old.chat_log.room_id
    &&& chat_extended(
        old.chat_log.messages@,
        new.chat_log.messages@,
        seq!["Roles have been assigned. Check your private information."@],
    )
}

/// The role and its `Debug` name.
fn role_name(r: Role) -> (s: String)
    ensures
        s@ == role_debug_name(r),
{
    match r {
        Role::Villager => "Villager".to_owned(),
        Role::Werewolf => "Werewolf".to_owned(),
        Role::Seer => "Seer".to_owned(),
        Role::Guard => "Guard".to_owned(),
    }
}

fn role_from_repr(repr: &Vec<u8>) -> (r: Option<Role>)
    ensures
        r == role_of_repr(repr@),
{
    if repr_is_small(repr.as_slice(), 0) {
        Some(Role::Villager)
    } else if repr_is_small(repr.as_slice(), 1) {
        Some(Role::Seer)
    } else if repr_is_small(repr.as_slice(), 2) {
        Some(Role::Werewolf)
    } else {
        None
    }
}

impl Game {
    /// Hands each encrypted role share to the player it is for.
    pub fn apply_role_shares(&mut self, shares: Vec<EncryptedShare>) -> (eff: BatchEffect)
        ensures
            shares_applied(*old(self), *final(self), shares@, eff),
    {
        let deliveries = role_deliveries(&self.players, &shares);
        self.post("Roles have been assigned. Check your private information.".to_owned());
        self.batch_request.status = BatchStatus::Completed;
        BatchEffect::RolesDelivered { deliveries }
    }

    /// Records roles read in the clear (`roles`: the canonical bytes of each
    /// output, one per player in order).
    pub fn apply_role_values(&mut self, roles: Option<Vec<Vec<u8>>>) -> (eff: BatchEffect)
        ensures
            roles_applied(
                *old(self),
                *final(self),
                match roles {
                    Some(v) => Some(v@.map_values(|e: Vec<u8>| e@)),
                    None => None,
                },
                eff,
            ),
    {
        let rs = match roles {
            Some(rs) => rs,
            None => return BatchEffect::Nothing,
        };
        let ghost rv = rs@.map_values(|e: Vec<u8>| e@);
        let n = if self.players.len() < rs.len() {
            self.players.len()
        } else {
            rs.len()
        };
        let mut assignments: Vec<PlayerRoleAssignment> = Vec::new();
        let mut last_role: Option<Role> = None;
        let mut i: usize = 0;
        while i < n
            invariant
                n == paired_len(self.players@, rv),
                rv == rs@.map_values(|e: Vec<u8>| e@),
                i <= n,
                assignments@.map_values(|a: PlayerRoleAssignment| assignment_view(a))
                    == assignments_upto(self.players@, rv, i as nat),
                last_role == (if i == 0 {
                    None
                } else {
                    role_of_repr(rv[i - 1])
                }),
            decreases n - i,
        {
            let role = role_from_repr(&rs[i]);
            assert(rv[i as int] == rs@[i as int]@);
            last_role = role;
            match role {
                Some(r) => {
                    let ghost before = assignments@;
                    assignments.push(
                        PlayerRoleAssignment { player_id: self.players[i].id.clone(), role: role_name(r) },
                    );
                    assert(assignments@.map_values(|a: PlayerRoleAssignment| assignment_view(a))
                        =~= before.map_values(|a: PlayerRoleAssignment| assignment_view(a)).push(
                        (self.players@[i as int].id@, role_debug_name(r)),
                    ));
                },
                None => {},
            }
            i += 1;
        }
        let now = now_millis();
        self.computation_results.role_assignment = Some(
            ComputationEntry {
                id: self.batch_request.batch_id.clone(),
                computed_at: now,
                phase: self.phase,
                day_count: self.day_count,
                result: RoleAssignmentComputationResult {
                    player_roles: assignments,
                    raw_role_result: rs,
                    computed_at: now,
                },
            },
        );
        self.batch_request.status = BatchStatus::Completed;
        BatchEffect::RolesAssigned { last_role }
    }

    /// Stores the seer's public key (canonical bytes of x and y) in the
    /// game's parameters, when it has them.
    pub fn apply_seer_key(&mut self, key: Option<(Vec<u8>, Vec<u8>)>) -> (eff: BatchEffect)
        ensures
            key_applied(
                *old(self),
                *final(self),
                match key {
                    Some(k) => Some((k.0@, k.1@)),
                    None => None,
                },
                eff,
            ),
    {
        let (x, y) = match key {
            Some(k) => k,
            None => return BatchEffect::Nothing,
        };
        match &mut self.crypto_parameters {
            Some(params) => {
                params.fortune_teller_public_key = Some((x.clone(), y.clone()));
            },
            None => {},
        }
        self.post("Fortune teller public key has been generated via MPC.".to_owned());
        self.batch_request.status = BatchStatus::Completed;
        BatchEffect::SeerKeyReady { x, y }
    }

    /// Applies what a `kind` computation produced, reading its field
    /// elements first; the caller announces the returned effect.
    pub fn apply_proof_output(&mut self, kind: ProofTypeKey, output: ProofOutput) -> (eff: BatchEffect)
        ensures
            proof_output_applied(*old(self), *final(self), kind, output, eff),
    {
        let ProofOutput { output_type: _, value, proof: _, public_inputs: _, shares } = output;
        match kind {
            ProofTypeKey::Divination => self.apply_divination_output(value),
            ProofTypeKey::AnonymousVoting => {
                let t = match &value {
                    Some(b) => decode_fr(b.as_slice()),
                    None => None,
                };
                self.apply_vote_result(t)
            },
            ProofTypeKey::WinningJudge => {
                let t = match &value {
                    Some(b) => decode_fr(b.as_slice()),
                    None => None,
                };
                self.apply_judgement(t)
            },
            ProofTypeKey::RoleAssignment => match shares {
                Some(s) => self.apply_role_shares(s),
                None => {
                    let rs = match &value {
                        Some(b) => decode_fr_vec(b.as_slice()),
                        None => None,
                    };
                    self.apply_role_values(rs)
                },
            },
            ProofTypeKey::KeyPublicize => {
                let k = match &value {
                    Some(b) => decode_fr_pair(b.as_slice()),
                    None => None,
                };
                self.apply_seer_key(k)
            },
        }
    }

    /// Settles the batch being processed once the nodes are done: a failed
    /// execution (`exec` is `Err`) fails it; otherwise the verifier
    /// contract's answer (`chain`, `None` when no chain is used) is
    /// recorded, and only when it lets the batch go on is the output
    /// applied. So a batch completes only after a successful execution and,
    /// when a chain is used, an accepted proof.
    pub fn settle_batch(
        &mut self,
        exec: Result<(ProofTypeKey, ProofOutput), String>,
        chain: Option<Result<Option<bool>, String>>,
    ) -> (eff: BatchEffect)
        ensures
            match exec {
                Err(e) => eff is Nothing && failed_with(*old(self), *final(self), "Failed to process proof: "@ + e@),
                Ok((kind, output)) => match chain {
                    None => proof_output_applied(*old(self), *final(self), kind, output, eff),
                    Some(v) => if verification_proceeds(v) {
                        exists|mid: Game|
                            verification_recorded(*old(self), mid, kind, v) && #[trigger] proof_output_applied(
                                mid,
                                *final(self),
                                kind,
                                output,
                                eff,
                            )
                    } else {
                        eff is Nothing && verification_recorded(*old(self), *final(self), kind, v)
                    },
                },
            },
            final(self).batch_request.status == BatchStatus::Completed ==> exec is Ok && (chain is None
                || verification_proceeds(chain->Some_0)),
    {
        let (kind, output) = match exec {
            Err(e) => {
                self.fail_batch(e);
                return BatchEffect::Nothing;
            },
            Ok(r) => r,
        };
        match chain {
            None => self.apply_proof_output(kind, output),
            Some(v) => {
                if !self.record_onchain_verification(kind, v) {
                    return BatchEffect::Nothing;
                }
                let ghost mid = *self;
                let eff = self.apply_proof_output(kind, output);
                assert(verification_recorded(*old(self), mid, kind, v));
                eff
            },
        }
    }

    /// After a batch was processed, a fresh empty batch takes its place.
    pub fn finish_current_batch(&mut self)
        ensures
            final(self).batch_request.requests@.len() == 0,
            final(self).batch_request.expected_prover_count == 0,
            final(self).batch_request.status == BatchStatus::Collecting,
            *final(self) == (Game { batch_request: final(self).batch_request, ..*old(self) }),
    {
        self.batch_request = BatchRequest::new(0);
    }
}

} // verus!
