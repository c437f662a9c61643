//! Deciding whether a game accepts a client's proof request, and other
//! per-request game actions (night attacks, commitments).

use vstd::prelude::*;
use vstd::string::StringExecFns;
use crate::batch::{
    BatchEnqueueError, BatchEnqueueResult, BatchRequest, ClientRequestType, ProofTypeKey, info_of,
    proof_type_of,
};
use crate::batching::{batch_key_spec, upsert, base_requests};
use crate::chat::is_system_message;
use crate::game::{BatchKey, Game, GamePhase, GameResult, NightAction, NightActionRequest, phase_debug_name, phase_name};
use crate::player::{first_index_of, find_player_index, has_player, lemma_first_index_of};

verus! {

#[derive(Debug)]
pub enum ProofHandlingError {
    Conflict(String),
    Unprocessable(String),
    Internal(String),
}

/// A batch handed to the proof workers.
#[derive(Debug)]
pub struct ProofJob {
    pub room_id: String,
    pub batch_key: BatchKey,
    pub batch_request: BatchRequest,
}

/// The phases in which a game accepts each kind of proof request.
pub open spec fn phase_accepts(phase: GamePhase, t: ProofTypeKey) -> bool {
    match t {
        ProofTypeKey::RoleAssignment | ProofTypeKey::KeyPublicize => phase == GamePhase::Night,
        ProofTypeKey::Divination => phase == GamePhase::DivinationProcessing,
        ProofTypeKey::AnonymousVoting => phase == GamePhase::Voting,
        ProofTypeKey::WinningJudge => phase == GamePhase::DivinationProcessing || phase
            == GamePhase::Discussion || phase == GamePhase::Result,
    }
}

/// The name `Debug` gives a proof type.
pub open spec fn proof_type_name(t: ProofTypeKey) -> Seq<char> {
    match t {
        ProofTypeKey::RoleAssignment => "RoleAssignment"@,
        ProofTypeKey::Divination => "Divination"@,
        ProofTypeKey::AnonymousVoting => "AnonymousVoting"@,
        ProofTypeKey::WinningJudge => "WinningJudge"@,
        ProofTypeKey::KeyPublicize => "KeyPublicize"@,
    }
}

pub fn proof_type_debug_name(t: ProofTypeKey) -> (s: String)
    ensures
        s@ == proof_type_name(t),
{
    match t {
        ProofTypeKey::RoleAssignment => "RoleAssignment".to_owned(),
        ProofTypeKey::Divination => "Divination".to_owned(),
        ProofTypeKey::AnonymousVoting => "AnonymousVoting".to_owned(),
        ProofTypeKey::WinningJudge => "WinningJudge".to_owned(),
        ProofTypeKey::KeyPublicize => "KeyPublicize".to_owned(),
    }
}

/// Refuses a request that the current phase does not accept.
pub fn validate_phase_for_request(phase: &GamePhase, request: &ClientRequestType) -> (r: Result<
    (),
    ProofHandlingError,
>)
    ensures
        r is Ok <==> phase_accepts(*phase, proof_type_of(*request)),
        r is Err ==> r->Err_0 is Unprocessable && error_text(r->Err_0) == "phase "@ + phase_name(
            *phase,
        ) + " does not accept "@ + proof_type_name(proof_type_of(*request)) + " proof requests"@,
{
    let t = request.get_proof_type();
    let ok = match t {
        ProofTypeKey::RoleAssignment | ProofTypeKey::KeyPublicize => *phase == GamePhase::Night,
        ProofTypeKey::Divination => *phase == GamePhase::DivinationProcessing,
        ProofTypeKey::AnonymousVoting => *phase == GamePhase::Voting,
        ProofTypeKey::WinningJudge => *phase == GamePhase::DivinationProcessing || *phase
            == GamePhase::Discussion || *phase == GamePhase::Result,
    };
    if ok {
        Ok(())
    } else {
        let m = "phase ".to_owned().concat(phase_debug_name(*phase).as_str()).concat(
            " does not accept ",
        ).concat(proof_type_debug_name(t).as_str()).concat(" proof requests");
        Err(ProofHandlingError::Unprocessable(m))
    }
}

/// Why a game refuses a request as already done, if it does.
pub open spec fn duplicate_reason(g: Game, r: ClientRequestType) -> Option<Seq<char>> {
    match r {
        ClientRequestType::RoleAssignment(_) => if g.computation_results.role_assignment.is_some() {
            Some("Role assignment has already been completed"@)
        } else {
            None
        },
        ClientRequestType::Divination(_) => if exists|i: int|
            0 <= i < g.computation_results.divination@.len()
                && (#[trigger] g.computation_results.divination@[i]).phase == g.phase
                && g.computation_results.divination@[i].day_count == g.day_count {
            Some("Divination has already been completed for current phase"@)
        } else {
            None
        },
        ClientRequestType::WinningJudge(_) => if g.result != GameResult::InProgress {
            Some("Winning judgement has already been completed for current phase"@)
        } else {
            None
        },
        ClientRequestType::AnonymousVoting(_) => if g.vote_results@.len() > 0 {
            Some("Voting has already been completed for current phase"@)
        } else {
            None
        },
        ClientRequestType::KeyPublicize(_) => None,
    }
}

pub open spec fn error_text(e: ProofHandlingError) -> Seq<char> {
    match e {
        ProofHandlingError::Conflict(m) => m@,
        ProofHandlingError::Unprocessable(m) => m@,
        ProofHandlingError::Internal(m) => m@,
    }
}

impl Game {
    /// A client's proof request: checked against the phase and against work
    /// already done, logged in the chat, then added to its batch. When the
    /// batch is complete, the job to run it comes back with the batch id.
    pub fn handle_proof_request(&mut self, request: &ClientRequestType) -> (r: Result<
        (String, Option<ProofJob>),
        ProofHandlingError,
    >)
        requires
            old(self).grouping_parameter.num_players_spec() <= usize::MAX,
        ensures
            !phase_accepts(old(self).phase, proof_type_of(*request)) ==> r is Err
                && r->Err_0 is Unprocessable && *final(self) == *old(self),
            phase_accepts(old(self).phase, proof_type_of(*request)) && duplicate_reason(
                *old(self),
                *request,
            ) is Some ==> r is Err && r->Err_0 is Conflict && Some(error_text(r->Err_0))
                == duplicate_reason(*old(self), *request) && *final(self) == *old(self),
            phase_accepts(old(self).phase, proof_type_of(*request)) && duplicate_reason(
                *old(self),
                *request,
            ) is None ==> {
                &&& final(self).chat_log.messages@.len() == old(self).chat_log.messages@.len() + 1
                &&& is_system_message(
                    final(self).chat_log.messages@[old(self).chat_log.messages@.len() as int],
                    info_of(*request).user_id@ + " has sent a proof request."@,
                )
                &&& final(self).phase == old(self).phase
                &&& final(self).day_count == old(self).day_count
                &&& final(self).players == old(self).players
                &&& final(self).vote_results == old(self).vote_results
                &&& final(self).computation_results == old(self).computation_results
                &&& (info_of(*request).prover_count == 0 ==> r is Err && r->Err_0 is Conflict)
                &&& (r matches Ok((id, job)) ==> {
                    let reqs = upsert(base_requests(*old(self), *request), *request);
                    &&& job is Some <==> reqs.len() >= info_of(*request).prover_count
                    &&& job is Some ==> {
                        let j = job->Some_0;
                        &&& j.room_id == old(self).room_id
                        &&& j.batch_key == batch_key_spec(*old(self), *request)
                        &&& j.batch_request.requests@ == reqs
                        &&& j.batch_request.batch_id == id
                        &&& j.batch_request.batch_id == final(self).batch_request.batch_id
                    }
                })
            },
    {
        match validate_phase_for_request(&self.phase, request) {
            Ok(()) => {},
            Err(e) => return Err(e),
        }
        match request {
            ClientRequestType::RoleAssignment(_) => {
                if self.has_role_assignment() {
                    return Err(
                        ProofHandlingError::Conflict(
                            "Role assignment has already been completed".to_owned(),
                        ),
                    );
                }
            },
            ClientRequestType::Divination(_) => {
                if self.has_divination_for_current_phase() {
                    return Err(
                        ProofHandlingError::Conflict(
                            "Divination has already been completed for current phase".to_owned(),
                        ),
                    );
                }
            },
            ClientRequestType::WinningJudge(_) => {
                if self.result != GameResult::InProgress {
                    return Err(
                        ProofHandlingError::Conflict(
                            "Winning judgement has already been completed for current phase".to_owned(),
                        ),
                    );
                }
            },
            ClientRequestType::AnonymousVoting(_) => {
                if !self.vote_results.is_empty() {
                    return Err(
                        ProofHandlingError::Conflict(
                            "Voting has already been completed for current phase".to_owned(),
                        ),
                    );
                }
            },
            ClientRequestType::KeyPublicize(_) => {},
        }
        let user_id = request.get_user_id().to_owned();
        let text = user_id.concat(" has sent a proof request.");
        self.chat_log.add_system_message(text);
        let ghost after_log = *self;
        assert(base_requests(after_log, *request) == base_requests(*old(self), *request));
        assert(batch_key_spec(after_log, *request) == batch_key_spec(*old(self), *request));
        let enqueued = match self.add_request_to_batch(request.clone()) {
            Ok(res) => res,
            Err(BatchEnqueueError::Conflict(m)) => return Err(ProofHandlingError::Conflict(m)),
        };
        let job = if enqueued.should_process {
            Some(
                ProofJob {
                    room_id: self.room_id.clone(),
                    batch_key: self.build_batch_key(request),
                    batch_request: self.batch_request.clone(),
                },
            )
        } else {
            None
        };
        Ok((enqueued.batch_id, job))
    }

    /// A werewolf's night action: only at night, only from a player of the
    /// game; an attack must name a player of the game.
    pub fn process_night_action(&mut self, action_req: &NightActionRequest) -> (r: Result<
        String,
        String,
    >)
        ensures
            old(self).phase != GamePhase::Night ==> r is Err && r->Err_0@
                == "夜のアクションは夜にのみ実行できます"@,
            old(self).phase == GamePhase::Night && !has_player(
                old(self).players@,
                action_req.player_id@,
            ) ==> r is Err && r->Err_0@ == "プレイヤーが見つかりません"@,
            old(self).phase == GamePhase::Night && has_player(
                old(self).players@,
                action_req.player_id@,
            ) ==> match action_req.action {
                NightAction::Attack { target_id } => if has_player(old(self).players@, target_id@) {
                    r is Ok && r->Ok_0@ == "襲撃先を登録しました"@
                        && final(self).night_actions.attacks@.map_values(|s: String| s@)
                        == old(self).night_actions.attacks@.map_values(|s: String| s@).push(
                        target_id@,
                    ) && *final(self) == (Game {
                        night_actions: final(self).night_actions,
                        ..*old(self)
                    })
                } else {
                    r is Err && r->Err_0@ == "Target player not found"@
                },
            },
            r is Err ==> *final(self) == *old(self),
    {
        if self.phase != GamePhase::Night {
            return Err("夜のアクションは夜にのみ実行できます".to_owned());
        }
        proof {
            lemma_first_index_of(self.players@, action_req.player_id@);
        }
        if find_player_index(&self.players, action_req.player_id.as_str()).is_none() {
            return Err("プレイヤーが見つかりません".to_owned());
        }
        match &action_req.action {
            NightAction::Attack { target_id } => {
                match self.register_attack(target_id.as_str()) {
                    Ok(()) => Ok("襲撃先を登録しました".to_owned()),
                    Err(e) => Err(e),
                }
            },
        }
    }
}

} // verus!
