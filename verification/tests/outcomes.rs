use ark_bn254::Fr;
use ark_serialize::CanonicalSerialize;
use zk_werewolf::batch::ProofTypeKey;
use zk_werewolf::chain::ProofType;
use zk_werewolf::game::{CryptoParameters, Game, GamePhase, GameResult, GroupingParameter};
use zk_werewolf::outcome::{role_deliveries, BatchEffect, CircuitProfileInfo};
use zk_werewolf::batch::BatchStatus;
use zk_werewolf::player::Player;
use zk_werewolf::proof_output::{EncryptedShare, ProofOutput, ProofOutputType};
use zk_werewolf::role::Role;

fn game_with(n: usize) -> Game {
    let players: Vec<Player> = (1..=n).map(|i| Player::new(i.to_string(), format!("p{}", i), None)).collect();
    let gp = GroupingParameter { fortune_teller: (1, false), werewolf: (1, false), villager: (n - 2, false) };
    let mut g = Game::new("room".to_string(), players, n, gp);
    g.batch_request.batch_id = "batch-1".to_string();
    g
}

fn fr_bytes(v: u64) -> Vec<u8> {
    let mut out = Vec::new();
    Fr::from(v).serialize(&mut out).unwrap();
    out
}

fn output(value: Option<Vec<u8>>, shares: Option<Vec<EncryptedShare>>) -> ProofOutput {
    ProofOutput { output_type: ProofOutputType::Public, value, proof: Some(vec![1]), public_inputs: None, shares }
}

fn small(k: u8) -> Vec<u8> {
    let mut v = vec![0u8; 32];
    v[0] = k;
    v
}

#[test]
fn vote_output_executes_the_named_player() {
    let mut g = game_with(4);
    g.phase = GamePhase::Voting;
    g.cast_vote("1", "3").unwrap();
    let eff = g.apply_proof_output(ProofTypeKey::AnonymousVoting, output(Some(fr_bytes(2)), None));
    assert!(matches!(eff, BatchEffect::PlayerExecuted { index: 2 }));
    assert!(g.players[2].is_dead);
    assert_eq!(g.phase, GamePhase::Result);
    assert!(g.vote_results.is_empty());
    assert_eq!(g.batch_request.status, BatchStatus::Completed);
    let texts: Vec<&str> = g.chat_log.messages.iter().map(|m| m.content.as_str()).collect();
    assert_eq!(texts, vec!["Voting result: p3 has been executed.", "Voting has ended. Announcing results."]);
}

#[test]
fn vote_output_out_of_range_changes_nothing() {
    let mut g = game_with(4);
    let eff = g.apply_proof_output(ProofTypeKey::AnonymousVoting, output(Some(fr_bytes(9)), None));
    assert!(matches!(eff, BatchEffect::Nothing));
    assert!(g.players.iter().all(|p| !p.is_dead));
    let eff = g.apply_proof_output(ProofTypeKey::AnonymousVoting, output(Some(vec![1, 2, 3]), None));
    assert!(matches!(eff, BatchEffect::Nothing));
}

#[test]
fn winner_check_ends_the_game() {
    let mut g = game_with(4);
    g.phase = GamePhase::Discussion;
    let eff = g.apply_proof_output(ProofTypeKey::WinningJudge, output(Some(fr_bytes(5)), None));
    match eff {
        BatchEffect::GameJudged { result, state_value } => {
            assert_eq!(result, GameResult::InProgress);
            assert_eq!(state_value, small(5));
        },
        _ => panic!("expected a judgement"),
    }
    assert_eq!(g.phase, GamePhase::Discussion);
    assert_eq!(g.chat_log.messages.last().unwrap().content, "The game continues.");
    let eff = g.apply_proof_output(ProofTypeKey::WinningJudge, output(Some(fr_bytes(1)), None));
    assert!(matches!(eff, BatchEffect::GameJudged { result: GameResult::WerewolfWin, .. }));
    assert_eq!(g.result, GameResult::WerewolfWin);
    assert_eq!(g.phase, GamePhase::Finished);
    let mut h = game_with(4);
    h.apply_proof_output(ProofTypeKey::WinningJudge, output(Some(fr_bytes(2)), None));
    assert_eq!(h.result, GameResult::VillagerWin);
}

#[test]
fn divination_output_is_stored_for_the_phase() {
    let mut g = game_with(4);
    g.phase = GamePhase::Night;
    let eff = g.apply_proof_output(ProofTypeKey::Divination, output(Some(vec![7, 7]), None));
    assert!(matches!(eff, BatchEffect::DivinationReady { announce_processing: true }));
    assert_eq!(g.computation_results.divination.len(), 1);
    assert_eq!(g.computation_results.divination[0].result.ciphertext, vec![7, 7]);
    assert_eq!(g.computation_results.divination[0].id, "batch-1");
    assert!(g.has_divination_for_current_phase());
    let mut h = game_with(4);
    let eff = h.apply_proof_output(ProofTypeKey::Divination, output(None, None));
    assert!(matches!(eff, BatchEffect::Nothing));
    assert_eq!(h.chat_log.messages.last().unwrap().content, "Divination result not found.");
}

#[test]
fn clear_roles_are_recorded() {
    let mut g = game_with(4);
    let mut value = Vec::new();
    vec![Fr::from(2u64), Fr::from(0u64), Fr::from(1u64), Fr::from(7u64)].serialize(&mut value).unwrap();
    let eff = g.apply_proof_output(ProofTypeKey::RoleAssignment, output(Some(value), None));
    assert!(matches!(eff, BatchEffect::RolesAssigned { last_role: None }));
    let entry = g.computation_results.role_assignment.as_ref().unwrap();
    let roles: Vec<(&str, &str)> =
        entry.result.player_roles.iter().map(|a| (a.player_id.as_str(), a.role.as_str())).collect();
    assert_eq!(roles, vec![("1", "Werewolf"), ("2", "Villager"), ("3", "Seer")]);
    assert!(g.has_role_assignment());
    let _ = Role::Werewolf;
}

#[test]
fn encrypted_role_shares_go_to_their_players() {
    let mut g = game_with(4);
    let mut data = vec![1u8; 24];
    data.extend_from_slice(&[9, 9, 9]);
    let shares = vec![
        EncryptedShare { node_id: 0, user_id: "2".into(), encrypted_data: data.clone() },
        EncryptedShare { node_id: 1, user_id: "9".into(), encrypted_data: data.clone() },
        EncryptedShare { node_id: 2, user_id: "0".into(), encrypted_data: vec![1, 2] },
    ];
    let eff = g.apply_proof_output(ProofTypeKey::RoleAssignment, output(None, Some(shares)));
    match eff {
        BatchEffect::RolesDelivered { deliveries } => {
            assert_eq!(deliveries.len(), 1);
            assert_eq!(deliveries[0].player_id, "3");
            assert_eq!(deliveries[0].node_id, 0);
            assert_eq!(deliveries[0].encrypted, "CQkJ");
            assert_eq!(deliveries[0].nonce, "AQEBAQEBAQEBAQEBAQEBAQEBAQEBAQEB");
        },
        _ => panic!("expected deliveries"),
    }
    assert_eq!(
        g.chat_log.messages.last().unwrap().content,
        "Roles have been assigned. Check your private information."
    );
    assert!(role_deliveries(&g.players, &vec![]).is_empty());
}

#[test]
fn seer_key_is_kept_in_the_parameters() {
    let mut g = game_with(4);
    g.crypto_parameters = Some(CryptoParameters {
        pedersen_param: vec![1],
        player_commitment: vec![],
        fortune_teller_public_key: None,
        elgamal_param: vec![2],
    });
    let mut value = Vec::new();
    (Fr::from(3u64), Fr::from(4u64)).serialize(&mut value).unwrap();
    let eff = g.apply_proof_output(ProofTypeKey::KeyPublicize, output(Some(value), None));
    match eff {
        BatchEffect::SeerKeyReady { x, y } => {
            assert_eq!(x, small(3));
            assert_eq!(y, small(4));
        },
        _ => panic!("expected the seer's key"),
    }
    let key = g.crypto_parameters.as_ref().unwrap().fortune_teller_public_key.clone().unwrap();
    assert_eq!(key, (small(3), small(4)));
}

#[test]
fn onchain_verification_plan_and_outcomes() {
    let mut g = game_with(4);
    let out = output(Some(vec![1]), None);
    let profile = CircuitProfileInfo { player_count: 4, werewolf_count: 1, supported_onchain: true };
    let req = g.plan_onchain_verification(ProofTypeKey::KeyPublicize, Some(profile), &out).unwrap();
    assert_eq!(req.proof_type, ProofType::KeyPublicize);
    assert_eq!(req.player_count, 4);
    assert_eq!(req.proof_data, vec![1]);
    assert!(req.public_inputs.is_empty());
    assert!(g.plan_onchain_verification(ProofTypeKey::Divination, Some(profile), &out).is_none());
    assert_eq!(
        g.chat_log.messages.last().unwrap().content,
        "On-chain proof verification skipped: missing public inputs for Divination."
    );
    assert!(g.plan_onchain_verification(ProofTypeKey::Divination, None, &out).is_none());
    assert_eq!(g.batch_request.status, BatchStatus::Failed);
    assert_eq!(
        g.chat_log.messages.last().unwrap().content,
        "On-chain proof verification skipped: failed to derive circuit profile."
    );
    let mut h = game_with(4);
    assert!(h.record_onchain_verification(ProofTypeKey::Divination, Ok(None)));
    assert!(!h.record_onchain_verification(ProofTypeKey::Divination, Ok(Some(false))));
    assert_eq!(h.chat_log.messages.last().unwrap().content, "On-chain proof verification failed.");
    assert!(!h.record_onchain_verification(ProofTypeKey::Divination, Err("rpc".into())));
    assert_eq!(h.chat_log.messages.last().unwrap().content, "On-chain proof verification error: rpc");
    h.fail_batch("boom".into());
    assert_eq!(h.chat_log.messages.last().unwrap().content, "Failed to process proof: boom");
    h.finish_current_batch();
    assert_eq!(h.batch_request.status, BatchStatus::Collecting);
}

#[test]
fn a_batch_completes_only_after_execution_and_acceptance() {
    let mut g = game_with(4);
    g.begin_batch_processing();
    let eff = g.settle_batch(Err("node down".to_string()), None);
    assert!(matches!(eff, BatchEffect::Nothing));
    assert_eq!(g.batch_request.status, BatchStatus::Failed);
    assert_eq!(g.chat_log.messages.last().unwrap().content, "Failed to process proof: node down");

    let mut g = game_with(4);
    g.phase = GamePhase::Voting;
    g.cast_vote("1", "3").unwrap();
    g.begin_batch_processing();
    let eff = g.settle_batch(Ok((ProofTypeKey::AnonymousVoting, output(Some(fr_bytes(2)), None))), Some(Ok(Some(false))));
    assert!(matches!(eff, BatchEffect::Nothing));
    assert_eq!(g.batch_request.status, BatchStatus::Failed);
    assert!(g.players.iter().all(|p| !p.is_dead));
    assert_eq!(g.chat_log.messages.last().unwrap().content, "On-chain proof verification failed.");

    let mut g = game_with(4);
    g.phase = GamePhase::Voting;
    g.cast_vote("1", "3").unwrap();
    g.begin_batch_processing();
    let eff = g.settle_batch(Ok((ProofTypeKey::AnonymousVoting, output(Some(fr_bytes(2)), None))), Some(Ok(Some(true))));
    assert!(matches!(eff, BatchEffect::PlayerExecuted { index: 2 }));
    assert_eq!(g.batch_request.status, BatchStatus::Completed);
    assert!(g.players[2].is_dead);

    let mut g = game_with(4);
    g.phase = GamePhase::Voting;
    g.cast_vote("1", "3").unwrap();
    g.begin_batch_processing();
    let eff = g.settle_batch(Ok((ProofTypeKey::AnonymousVoting, output(Some(fr_bytes(2)), None))), None);
    assert!(matches!(eff, BatchEffect::PlayerExecuted { index: 2 }));
    assert_eq!(g.batch_request.status, BatchStatus::Completed);
}
