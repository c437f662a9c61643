use zk_werewolf::game::Vote;
use zk_werewolf::batch::{ClientRequestType, ProofTypeKey, ProverInfo};
use zk_werewolf::chat::{ChatMessage, ChatMessageType};
use zk_werewolf::commands::filter_visible;
use zk_werewolf::game::{
    next_phase, phase_debug_name, CryptoParameters, Game, GamePhase, GameResult, GroupingParameter, NightAction,
    NightActionRequest,
};
use zk_werewolf::game_hash::compute_game_state_hash;
use zk_werewolf::player::Player;
use zk_werewolf::proof_requests::{validate_phase_for_request, ProofHandlingError};
use zk_werewolf::role::Role;
use zk_werewolf::role_assignment::{assign_roles_with, werewolf_count_rule};
use zk_werewolf::voting::phase_updated_message;

fn game_with(n: usize) -> Game {
    let players: Vec<Player> = (1..=n).map(|i| Player::new(i.to_string(), format!("p{}", i), None)).collect();
    let gp = GroupingParameter { fortune_teller: (1, false), werewolf: (1, false), villager: (n - 2, false) };
    Game::new("room".to_string(), players, n, gp)
}

fn prover(user: &str, count: usize, key: Option<&str>) -> ProverInfo {
    ProverInfo {
        user_id: user.to_string(),
        prover_count: count,
        encrypted_data: "data".to_string(),
        is_dummy: false,
        public_key: key.map(|k| k.to_string()),
    }
}

#[test]
fn new_game_starts_waiting_on_day_one() {
    let g = game_with(4);
    assert_eq!(g.phase, GamePhase::Waiting);
    assert_eq!(g.day_count, 1);
    assert_eq!(g.result, GameResult::InProgress);
    assert!(g.vote_results.is_empty());
    assert!(g.chat_log.messages.is_empty());
    assert!(g.batch_request.requests.is_empty());
    assert!(g.players.iter().all(|p| !p.is_dead && !p.is_ready));
}

#[test]
fn phases_go_round_and_days_advance() {
    let mut g = game_with(4);
    let expected = [
        (GamePhase::Waiting, GamePhase::Night),
        (GamePhase::Night, GamePhase::DivinationProcessing),
        (GamePhase::DivinationProcessing, GamePhase::Discussion),
        (GamePhase::Discussion, GamePhase::Voting),
        (GamePhase::Voting, GamePhase::Result),
        (GamePhase::Result, GamePhase::Night),
    ];
    for (from, to) in expected.iter() {
        assert_eq!(g.advance_phase().unwrap(), (*from, *to));
    }
    assert_eq!(g.day_count, 2);
    assert_eq!(g.chat_log.messages.len(), 6);
    assert_eq!(
        g.chat_log.messages.last().unwrap().content,
        "Night has fallen. Werewolves, choose your prey. Seer, choose your target."
    );
    assert_eq!(next_phase(GamePhase::Finished), None);
    g.phase = GamePhase::Finished;
    assert_eq!(g.advance_phase().unwrap_err(), "ゲームは既に終了しています");
    assert_eq!(phase_updated_message(GamePhase::Voting), "フェーズを更新しました: Voting");
    assert_eq!(phase_debug_name(GamePhase::DivinationProcessing), "DivinationProcessing");
}

#[test]
fn night_attack_kills_target_when_night_ends() {
    let mut g = game_with(4);
    g.advance_phase().unwrap();
    let req = NightActionRequest { player_id: "1".to_string(), action: NightAction::Attack { target_id: "3".to_string() } };
    assert_eq!(g.process_night_action(&req).unwrap(), "襲撃先を登録しました");
    let bad = NightActionRequest { player_id: "1".to_string(), action: NightAction::Attack { target_id: "9".to_string() } };
    assert_eq!(g.process_night_action(&bad).unwrap_err(), "Target player not found");
    let stranger = NightActionRequest { player_id: "x".to_string(), action: NightAction::Attack { target_id: "2".to_string() } };
    assert_eq!(g.process_night_action(&stranger).unwrap_err(), "プレイヤーが見つかりません");
    g.advance_phase().unwrap();
    assert!(g.players[2].is_dead);
    assert!(!g.players[1].is_dead);
    assert!(g.night_actions.attacks.is_empty());
    let late = NightActionRequest { player_id: "1".to_string(), action: NightAction::Attack { target_id: "2".to_string() } };
    assert_eq!(g.process_night_action(&late).unwrap_err(), "夜のアクションは夜にのみ実行できます");
}

#[test]
fn voting_rules_and_resolution() {
    let mut g = game_with(4);
    assert_eq!(g.cast_vote("9", "1").unwrap_err(), "Voter not found");
    assert_eq!(g.cast_vote("1", "9").unwrap_err(), "Vote target not found");
    g.cast_vote("1", "2").unwrap();
    assert_eq!(g.cast_vote("1", "3").unwrap_err(), "Already voted");
    g.cast_vote("3", "2").unwrap();
    g.cast_vote("4", "1").unwrap();
    assert_eq!(g.count_votes(), Some(("2".to_string(), 2)));
    g.resolve_voting();
    assert!(g.players[1].is_dead);
    assert!(g.vote_results.is_empty());
    assert_eq!(g.cast_vote("2", "1").unwrap_err(), "Dead players cannot vote");
}

#[test]
fn vote_tie_goes_to_last_listed_target() {
    let mut g = game_with(4);
    g.cast_vote("1", "2").unwrap();
    g.cast_vote("2", "3").unwrap();
    assert_eq!(g.count_votes(), Some(("3".to_string(), 1)));
    let empty = game_with(4);
    assert_eq!(empty.count_votes(), None);
}

#[test]
fn proof_requests_are_checked_against_the_phase() {
    let role = ClientRequestType::RoleAssignment(prover("1", 2, Some("k")));
    assert!(validate_phase_for_request(&GamePhase::Night, &role).is_ok());
    match validate_phase_for_request(&GamePhase::Voting, &role) {
        Err(ProofHandlingError::Unprocessable(m)) => {
            assert_eq!(m, "phase Voting does not accept RoleAssignment proof requests")
        },
        _ => panic!("expected an unprocessable request"),
    }
    let judge = ClientRequestType::WinningJudge(prover("1", 2, None));
    for p in [GamePhase::DivinationProcessing, GamePhase::Discussion, GamePhase::Result] {
        assert!(validate_phase_for_request(&p, &judge).is_ok());
    }
    assert!(validate_phase_for_request(&GamePhase::Night, &judge).is_err());
}

#[test]
fn batch_completes_when_all_provers_sent() {
    let mut g = game_with(4);
    g.advance_phase().unwrap();
    let (id1, job1) = g.handle_proof_request(&ClientRequestType::RoleAssignment(prover("1", 2, Some("k1")))).unwrap();
    assert!(job1.is_none());
    assert_eq!(g.chat_log.messages.last().unwrap().content, "1 has sent a proof request.");
    let (id2, job2) = g.handle_proof_request(&ClientRequestType::RoleAssignment(prover("2", 2, Some("k2")))).unwrap();
    assert_eq!(id1, id2);
    let job = job2.expect("the batch is complete");
    assert_eq!(job.room_id, "room");
    assert_eq!(job.batch_request.batch_id, id2);
    assert_eq!(job.batch_request.requests.len(), 2);
    assert_eq!(job.batch_key.proof_type, ProofTypeKey::RoleAssignment);
}

#[test]
fn repeated_request_of_a_user_replaces_the_earlier_one() {
    let mut g = game_with(4);
    g.advance_phase().unwrap();
    let (_, a) = g.handle_proof_request(&ClientRequestType::KeyPublicize(prover("1", 3, None))).unwrap();
    let (_, b) = g.handle_proof_request(&ClientRequestType::KeyPublicize(prover("1", 3, None))).unwrap();
    assert!(a.is_none() && b.is_none());
    let (_, c) = g.handle_proof_request(&ClientRequestType::KeyPublicize(prover("2", 3, None))).unwrap();
    assert!(c.is_none());
    let (_, d) = g.handle_proof_request(&ClientRequestType::KeyPublicize(prover("3", 3, None))).unwrap();
    assert_eq!(d.unwrap().batch_request.requests.len(), 3);
}

#[test]
fn duplicate_voting_request_is_a_conflict() {
    let mut g = game_with(4);
    g.phase = GamePhase::Voting;
    g.cast_vote("1", "2").unwrap();
    match g.handle_proof_request(&ClientRequestType::AnonymousVoting(prover("1", 4, None))) {
        Err(ProofHandlingError::Conflict(m)) => assert_eq!(m, "Voting has already been completed for current phase"),
        _ => panic!("expected a conflict"),
    }
}

#[test]
fn private_messages_are_shown_only_to_their_sender() {
    let mut g = game_with(4);
    g.chat_log.add_message(ChatMessage::new("1".into(), "p1".into(), "hello".into(), ChatMessageType::Public));
    g.chat_log.add_message(ChatMessage::new("2".into(), "p2".into(), "secret".into(), ChatMessageType::Private));
    g.chat_log.add_system_message("note".into());
    let seen_by_1 = filter_visible(&g.chat_log, "1");
    assert_eq!(seen_by_1.iter().map(|m| m.content.as_str()).collect::<Vec<_>>(), vec!["hello", "note"]);
    let seen_by_2 = filter_visible(&g.chat_log, "2");
    assert_eq!(seen_by_2.len(), 3);
    assert_eq!(g.chat_log.get_messages_by_type(ChatMessageType::System).len(), 1);
}

#[test]
fn commitments_fill_the_players_slots() {
    let mut g = game_with(4);
    assert_eq!(g.store_commitment("1", Ok(vec![1])).unwrap_err(), "Crypto parameters not initialized yet");
    g.crypto_parameters = Some(CryptoParameters {
        pedersen_param: vec![],
        player_commitment: vec![],
        fortune_teller_public_key: None,
        elgamal_param: vec![],
    });
    assert_eq!(g.store_commitment("x", Ok(vec![1])).unwrap_err(), "Player not found in this game");
    assert_eq!(
        g.store_commitment("1", Err("bad".to_string())).unwrap_err(),
        "Failed to deserialize commitment: bad"
    );
    let t = g.store_commitment("3", Ok(vec![7])).unwrap();
    assert_eq!(t.commitments_count, 3);
    assert_eq!(t.total_players, 4);
    assert!(!t.all_ready);
    let t = g.store_commitment("4", Ok(vec![8])).unwrap();
    assert!(t.all_ready);
    let stored = &g.crypto_parameters.as_ref().unwrap().player_commitment;
    assert_eq!(stored, &vec![vec![7], vec![7], vec![7], vec![8]]);
}

#[test]
fn werewolf_counts_by_game_size() {
    assert_eq!(werewolf_count_rule(3), None);
    assert_eq!(werewolf_count_rule(4), Some(1));
    assert_eq!(werewolf_count_rule(6), Some(1));
    assert_eq!(werewolf_count_rule(7), Some(2));
    assert_eq!(werewolf_count_rule(9), Some(2));
    assert_eq!(werewolf_count_rule(10), Some(3));
    assert_eq!(werewolf_count_rule(15), Some(3));
    assert_eq!(werewolf_count_rule(16), None);
}

#[test]
fn role_deck_has_the_right_counts() {
    assert_eq!(assign_roles_with(3, 1).unwrap_err(), "At least 4 players are required");
    let roles = assign_roles_with(9, 2).unwrap();
    assert_eq!(roles.len(), 9);
    assert_eq!(roles.iter().filter(|r| **r == Role::Werewolf).count(), 2);
    assert_eq!(roles.iter().filter(|r| **r == Role::Seer).count(), 1);
    assert_eq!(roles.iter().filter(|r| **r == Role::Villager).count(), 6);
    assert_eq!(Role::Seer.to_display_string(), "占い師");
}

#[test]
fn state_digest_ignores_player_order() {
    let mut a = game_with(4);
    let mut b = game_with(4);
    b.players.reverse();
    a.cast_vote("1", "2").unwrap();
    b.cast_vote("1", "2").unwrap();
    assert_eq!(compute_game_state_hash(&a), compute_game_state_hash(&b));
    b.players[0].is_dead = true;
    assert_ne!(compute_game_state_hash(&a), compute_game_state_hash(&b));
}

#[test]
fn state_digest_and_vote_ignore_vote_order() {
    let mut a = game_with(4);
    let mut b = game_with(4);
    a.phase = GamePhase::Voting;
    b.phase = GamePhase::Voting;
    a.cast_vote("1", "2").unwrap();
    a.cast_vote("3", "2").unwrap();
    a.cast_vote("4", "1").unwrap();
    b.cast_vote("4", "1").unwrap();
    b.cast_vote("3", "2").unwrap();
    b.cast_vote("1", "2").unwrap();
    assert_eq!(compute_game_state_hash(&a), compute_game_state_hash(&b));
    assert_eq!(a.count_votes(), b.count_votes());
    assert_eq!(a.count_votes(), Some(("2".to_string(), 2)));
}

#[test]
fn state_digest_ignores_the_order_of_repeated_voters() {
    let mut a = game_with(4);
    let mut b = game_with(4);
    b.players.reverse();
    a.vote_results = vec![
        Vote { target_id: "2".to_string(), voters: vec!["1".to_string(), "1".to_string(), "3".to_string()] },
        Vote { target_id: "4".to_string(), voters: vec!["2".to_string()] },
    ];
    b.vote_results = vec![
        Vote { target_id: "4".to_string(), voters: vec!["2".to_string()] },
        Vote { target_id: "2".to_string(), voters: vec!["3".to_string(), "1".to_string(), "1".to_string()] },
    ];
    assert_eq!(compute_game_state_hash(&a), compute_game_state_hash(&b));
    b.vote_results[1].voters.pop();
    assert_ne!(compute_game_state_hash(&a), compute_game_state_hash(&b));
}
