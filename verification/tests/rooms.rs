use zk_werewolf::cleanup::{
    rooms_to_clean, should_cleanup_empty_room, should_cleanup_finished_game, should_cleanup_stalled_game,
    RoomCleanupPolicy, RoomCleanupResult,
};
use zk_werewolf::game::{CryptoParameters, GamePhase};
use zk_werewolf::lifecycle::{end_game, start_game, GameTable};
use zk_werewolf::room::{RoleConfig, Room, RoomConfig, RoomStatus, RoomTable, TimeConfig};

fn crypto() -> CryptoParameters {
    CryptoParameters {
        pedersen_param: vec![1, 2, 3],
        player_commitment: Vec::new(),
        fortune_teller_public_key: None,
        elgamal_param: vec![4, 5],
    }
}

fn room_with_players(table: &mut RoomTable, n: usize) -> String {
    let id = table.create_room(Some("Test".to_string()), None).to_string();
    for i in 1..=n {
        assert!(table.join_room(&id, &i.to_string(), &format!("player{}", i)));
    }
    id
}

#[test]
fn create_room_numbers_rooms_from_one() {
    let mut table = RoomTable::new();
    let a = table.create_room(None, None);
    let b = table.create_room(Some("second".to_string()), None);
    assert_eq!(a, 1);
    assert_eq!(b, 2);
    let room = table.get("2").unwrap();
    assert_eq!(room.name.as_deref(), Some("second"));
    assert_eq!(room.status, RoomStatus::Open);
    assert!(room.players.is_empty());
    assert_eq!(room.max_players, 9);
}

#[test]
fn create_room_after_removal_takes_one_more_than_largest() {
    let mut table = RoomTable::new();
    table.create_room(None, None);
    table.create_room(None, None);
    table.create_room(None, None);
    assert!(table.remove("2"));
    assert_eq!(table.create_room(None, None), 4);
    assert!(table.remove("4"));
    assert!(table.remove("3"));
    assert_eq!(table.create_room(None, None), 2);
}

#[test]
fn default_room_config_values() {
    let c = RoomConfig::default();
    assert_eq!(c.max_players, 9);
    assert_eq!((c.role_config.seer, c.role_config.werewolf, c.role_config.villager), (1, 2, 6));
    assert_eq!(c.time_config.day_phase, 300);
    assert_eq!(c.time_config.night_phase, 120);
    assert_eq!(c.time_config.voting_phase, 90);
    assert_eq!(c.role_config.total_players(), 9);
}

#[test]
fn join_room_respects_capacity() {
    let mut table = RoomTable::new();
    let config = RoomConfig {
        max_players: 2,
        role_config: RoleConfig { seer: 1, werewolf: 1, villager: 0 },
        time_config: TimeConfig { day_phase: 1, night_phase: 1, voting_phase: 1 },
    };
    let id = table.create_room(None, Some(config)).to_string();
    assert!(table.join_room(&id, "a", "Alice"));
    assert!(table.join_room(&id, "b", "Bob"));
    assert!(!table.join_room(&id, "c", "Carol"));
    assert_eq!(table.get(&id).unwrap().players.len(), 2);
    assert!(!table.join_room("999", "a", "Alice"));
}

#[test]
fn join_room_again_renames_the_player() {
    let mut table = RoomTable::new();
    let id = table.create_room(None, None).to_string();
    assert!(table.join_room(&id, "1", "old"));
    assert!(table.join_room(&id, "1", "new"));
    let room = table.get(&id).unwrap();
    assert_eq!(room.players.len(), 1);
    assert_eq!(room.players[0].name, "new");
}

#[test]
fn leave_room_errors_and_empty_room() {
    let mut table = RoomTable::new();
    let id = room_with_players(&mut table, 1);
    assert_eq!(table.leave_room("42", "1").unwrap_err(), "ルームが見つかりません。");
    assert_eq!(table.leave_room(&id, "9").unwrap_err(), "プレイヤーが見つかりません。");
    assert_eq!(table.leave_room(&id, "1").unwrap(), "Successfully left room");
    let room = table.get(&id).unwrap();
    assert!(room.players.is_empty());
    assert!(room.empty_since.is_some());
    assert_eq!(room.status, RoomStatus::Open);
}

#[test]
fn toggle_ready_marks_room_ready_when_all_four_are_ready() {
    let mut table = RoomTable::new();
    let id = room_with_players(&mut table, 4);
    for i in 1..=3 {
        assert_eq!(table.toggle_ready(&id, &i.to_string()).unwrap(), "準備状態を切り替えました。");
    }
    assert_eq!(table.get(&id).unwrap().status, RoomStatus::Open);
    assert_eq!(table.toggle_ready(&id, "4").unwrap(), "全員の準備が完了しました。");
    assert_eq!(table.get(&id).unwrap().status, RoomStatus::Ready);
    assert_eq!(table.toggle_ready(&id, "4").unwrap(), "準備状態を切り替えました。");
    assert_eq!(table.get(&id).unwrap().status, RoomStatus::Open);
    assert_eq!(table.toggle_ready(&id, "7").unwrap_err(), "プレイヤーが見つかりません。");
}

#[test]
fn leaving_a_ready_room_reopens_it() {
    let mut table = RoomTable::new();
    let id = room_with_players(&mut table, 4);
    for i in 1..=4 {
        table.toggle_ready(&id, &i.to_string()).unwrap();
    }
    assert_eq!(table.get(&id).unwrap().status, RoomStatus::Ready);
    table.leave_room(&id, "2").unwrap();
    assert_eq!(table.get(&id).unwrap().status, RoomStatus::Open);
}

#[test]
fn room_deletion_rules() {
    let mut table = RoomTable::new();
    let mut games = GameTable::new();
    let id = room_with_players(&mut table, 4);
    assert_eq!(table.check_room_deletion("77", "1").unwrap_err(), "ルームが見つかりません。");
    assert_eq!(table.check_room_deletion(&id, "9").unwrap_err(), "ルーム参加者のみ削除できます。");
    assert!(table.check_room_deletion(&id, "1").is_ok());
    start_game(&mut table, &mut games, &id, crypto()).unwrap();
    assert_eq!(
        table.check_room_deletion(&id, "1").unwrap_err(),
        "ゲーム進行中はルームを削除できません。"
    );
    assert_eq!(table.leave_room(&id, "1").unwrap_err(), "ゲーム進行中は退室できません。");
}

#[test]
fn start_game_needs_four_players() {
    let mut table = RoomTable::new();
    let mut games = GameTable::new();
    let id = room_with_players(&mut table, 3);
    assert_eq!(
        start_game(&mut table, &mut games, &id, crypto()).unwrap_err(),
        "At least 4 players are required"
    );
    assert_eq!(start_game(&mut table, &mut games, "404", crypto()).unwrap_err(), "Room not found");
    assert!(games.games.is_empty());
}

#[test]
fn start_game_needs_enough_players_for_special_roles() {
    let mut table = RoomTable::new();
    let mut games = GameTable::new();
    let config = RoomConfig {
        max_players: 9,
        role_config: RoleConfig { seer: 2, werewolf: 3, villager: 4 },
        time_config: TimeConfig { day_phase: 1, night_phase: 1, voting_phase: 1 },
    };
    let id = table.create_room(None, Some(config)).to_string();
    for i in 1..=4 {
        table.join_room(&id, &i.to_string(), "p");
    }
    assert_eq!(
        start_game(&mut table, &mut games, &id, crypto()).unwrap_err(),
        "joined players (4) are fewer than required special roles (seer + werewolf = 5)"
    );
}

#[test]
fn start_game_moves_the_new_game_to_night_and_end_game_closes_it() {
    let mut table = RoomTable::new();
    let mut games = GameTable::new();
    let id = room_with_players(&mut table, 5);
    let start = start_game(&mut table, &mut games, &id, crypto()).unwrap();
    assert_eq!(start.from, GamePhase::Waiting);
    assert_eq!(start.to, GamePhase::Night);
    assert!(start.start_digest.is_some());
    assert_eq!(table.get(&id).unwrap().status, RoomStatus::InProgress);
    assert_eq!(games.games.len(), 1);
    let g = &games.games[0];
    assert_eq!(g.phase, GamePhase::Night);
    assert_eq!(g.day_count, 1);
    assert_eq!(g.players.len(), 5);
    assert!(g.players.iter().all(|p| !p.is_dead));
    assert!(g.crypto_parameters.is_some());
    assert!(g.batch_request.requests.is_empty());
    // the room asked for 1 seer, 2 werewolves and 6 villagers; 5 joined
    assert_eq!(g.grouping_parameter.fortune_teller.0, 1);
    assert_eq!(g.grouping_parameter.werewolf.0, 2);
    assert_eq!(g.grouping_parameter.villager.0, 2);
    let n = g.chat_log.messages.len();
    assert_eq!(
        g.chat_log.messages[n - 2].content,
        "Starting the game with 5 players. Roles will be assigned via MPC."
    );
    assert_eq!(end_game(&mut table, &mut games, "nope").unwrap_err(), "Game not found");
    end_game(&mut table, &mut games, &id).unwrap();
    assert_eq!(table.get(&id).unwrap().status, RoomStatus::Closed);
    assert_eq!(games.games[0].phase, GamePhase::Finished);
}

#[test]
fn cleanup_policy_defaults_and_merge() {
    let p = RoomCleanupPolicy::default();
    let mut total = RoomCleanupResult::default();
    assert_eq!(total.removed_rooms, 0);
    total.merge(RoomCleanupResult {
        removed_rooms: 1,
        removed_games: 2,
        removed_channels: 3,
        removed_event_stores: 4,
        removed_proof_jobs: 5,
    });
    total.merge(RoomCleanupResult {
        removed_rooms: 1,
        removed_games: 0,
        removed_channels: 0,
        removed_event_stores: 0,
        removed_proof_jobs: 1,
    });
    assert_eq!(total.removed_rooms, 2);
    assert_eq!(total.removed_games, 2);
    assert_eq!(total.removed_proof_jobs, 6);
    assert!(p.room_empty_ttl > 0);
}

#[test]
fn cleanup_removes_only_expired_empty_rooms_scenario() {
    let policy = RoomCleanupPolicy::default();
    let mut room = Room::new("1".to_string(), None, None);
    room.created_at = 0;
    room.empty_since = Some(1_000);
    assert!(!should_cleanup_empty_room(&room, 1_000 + policy.room_empty_ttl - 1, &policy));
    assert!(should_cleanup_empty_room(&room, 1_000 + policy.room_empty_ttl, &policy));
    room.empty_since = None;
    assert!(should_cleanup_empty_room(&room, policy.room_empty_ttl, &policy));
}

#[test]
fn cleanup_stalled_and_finished_games_scenario() {
    let policy = RoomCleanupPolicy::default();
    let mut table = RoomTable::new();
    let mut games = GameTable::new();
    let id = room_with_players(&mut table, 4);
    start_game(&mut table, &mut games, &id, crypto()).unwrap();
    let started = games.games[0].phase_started_at;
    {
        let room = table.get(&id).unwrap();
        let game = &games.games[0];
        assert!(!should_cleanup_stalled_game(Some(room), game, started, &policy));
        assert!(should_cleanup_stalled_game(Some(room), game, started + policy.game_stalled_ttl, &policy));
        assert!(!should_cleanup_finished_game(Some(room), game, started + policy.game_finished_ttl, &policy));
    }
    games.games[0].day_count = policy.game_max_day_count;
    assert!(should_cleanup_stalled_game(Some(table.get(&id).unwrap()), &games.games[0], started, &policy));
    assert_eq!(rooms_to_clean(&table, &games, started, &policy), vec![id.clone()]);
    end_game(&mut table, &mut games, &id).unwrap();
    games.games[0].ended_at = Some(started);
    let room = table.get(&id).unwrap();
    assert!(!should_cleanup_stalled_game(Some(room), &games.games[0], started + policy.game_stalled_ttl, &policy));
    assert!(should_cleanup_finished_game(Some(room), &games.games[0], started + policy.game_finished_ttl, &policy));
}

#[test]
fn rooms_to_clean_is_sorted_and_unique() {
    let policy = RoomCleanupPolicy::default();
    let mut table = RoomTable::new();
    let games = GameTable::new();
    for _ in 0..3 {
        table.create_room(None, None);
    }
    for r in table.rooms.iter_mut() {
        r.created_at = 0;
    }
    let ids = rooms_to_clean(&table, &games, policy.room_empty_ttl, &policy);
    assert_eq!(ids, vec!["1".to_string(), "2".to_string(), "3".to_string()]);
    assert!(rooms_to_clean(&table, &games, policy.room_empty_ttl - 1, &policy).is_empty());
}

#[test]
fn a_decided_game_closes_its_room() {
    let mut table = RoomTable::new();
    let id = room_with_players(&mut table, 4);
    assert!(table.close_room(&id));
    assert_eq!(table.rooms.iter().find(|r| r.room_id == id).unwrap().status, RoomStatus::Closed);
    assert!(!table.close_room("999"));
}

#[test]
fn joining_twice_leaves_one_player_with_the_id() {
    let mut table = RoomTable::new();
    let id = table.create_room(None, None).to_string();
    assert!(table.join_room(&id, "7", "first"));
    assert!(table.join_room(&id, "7", "second"));
    let room = table.rooms.iter().find(|r| r.room_id == id).unwrap();
    assert_eq!(room.players.iter().filter(|p| p.id == "7").count(), 1);
    assert_eq!(room.players[0].name, "second");
}

#[test]
fn phases_after_a_start_begin_with_divination() {
    let mut table = RoomTable::new();
    let mut games = GameTable::new();
    let id = room_with_players(&mut table, 4);
    start_game(&mut table, &mut games, &id, crypto()).unwrap();
    let g = &mut games.games[0];
    assert_eq!(g.advance_phase().unwrap().1, GamePhase::DivinationProcessing);
    assert_eq!(g.advance_phase().unwrap().1, GamePhase::Discussion);
    assert_eq!(g.advance_phase().unwrap().1, GamePhase::Voting);
}
