use zk_werewolf::zk_proof::proof_request_result;
use zk_werewolf::batch::{BatchRequest, ClientRequestType, ProofTypeKey, ProverInfo};
use zk_werewolf::chat::ChatMessageType;
use zk_werewolf::events::{
    should_send_event_to_player, RoomEventStore, RoomEventStores, WebSocketMessage, ROOM_EVENT_HISTORY_LIMIT,
};
use zk_werewolf::game::{BatchKey, GamePhase};
use zk_werewolf::batch::CircuitProfileKey;
use zk_werewolf::proof_jobs::{completion_error, ProofJobService, ProofJobStatus};
use zk_werewolf::proof_output::{merge_proof_outputs, EncryptedShare, ProofOutput, ProofOutputType, ProofStatus};
use zk_werewolf::proof_requests::ProofJob;
use zk_werewolf::zk_proof::{
    assess_proof_round, batch_execution_result, prepare_batch, PrecomputedResults, ProofRound, MAX_RETRY_ATTEMPTS,
};

fn job(batch_id: &str) -> ProofJob {
    let mut req = BatchRequest::new(2);
    req.batch_id = batch_id.to_string();
    ProofJob {
        room_id: "room1".to_string(),
        batch_key: BatchKey {
            room_id: "room1".to_string(),
            phase: GamePhase::Night,
            day_count: 1,
            proof_type: ProofTypeKey::RoleAssignment,
            circuit_profile: CircuitProfileKey { player_count: 4, werewolf_count: 1 },
        },
        batch_request: req,
    }
}

fn urls() -> Vec<String> {
    vec!["http://n0".to_string(), "http://n1".to_string(), "http://n0".to_string(), "http://n2".to_string()]
}

fn prover(user: &str, key: Option<&str>) -> ProverInfo {
    ProverInfo {
        user_id: user.to_string(),
        prover_count: 3,
        encrypted_data: "{\"shares\":[]}".to_string(),
        is_dummy: false,
        public_key: key.map(|k| k.to_string()),
    }
}

fn report(state: &str, shares: usize, proof: Option<Vec<u8>>) -> ProofStatus {
    let shares = (0..shares)
        .map(|i| EncryptedShare { node_id: i as u32, user_id: format!("u{}", i), encrypted_data: vec![i as u8] })
        .collect::<Vec<_>>();
    ProofStatus {
        state: state.to_string(),
        proof_id: "p".to_string(),
        message: None,
        output: Some(ProofOutput {
            output_type: ProofOutputType::Public,
            value: Some(vec![1]),
            proof,
            public_inputs: None,
            shares: if shares.is_empty() { None } else { Some(shares) },
        }),
    }
}

#[test]
fn new_job_status_is_pending_for_each_distinct_node() {
    let st = ProofJobStatus::new(&job("b1"), &urls(), 100);
    assert_eq!(st.state, "pending");
    assert_eq!(st.batch_id, "b1");
    assert_eq!(st.job_node_status.len(), 3);
    assert_eq!(st.job_node_status[0].0, "http://n0");
    assert_eq!(st.job_node_status[2].0, "http://n2");
    assert!(st.job_node_status.iter().all(|(_, n)| n.state == "pending" && n.attempt_count == 0));
    assert_eq!((st.created_at, st.updated_at), (100, 100));
}

#[test]
fn a_job_cannot_be_queued_twice_while_active() {
    let mut svc = ProofJobService::new();
    assert!(svc.enqueue_job(&job("b1"), &urls(), 1).is_ok());
    assert_eq!(svc.enqueue_job(&job("b1"), &urls(), 2).unwrap_err(), "proof job b1 is already pending");
    assert!(svc.start_job("b1", 3));
    assert_eq!(svc.enqueue_job(&job("b1"), &urls(), 4).unwrap_err(), "proof job b1 is already running");
    assert!(svc.finish_job("b1", None, 5));
    assert!(svc.enqueue_job(&job("b1"), &urls(), 6).is_ok());
    let st = svc.get_status("b1").unwrap();
    assert_eq!(st.state, "pending");
    assert_eq!(st.attempt_count, 0);
    assert_eq!(svc.statuses.len(), 1);
}

#[test]
fn job_states_follow_the_outcome() {
    let mut svc = ProofJobService::new();
    svc.enqueue_job(&job("a"), &urls(), 1).unwrap();
    svc.enqueue_job(&job("b"), &urls(), 1).unwrap();
    svc.enqueue_job(&job("c"), &urls(), 1).unwrap();
    for id in ["a", "b", "c"] {
        svc.start_job(id, 2);
    }
    let running = svc.get_status("a").unwrap();
    assert_eq!(running.state, "running");
    assert_eq!(running.attempt_count, 1);
    assert!(running.job_node_status.iter().all(|(_, n)| n.state == "running" && n.attempt_count == 1));
    svc.finish_job("a", None, 3);
    svc.finish_job("b", Some("request TIMEOUT after 180 rounds".to_string()), 3);
    svc.finish_job("c", Some("Proof failed for batch c".to_string()), 3);
    assert_eq!(svc.get_status("a").unwrap().state, "completed");
    let b = svc.get_status("b").unwrap();
    assert_eq!(b.state, "timeout");
    assert_eq!(b.last_error.as_deref(), Some("request TIMEOUT after 180 rounds"));
    assert!(b.job_node_status.iter().all(|(_, n)| n.state == "timeout" && n.attempt_count == 1));
    assert_eq!(b.updated_at, 3);
    assert_eq!(svc.get_status("c").unwrap().state, "failed");
    assert!(!svc.start_job("zzz", 4));
    assert!(!svc.finish_job("zzz", None, 4));
}

#[test]
fn completion_error_reports_a_missing_game() {
    assert_eq!(completion_error(None, true, "r"), None);
    assert_eq!(
        completion_error(None, false, "r7"),
        Some("Game not found while applying proof result: room_id=r7".to_string())
    );
    assert_eq!(completion_error(Some("boom".to_string()), false, "r7"), Some("boom".to_string()));
}

#[test]
fn event_history_keeps_the_latest_events() {
    let mut store = RoomEventStore::new();
    for i in 0..(ROOM_EVENT_HISTORY_LIMIT + 10) {
        let e = store.create_room_event("r", format!("t{}", i), format!("{{\"n\":{}}}", i));
        assert_eq!(e.event_id, (i + 1) as u64);
    }
    assert_eq!(store.events.len(), ROOM_EVENT_HISTORY_LIMIT);
    assert_eq!(store.events[0].event_id, 11);
    assert_eq!(store.next_event_id, (ROOM_EVENT_HISTORY_LIMIT + 10) as u64);
    let missed = store.replay_since(520);
    assert_eq!(missed.iter().map(|e| e.event_id).collect::<Vec<_>>(), vec![521, 522]);
    assert!(store.replay_since(522).is_empty());
}

#[test]
fn events_are_counted_per_room_and_replayed() {
    let mut stores = RoomEventStores::new();
    let a1 = stores.create_room_event("a", "t".into(), "{}".into());
    let b1 = stores.create_room_event("b", "t".into(), "{}".into());
    let a2 = stores.create_room_event("a", "t".into(), "{\"x\":1}".into());
    assert_eq!((a1.event_id, b1.event_id, a2.event_id), (1, 1, 2));
    let replay = stores.replay_room_events_since("a", 0);
    assert_eq!(replay.len(), 2);
    assert_eq!(replay[1].payload, "{\"x\":1}");
    assert_eq!(replay[1].room_id, "a");
    assert!(stores.replay_room_events_since("none", 0).is_empty());
}

#[test]
fn targeted_results_reach_only_their_player() {
    let targeted = "{\"message_type\":\"computation_result\",\"target_player_id\":\"p2\",\"batch_id\":\"b\"}";
    assert!(should_send_event_to_player(targeted, Some("p2")));
    assert!(!should_send_event_to_player(targeted, Some("p1")));
    assert!(!should_send_event_to_player(targeted, None));
    let broadcast = "{\"message_type\":\"computation_result\",\"target_player_id\":null}";
    assert!(should_send_event_to_player(broadcast, None));
    let phase = "{\"message_type\":\"phase_change\",\"target_player_id\":\"p2\"}";
    assert!(should_send_event_to_player(phase, Some("p1")));
    assert!(should_send_event_to_player("not json", Some("p1")));
}

#[test]
fn socket_messages_become_chat_messages() {
    let m = WebSocketMessage {
        message_type: "wolf".into(),
        player_id: "  ".into(),
        player_name: "Wolfie".into(),
        content: "hi".into(),
        timestamp: "t".into(),
        room_id: "other".into(),
    };
    let m = m.received_in("room9", "anon-1");
    assert_eq!(m.player_id, "anon-1");
    assert_eq!(m.room_id, "room9");
    let c = m.to_chat_message();
    assert_eq!(c.message_type, ChatMessageType::Wolf);
    assert_eq!(c.player_id, "anon-1");
    let unknown = WebSocketMessage { message_type: "shout".into(), ..m };
    assert_eq!(unknown.to_chat_message().message_type, ChatMessageType::Public);
    let e = WebSocketMessage::format_error("eof", "t".into(), "room9");
    assert_eq!(e.message_type, "error");
    assert_eq!(e.player_id, "system");
    assert_eq!(e.content, "メッセージのフォーマットが不正です: eof");
}

#[test]
fn proof_rounds_are_judged() {
    assert!(matches!(assess_proof_round(vec![report("completed", 0, None), report("running", 0, None)], 2), ProofRound::Pending));
    assert!(matches!(assess_proof_round(vec![report("completed", 0, None), report("failed", 0, None)], 2), ProofRound::Failed));
    match assess_proof_round(vec![report("completed", 1, None), report("completed", 2, Some(vec![7]))], 2) {
        ProofRound::Completed(Some(o)) => {
            assert_eq!(o.proof, Some(vec![7]));
            assert_eq!(o.shares.unwrap().len(), 3);
            assert_eq!(o.value, Some(vec![1]));
        },
        _ => panic!("expected a completed round"),
    }
    assert_eq!(MAX_RETRY_ATTEMPTS, 180);
}

#[test]
fn merge_takes_first_proof_and_all_shares() {
    assert!(merge_proof_outputs(vec![]).is_none());
    let merged = merge_proof_outputs(vec![report("completed", 0, None), report("completed", 0, Some(vec![3]))]).unwrap();
    assert_eq!(merged.proof, Some(vec![3]));
    assert!(merged.shares.is_none());
    let mut no_output = report("completed", 0, None);
    no_output.output = None;
    assert!(merge_proof_outputs(vec![no_output, report("completed", 1, None)]).is_none());
}

#[test]
fn batches_are_prepared_in_user_order() {
    let mut b = BatchRequest::new(3);
    assert_eq!(prepare_batch(&b).unwrap_err(), "Empty request list");
    b.requests = vec![
        ClientRequestType::RoleAssignment(prover("10", Some("k10"))),
        ClientRequestType::RoleAssignment(prover("x", None)),
        ClientRequestType::RoleAssignment(prover("2", Some("k2"))),
    ];
    let (kind, output_type, ordered) = prepare_batch(&b).unwrap();
    assert_eq!(kind, ProofTypeKey::RoleAssignment);
    assert_eq!(ordered.iter().map(|r| r.get_user_id().to_string()).collect::<Vec<_>>(), vec!["2", "10", "x"]);
    match output_type {
        ProofOutputType::PrivateToPublic(keys) => {
            assert_eq!(keys.iter().map(|k| k.user_id.as_str()).collect::<Vec<_>>(), vec!["2", "10"]);
        },
        _ => panic!("role assignments are private"),
    }
    b.requests.push(ClientRequestType::Divination(prover("3", None)));
    assert_eq!(prepare_batch(&b).unwrap_err(), "ClientRequestType variants are mixed; cannot convert");
    b.requests = vec![ClientRequestType::RoleAssignment(prover("1", None))];
    assert_eq!(prepare_batch(&b).unwrap_err(), "No player public keys found for RoleAssignment");
    b.requests = vec![ClientRequestType::AnonymousVoting(prover("1", None))];
    assert!(matches!(prepare_batch(&b).unwrap().1, ProofOutputType::Public));
}

#[test]
fn a_request_whose_input_is_not_json_stops_the_batch() {
    let mut b = BatchRequest::new(2);
    let mut bad = prover("2", None);
    bad.encrypted_data = "not json".to_string();
    b.requests = vec![ClientRequestType::Divination(prover("1", None)), ClientRequestType::Divination(bad)];
    let e = prepare_batch(&b).unwrap_err();
    assert!(e.starts_with("Failed to deserialize DivinationOutput: "), "{}", e);
    assert!(e.len() > "Failed to deserialize DivinationOutput: ".len());
}

#[test]
fn batch_results_name_the_batch() {
    assert_eq!(batch_execution_result("b9", false, None).unwrap_err(), "Proof failed for batch b9");
    assert_eq!(
        batch_execution_result("b9", true, None).unwrap_err(),
        "Proof completed without output for batch b9"
    );
    let out = report("completed", 0, Some(vec![1])).output.unwrap();
    assert_eq!(batch_execution_result("b9", true, Some(out)).unwrap().proof, Some(vec![1]));
}

#[test]
fn precomputed_results_are_taken_once() {
    let mut store: PrecomputedResults<u32> = PrecomputedResults::new();
    store.store_precomputed_batch_result("b1".to_string(), 1);
    store.store_precomputed_batch_result("b2".to_string(), 2);
    store.store_precomputed_batch_result("b1".to_string(), 3);
    assert_eq!(store.take_precomputed_batch_result("b1"), Some(3));
    assert_eq!(store.take_precomputed_batch_result("b1"), None);
    assert_eq!(store.take_precomputed_batch_result("b2"), Some(2));
    assert_eq!(store.take_precomputed_batch_result("b3"), None);
}

#[test]
fn a_cleaned_room_loses_its_jobs_and_events() {
    let mut jobs = ProofJobService::new();
    jobs.enqueue_job(&job("b1"), &urls(), 1).unwrap();
    jobs.enqueue_job(&job("b2"), &urls(), 1).unwrap();
    let mut other = job("b3");
    other.room_id = "room2".to_string();
    jobs.enqueue_job(&other, &urls(), 1).unwrap();
    assert_eq!(jobs.remove_room_jobs("room1"), 2);
    assert_eq!(jobs.statuses.len(), 1);
    assert_eq!(jobs.statuses[0].batch_id, "b3");
    assert_eq!(jobs.remove_room_jobs("room1"), 0);

    let mut stores = RoomEventStores::new();
    stores.create_room_event("room1", "t".to_string(), "{}".to_string());
    stores.create_room_event("room2", "t".to_string(), "{}".to_string());
    assert!(stores.remove_room("room1"));
    assert!(!stores.remove_room("room1"));
    assert!(stores.replay_room_events_since("room1", 0).is_empty());
    assert_eq!(stores.replay_room_events_since("room2", 0).len(), 1);
}

#[test]
fn a_proof_request_gives_its_id_only_on_success() {
    assert_eq!(proof_request_result(true, "p1".to_string()), Ok("p1".to_string()));
    assert_eq!(proof_request_result(false, "p1".to_string()), Err("Failed to generate proof".to_string()));
}
