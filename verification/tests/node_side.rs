use zk_werewolf::crypto::keys_from_environment;
use zk_werewolf::batch::ProofTypeKey;
use zk_werewolf::crypto::{CryptoError, KeyManager};
use zk_werewolf::node::{
    abi_encode_fixed_uint256_inputs, abi_encode_groth16_proof, expected_public_input_len, field_to_word,
    role_share_payload, split_and_encrypt_output, RoleOutputV2,
};
use zk_werewolf::node_api::{key_registration, panic_payload_to_string, ApiError};
use zk_werewolf::profile::{
    circuit_profile_label, default_werewolf_count_for_player_count, parse_profile_from_pk_filename,
    parse_single_count_profile, CircuitGroth16Setups, CircuitProfile, SetupChoice,
};
use zk_werewolf::proof_manager::{build_proof_output, not_found_status, ProofManager};
use zk_werewolf::proof_output::{ProofOutputType, UserPublicKey};
use zk_werewolf::services::NodeKeyService;
use zk_werewolf::server_api::RegisterKeyResponse;

#[test]
fn key_generation_gives_keys() {
    let mut km = KeyManager::new();
    let keys = km.generate_keypair();
    assert!(!keys.public_key.is_empty());
    assert!(!keys.secret_key.is_empty());
    assert_eq!(km.get_public_key().unwrap(), keys.public_key);
    assert_eq!(km.get_secret_key().unwrap(), keys.secret_key);
}

#[test]
fn keys_missing_before_generation() {
    let km = KeyManager::new();
    assert!(matches!(km.get_public_key().unwrap_err(), CryptoError::KeyNotInitialized));
    assert_eq!(km.get_public_key().unwrap_err().to_string(), "Key not initialized");
    assert!(km.encrypt_share(b"x", "AAAA").is_err());
}

#[test]
fn encrypt_then_decrypt_share_gives_it_back() {
    let mut km = KeyManager::new();
    km.generate_keypair();
    let pk = km.get_public_key().unwrap();
    let share = b"test share data";
    let sealed = km.encrypt_share(share, &pk).unwrap();
    assert_eq!(sealed.len(), 24 + share.len() + 16);
    assert_ne!(&sealed[24..], &share[..]);
    assert_eq!(km.decrypt_share(&sealed).unwrap(), share.to_vec());
}

#[test]
fn encryption_and_decryption_errors() {
    let mut km = KeyManager::new();
    km.generate_keypair();
    // valid Base64, but not 32 bytes
    assert_eq!(
        km.encrypt_share(b"x", "AAAA").unwrap_err().to_string(),
        "Encryption failed: Invalid recipient public key"
    );
    assert_eq!(
        km.decrypt_share(&[0u8; 10]).unwrap_err().to_string(),
        "Decryption failed: Invalid encrypted data length"
    );
    let pk = km.get_public_key().unwrap();
    let mut sealed = km.encrypt_share(b"abc", &pk).unwrap();
    let last = sealed.len() - 1;
    sealed[last] ^= 1;
    assert!(km.decrypt_share(&sealed).is_err());
}

#[test]
fn role_share_payload_is_compact_json() {
    let p = role_share_payload("12", "0");
    assert_eq!(
        String::from_utf8(p).unwrap(),
        "{\"schema_version\":\"role_assignment_share_v2\",\"role_share\":\"12\",\"role_share_encoding\":\"bn254_fr_decimal_string\",\"werewolf_mates_mask_share\":\"0\",\"werewolf_mates_mask_share_encoding\":\"player_index_bitmask_lsb0\"}"
    );
    let q = role_share_payload("a\"b", "c");
    assert!(String::from_utf8(q).unwrap().contains("\"a\\\"b\""));
}

#[test]
fn shares_are_sealed_for_each_user() {
    let mut node = KeyManager::new();
    node.generate_keypair();
    let mut alice = KeyManager::new();
    alice.generate_keypair();
    let mut bob = KeyManager::new();
    bob.generate_keypair();
    let pubkeys = vec![
        UserPublicKey::new("alice".into(), alice.get_public_key().unwrap()),
        UserPublicKey::new("bob".into(), bob.get_public_key().unwrap()),
    ];
    let v2 = vec![
        RoleOutputV2 { role_share: "5".into(), werewolf_mates_mask_share: Some("3".into()) },
        RoleOutputV2 { role_share: "7".into(), werewolf_mates_mask_share: None },
    ];
    let shares = split_and_encrypt_output(&node, 2, b"[]", &pubkeys, Some(v2), None).unwrap();
    assert_eq!(shares.len(), 2);
    assert_eq!(shares[0].node_id, 2);
    assert_eq!(shares[1].user_id, "bob");
    // Bob opens his share with his secret key and the node's public key.
    let mut bob_view = KeyManager::new();
    bob_view.set_keys(zk_werewolf::crypto::NodeKeys {
        public_key: node.get_public_key().unwrap(),
        secret_key: bob.get_secret_key().unwrap(),
    });
    let opened = bob_view.decrypt_share(&shares[1].encrypted_data).unwrap();
    assert_eq!(opened, role_share_payload("7", "0"));
}

#[test]
fn share_count_must_cover_the_users() {
    let mut node = KeyManager::new();
    node.generate_keypair();
    let pubkeys = vec![
        UserPublicKey::new("a".into(), node.get_public_key().unwrap()),
        UserPublicKey::new("b".into(), node.get_public_key().unwrap()),
    ];
    let v1 = vec!["1".to_string()];
    assert_eq!(
        split_and_encrypt_output(&node, 0, b"x", &pubkeys, None, Some(v1)).unwrap_err(),
        "role share length mismatch: got 1, expected at least 2"
    );
    assert!(split_and_encrypt_output(&node, 0, &[0xff, 0xfe], &pubkeys, None, None).is_err());
}

#[test]
fn words_are_big_endian_and_padded() {
    let w = field_to_word(&[1, 2]);
    assert_eq!(w[31], 1);
    assert_eq!(w[30], 2);
    assert!(w[..30].iter().all(|b| *b == 0));
    let enc = abi_encode_fixed_uint256_inputs(&vec![vec![5], vec![6]], 2).unwrap();
    assert_eq!(enc.len(), 64);
    assert_eq!(enc[31], 5);
    assert_eq!(enc[63], 6);
    assert_eq!(
        abi_encode_fixed_uint256_inputs(&vec![vec![5]], 3).unwrap_err(),
        "expected 3 public inputs, got 1"
    );
    let coords: [Vec<u8>; 8] = [vec![1], vec![2], vec![3], vec![4], vec![5], vec![6], vec![7], vec![8]];
    let proof = abi_encode_groth16_proof(&coords);
    assert_eq!(proof.len(), 256);
    assert_eq!(proof[32 * 7 + 31], 8);
}

#[test]
fn public_input_lengths() {
    assert_eq!(expected_public_input_len(ProofTypeKey::RoleAssignment, 5, 3), 64);
    assert_eq!(expected_public_input_len(ProofTypeKey::Divination, 0, 0), 8);
    assert_eq!(expected_public_input_len(ProofTypeKey::AnonymousVoting, 0, 0), 1);
    assert_eq!(expected_public_input_len(ProofTypeKey::WinningJudge, 0, 0), 2);
    assert_eq!(expected_public_input_len(ProofTypeKey::KeyPublicize, 0, 0), 0);
}

#[test]
fn profiles_from_key_file_names() {
    assert_eq!(
        parse_profile_from_pk_filename("role_assignment_n5_w1_v1.pk"),
        Some(CircuitProfile::RoleAssignment { player_count: 5, werewolf_count: 1 })
    );
    assert_eq!(
        parse_profile_from_pk_filename("role_assignment_max9_v1.pk"),
        Some(CircuitProfile::RoleAssignment { player_count: 9, werewolf_count: 2 })
    );
    assert_eq!(parse_profile_from_pk_filename("divination_n7_v2.pk"), Some(CircuitProfile::Divination { player_count: 7 }));
    assert_eq!(
        parse_profile_from_pk_filename("winning_judgement_max5_v1.pk"),
        Some(CircuitProfile::WinningJudge { player_count: 5 })
    );
    assert_eq!(parse_profile_from_pk_filename("divination_n7.pk"), None);
    assert_eq!(parse_profile_from_pk_filename("divination_n7_v2"), None);
    assert_eq!(parse_profile_from_pk_filename("nonsense.pk"), None);
    assert_eq!(parse_single_count_profile("divination_n12_v1", "divination"), Some(12));
    assert_eq!(parse_single_count_profile("divination_max5_v1", "divination"), Some(5));
    assert_eq!(parse_single_count_profile("divination_nx_v1", "divination"), None);
    assert_eq!(
        circuit_profile_label(CircuitProfile::RoleAssignment { player_count: 9, werewolf_count: 2 }),
        "role_assignment_n9_w2"
    );
    assert_eq!(circuit_profile_label(CircuitProfile::KeyPublicize { player_count: 4 }), "key_publicize_n4");
    assert_eq!(default_werewolf_count_for_player_count(5), 1);
    assert_eq!(default_werewolf_count_for_player_count(8), 2);
    assert_eq!(default_werewolf_count_for_player_count(12), 3);
}

#[test]
fn setups_never_fall_back_for_a_known_profile() {
    let setups = CircuitGroth16Setups {
        by_profile: vec![CircuitProfile::Divination { player_count: 5 }],
        fallback_kinds: vec![ProofTypeKey::Divination],
    };
    assert_eq!(
        setups.for_circuit(Some(CircuitProfile::Divination { player_count: 5 }), ProofTypeKey::Divination),
        Some(SetupChoice::Profile(CircuitProfile::Divination { player_count: 5 }))
    );
    assert_eq!(setups.for_circuit(Some(CircuitProfile::Divination { player_count: 6 }), ProofTypeKey::Divination), None);
    assert_eq!(setups.for_circuit(None, ProofTypeKey::Divination), Some(SetupChoice::Kind(ProofTypeKey::Divination)));
    assert_eq!(setups.for_circuit(None, ProofTypeKey::WinningJudge), None);
}

#[test]
fn proof_manager_tracks_statuses() {
    let mut pm = ProofManager::new();
    let id = pm.register_proof_request();
    assert_eq!(id.len(), 36);
    assert_eq!(pm.get_proof_status(&id).unwrap().state, "pending");
    pm.update_proof_status(&id, "running", None);
    assert_eq!(pm.get_proof_status(&id).unwrap().state, "running");
    pm.record_generation(&id, false, None);
    let st = pm.get_proof_status(&id).unwrap();
    assert_eq!(st.state, "failed");
    assert_eq!(st.message.as_deref(), Some("Proof verification failed"));
    pm.update_proof_status("unknown", "completed", None);
    assert!(pm.get_proof_status("unknown").is_none());
    let nf = not_found_status("p1");
    assert_eq!(nf.state, "not_found");
    assert_eq!(nf.message.as_deref(), Some("Proof p1 not found"));
}

#[test]
fn proof_output_by_reader() {
    let mut node = KeyManager::new();
    node.generate_keypair();
    let public = build_proof_output(&node, 0, ProofOutputType::Public, vec![9], vec![1], vec![2], None, None).unwrap();
    assert_eq!(public.value, Some(vec![9]));
    assert_eq!(public.proof, Some(vec![1]));
    assert_eq!(public.public_inputs, Some(vec![2]));
    assert!(public.shares.is_none());
    let pk = node.get_public_key().unwrap();
    let private = build_proof_output(&node, 0, ProofOutputType::PrivateToPrivate(pk), vec![9, 9], vec![], vec![], None, None)
        .unwrap();
    let sealed = private.value.unwrap();
    assert_eq!(node.decrypt_share(&sealed).unwrap(), vec![9, 9]);
    assert!(build_proof_output(&node, 0, ProofOutputType::PrivateToPrivate("AAAA".into()), vec![1], vec![], vec![], None, None)
        .is_err());
}

#[test]
fn node_keys_are_stored_for_three_nodes() {
    let mut svc = NodeKeyService::new();
    assert!(svc.store_key(1, "test-public-key".into()).is_ok());
    assert_eq!(svc.get_key(1).as_deref(), Some("test-public-key"));
    assert_eq!(svc.store_key(4, "k".into()).unwrap_err(), "Invalid node ID");
    assert_eq!(svc.get_key(0), None);
    svc.store_key(0, "zero".into()).unwrap();
    let all = svc.get_all_keys();
    assert_eq!(all.len(), 2);
    assert_eq!(all[0].node_id, 0);
    assert_eq!(all[1].public_key, "test-public-key");
    let resp = RegisterKeyResponse::registered(1, "test-public-key".into());
    assert!(resp.success);
    assert_eq!(resp.node_id, 1);
}

#[test]
fn key_registration_checks_node_id() {
    assert!(key_registration(2, "pk".into()).is_ok());
    match key_registration(3, "pk".into()) {
        Err(e) => {
            assert!(matches!(e, ApiError::InvalidNodeId(3)));
            assert_eq!(e.to_string(), "Invalid node ID: 3");
        },
        Ok(_) => panic!("node 3 does not exist"),
    }
    assert_eq!(panic_payload_to_string(Some("boom".into())), "boom");
    assert_eq!(panic_payload_to_string(None), "unknown panic payload");
}

#[test]
fn profile_labels_read_back_from_key_file_names() {
    let profiles = [
        CircuitProfile::RoleAssignment { player_count: 9, werewolf_count: 2 },
        CircuitProfile::Divination { player_count: 5 },
        CircuitProfile::AnonymousVoting { player_count: 12 },
        CircuitProfile::WinningJudge { player_count: 4 },
        CircuitProfile::KeyPublicize { player_count: 100 },
    ];
    for p in profiles {
        let name = format!("{}_v1.pk", circuit_profile_label(p));
        assert_eq!(parse_profile_from_pk_filename(&name), Some(p));
    }
    assert_eq!(parse_profile_from_pk_filename("divination_n5_v1.key"), None);
}

#[test]
fn node_keys_come_from_the_environment_texts() {
    let k = keys_from_environment(1, "AQID", Some("BAUG")).unwrap();
    assert_eq!(k.secret_key, "AQID");
    assert_eq!(k.public_key, "BAUG");
    assert_eq!(
        keys_from_environment(1, "AQID", None).unwrap_err(),
        "Environment variable MPC_NODE_1_PUBLIC_KEY not found. Please set both MPC_PRIVATE_KEY and MPC_NODE_1_PUBLIC_KEY"
    );
    assert_eq!(keys_from_environment(2, "!!", Some("BAUG")).unwrap_err(), "Failed to decode MPC_PRIVATE_KEY from base64");
    assert_eq!(keys_from_environment(2, "AQID", Some("!!")).unwrap_err(), "Failed to decode MPC_NODE_2_PUBLIC_KEY from base64");
}
