use zk_werewolf::auth::{hash_password, verify_password, AuthError, Claims, UserServiceError};
use zk_werewolf::chain::{
    finish_send, game_result_to_u8, normalize_addresses, normalize_private_key, parse_cast_bool, parse_tx_hash,
    simulated_tx_hash, verify_after_call, Backend, BlockchainClient, ChainCall, Config, ContractAddresses, ProofType,
    RealBackend,
};
use zk_werewolf::game::GameResult;
use zk_werewolf::state_hash::{
    bytes32_to_hex, compute_commitment_hash, compute_game_id, compute_proof_id, fnv1a64_with_seed, hash_bytes,
    is_evm_address, FNV_OFFSET_BASIS,
};
use zk_werewolf::text::{parse_u32, parse_u64, parse_usize, to_ascii_lowercase, trim, usize_to_decimal};

const A1: &str = "0x1111111111111111111111111111111111111111";
const A2: &str = "0x2222222222222222222222222222222222222222";
const A3: &str = "0x3333333333333333333333333333333333333333";
const TX: &str = "0xaaaaaaaaaaaaaaaaaaaaaaaaaaaaaaaaaaaaaaaaaaaaaaaaaaaaaaaaaaaaaaaa";

fn config(enabled: bool) -> Config {
    Config {
        supabase_url: String::new(),
        supabase_key: String::new(),
        jwt_secret: "secret".into(),
        zk_mpc_node_0: "http://n0".into(),
        zk_mpc_node_1: "http://n1".into(),
        zk_mpc_node_2: "http://n2".into(),
        blockchain_enabled: enabled,
        ethereum_rpc_url: "http://rpc".into(),
        ethereum_chain_id: 31337,
        deployer_private_key: "  abcd ".into(),
        werewolf_game_contract: A1.into(),
        werewolf_verifier_contract: A2.into(),
        werewolf_rewards_contract: A3.into(),
    }
}

#[test]
fn fnv_and_digest_known_values() {
    // FNV-1a 64 of the empty input is its offset basis; of "a" the published value.
    assert_eq!(fnv1a64_with_seed(b"", FNV_OFFSET_BASIS), 0xcbf29ce484222325);
    assert_eq!(fnv1a64_with_seed(b"a", FNV_OFFSET_BASIS), 0xaf63dc4c8601ec8c);
    assert_eq!(hash_bytes(b"abc"), hash_bytes(b"abc"));
    assert_ne!(hash_bytes(b"abc"), hash_bytes(b"abd"));
    assert_ne!(compute_game_id("1"), compute_proof_id("1"));
    let mut input = b"game_id:".to_vec();
    input.extend_from_slice(b"42");
    assert_eq!(compute_game_id("42"), hash_bytes(&input));
    let mut c = b"r1".to_vec();
    c.extend_from_slice(b"p1");
    c.extend_from_slice(b"{\"x\":1}");
    assert_eq!(compute_commitment_hash("r1", "p1", "{\"x\":1}"), hash_bytes(&c));
}

#[test]
fn hex_and_addresses() {
    let mut b = [0u8; 32];
    b[0] = 0xab;
    b[31] = 0x01;
    let h = bytes32_to_hex(&b);
    assert_eq!(h.len(), 66);
    assert!(h.starts_with("0xab00"));
    assert!(h.ends_with("01"));
    assert!(is_evm_address(A1));
    assert!(is_evm_address("0xAbCdEf0000000000000000000000000000000000"));
    assert!(!is_evm_address("0x123"));
    assert!(!is_evm_address("1x1111111111111111111111111111111111111111"));
    assert!(!is_evm_address("0x111111111111111111111111111111111111111g"));
}

#[test]
fn text_helpers() {
    assert_eq!(parse_u32("4294967295"), Some(u32::MAX));
    assert_eq!(parse_u32("4294967296"), None);
    assert_eq!(parse_u32("+7"), Some(7));
    assert_eq!(parse_u32(""), None);
    assert_eq!(parse_u32("1a"), None);
    assert_eq!(parse_usize("12"), Some(12));
    assert_eq!(parse_u64("18446744073709551615"), Some(u64::MAX));
    assert_eq!(trim("  a b \n"), "a b");
    assert_eq!(to_ascii_lowercase("AbC-É"), "abc-É");
    assert_eq!(usize_to_decimal(0), "0");
    assert_eq!(usize_to_decimal(1203), "1203");
}

#[test]
fn private_keys_get_the_hex_prefix() {
    assert_eq!(normalize_private_key("  abcd "), "0xabcd");
    assert_eq!(normalize_private_key("0xabcd"), "0xabcd");
    let c = config(true);
    let addresses = ContractAddresses { game_contract: A1.into(), verifier_contract: A2.into(), rewards_contract: A3.into() };
    assert_eq!(RealBackend::precheck(&c, &addresses, true).unwrap(), "0xabcd");
    assert_eq!(
        RealBackend::precheck(&c, &addresses, false).unwrap_err(),
        "cast command is not available in PATH"
    );
    let bad = ContractAddresses { game_contract: "nope".into(), ..addresses.clone() };
    assert_eq!(RealBackend::precheck(&c, &bad, true).unwrap_err(), "one or more contract addresses are invalid");
    let mut empty = config(true);
    empty.deployer_private_key = "   ".into();
    assert_eq!(RealBackend::precheck(&empty, &addresses, true).unwrap_err(), "DEPLOYER_PRIVATE_KEY is empty");
}

#[test]
fn client_backend_follows_the_config() {
    let off = BlockchainClient::new(&config(false), Err("x".into()));
    assert!(!off.is_enabled());
    assert!(matches!(off.create_game(&[0u8; 32], vec![]), ChainCall::Finished(Ok(None))));
    let sim = BlockchainClient::new(&config(true), Err("cast missing".into()));
    assert!(matches!(sim.backend, Backend::Simulated(_)));
    match sim.create_game(&[7u8; 32], vec![A1.into()]) {
        ChainCall::Finished(Ok(Some(h))) => assert_eq!(h, simulated_tx_hash("create_game", &[7u8; 32])),
        _ => panic!("a simulated backend answers at once"),
    }
    assert_eq!(config(true).zk_mpc_node_urls(), vec!["http://n0", "http://n1", "http://n2"]);
    let mut unset = config(true);
    unset.werewolf_rewards_contract = String::new();
    assert!(BlockchainClient::wanted_addresses(&unset).is_none());
    assert!(BlockchainClient::wanted_addresses(&config(true)).is_some());
}

#[test]
fn real_backend_builds_cast_arguments() {
    let backend = RealBackend {
        rpc_url: "http://rpc".into(),
        chain_id: 1,
        private_key: "0xkey".into(),
        from_address: A1.into(),
        addresses: ContractAddresses { game_contract: A1.into(), verifier_contract: A2.into(), rewards_contract: A3.into() },
    };
    let client = BlockchainClient { backend: Backend::Real(backend) };
    match client.create_game(&[0u8; 32], vec![A2.into(), A3.into()]) {
        ChainCall::Send(args) => {
            assert!(args.contains(&"createGame(bytes32,address[])".to_string()));
            assert_eq!(args.last().unwrap(), &format!("[{},{}]", A2, A3));
        },
        _ => panic!("a real backend sends"),
    }
    match client.create_game(&[0u8; 32], vec!["bad".into()]) {
        ChainCall::Finished(Err(e)) => assert_eq!(e, "invalid players address: bad"),
        _ => panic!("invalid players are refused"),
    }
}

#[test]
fn cast_outputs_are_read() {
    assert_eq!(parse_cast_bool(" true\n"), Ok(true));
    assert_eq!(parse_cast_bool("FALSE"), Ok(false));
    assert_eq!(parse_cast_bool("0x0000"), Ok(false));
    assert_eq!(parse_cast_bool("0x0001"), Ok(true));
    assert_eq!(parse_cast_bool("maybe"), Err("unable to parse cast call bool output: maybe".to_string()));
    assert_eq!(parse_tx_hash(TX), Ok(TX.to_string()));
    assert_eq!(parse_tx_hash(&format!("blockHash 0x12\ntransactionHash {}", TX)), Ok(TX.to_string()));
    assert_eq!(parse_tx_hash(&format!("{{\"transactionHash\":\"{}\"}}", TX)), Ok(TX.to_string()));
    assert_eq!(parse_tx_hash(&format!("{{\"status\":\"0x1\",\"hash\":\"{}\"}}", TX)), Ok(TX.to_string()));
    assert_eq!(parse_tx_hash("nothing"), Err("failed to extract tx hash from cast output: nothing".to_string()));
    assert!(parse_tx_hash("{broken").unwrap_err().starts_with("failed to parse cast json output: "));
    assert_eq!(verify_after_call(Ok("false".into())), Some(Ok(Some(false))));
    assert_eq!(verify_after_call(Ok("true".into())), None);
    assert_eq!(verify_after_call(Err("rpc down".into())), Some(Err("rpc down".to_string())));
    assert_eq!(finish_send(Ok(TX.into())), Ok(Some(TX.to_string())));
    assert_eq!(finish_send(Err("e".into())), Err("e".to_string()));
}

#[test]
fn addresses_are_checked_in_order() {
    assert_eq!(normalize_addresses("winners", vec![A1.into(), A2.into()]).unwrap().len(), 2);
    assert_eq!(
        normalize_addresses("winners", vec![A1.into(), "x".into(), "y".into()]).unwrap_err(),
        "invalid winners address: x"
    );
}

#[test]
fn contract_codes() {
    assert_eq!(ProofType::RoleAssignment.as_u8(), 0);
    assert_eq!(ProofType::KeyPublicize.as_u8(), 4);
    assert_eq!(game_result_to_u8(&GameResult::InProgress), 0);
    assert_eq!(game_result_to_u8(&GameResult::WerewolfWin), 2);
}

#[test]
fn passwords_verify_against_their_hash() {
    let h = hash_password("hunter2").unwrap();
    assert!(h.starts_with("$2"));
    assert!(verify_password("hunter2", &h));
    assert!(!verify_password("hunter3", &h));
    assert!(!verify_password("hunter2", "not a hash"));
    let c = Claims::for_user("u1".into(), 1_000);
    assert_eq!((c.iat, c.exp), (1_000, 1_000 + 86_400));
    assert_eq!(AuthError::PasswordHash.to_string(), "パスワードのハッシュ化に失敗しました");
    assert_eq!(
        UserServiceError::AuthError(AuthError::TokenCreation).to_string(),
        "認証エラー: トークンの作成に失敗しました"
    );
}

#[test]
fn normalizing_a_key_twice_changes_nothing() {
    for k in ["  abc  ", "0xabc", " 0x12 ", "", "x"] {
        let once = normalize_private_key(k);
        assert_eq!(normalize_private_key(&once), once);
    }
    assert_eq!(normalize_private_key("  abc  "), "0xabc");
}

#[test]
fn a_digest_hex_text_reads_back() {
    let b: [u8; 32] = core::array::from_fn(|i| (i * 37 + 5) as u8);
    let h = bytes32_to_hex(&b);
    for i in 0..32 {
        assert_eq!(u8::from_str_radix(&h[2 + 2 * i..4 + 2 * i], 16), Ok(b[i]));
    }
}
