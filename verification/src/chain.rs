//! On-chain bookkeeping: proof types as the verifier contract numbers them,
//! contract addresses, and the choice of backend.

use vstd::prelude::*;
use vstd::string::{StrSliceExecFns, StringExecFns};
use crate::game::GameResult;
use crate::state_hash::{
    bytes32_to_hex, bytes_to_hex, digest, hash_bytes, is_evm_address, is_evm_address_bytes,
    prefixed_hex,
};
use crate::support::{extend_bytes, first_where, lemma_first_where, str_eq};
use crate::text::{
    ascii_lower, char_is_space, decimal, is_space, starts_with, to_ascii_lowercase, trim, trim_spec, lemma_trim_ends, lemma_trim_fixed,
    usize_to_decimal,
};

verus! {

/// The proof kinds of the verifier contract.
#[derive(Debug, Clone, Copy, PartialEq, Eq, Structural)]
pub enum ProofType {
    RoleAssignment,
    Divination,
    AnonymousVoting,
    WinningJudgement,
    KeyPublicize,
}

pub open spec fn proof_type_code(t: ProofType) -> u8 {
    match t {
        ProofType::RoleAssignment => 0,
        ProofType::Divination => 1,
        ProofType::AnonymousVoting => 2,
        ProofType::WinningJudgement => 3,
        ProofType::KeyPublicize => 4,
    }
}

impl ProofType {
    /// The number the verifier contract uses for this kind.
    pub fn as_u8(self) -> (n: u8)
        ensures
            n == proof_type_code(self),
    {
        match self {
            ProofType::RoleAssignment => 0,
            ProofType::Divination => 1,
            ProofType::AnonymousVoting => 2,
            ProofType::WinningJudgement => 3,
            ProofType::KeyPublicize => 4,
        }
    }
}

/// The configuration the server reads from its environment.
#[derive(Debug, Clone)]
pub struct Config {
    pub supabase_url: String,
    pub supabase_key: String,
    pub jwt_secret: String,
    pub zk_mpc_node_0: String,
    pub zk_mpc_node_1: String,
    pub zk_mpc_node_2: String,
    pub blockchain_enabled: bool,
    pub ethereum_rpc_url: String,
    pub ethereum_chain_id: u64,
    pub deployer_private_key: String,
    pub werewolf_game_contract: String,
    pub werewolf_verifier_contract: String,
    pub werewolf_rewards_contract: String,
}

impl Config {
    /// The three MPC nodes' URLs, node 0 first.
    pub fn zk_mpc_node_urls(&self) -> (r: Vec<String>)
        ensures
            r@.len() == 3,
            r@[0] == self.zk_mpc_node_0,
            r@[1] == self.zk_mpc_node_1,
            r@[2] == self.zk_mpc_node_2,
    {
        let mut v: Vec<String> = Vec::new();
        v.push(self.zk_mpc_node_0.clone());
        v.push(self.zk_mpc_node_1.clone());
        v.push(self.zk_mpc_node_2.clone());
        v
    }
}

#[derive(Debug, Clone)]
pub struct ContractAddresses {
    pub game_contract: String,
    pub verifier_contract: String,
    pub rewards_contract: String,
}

impl ContractAddresses {
    pub open spec fn configured(&self) -> bool {
        self.game_contract@.len() > 0 && self.verifier_contract@.len() > 0
            && self.rewards_contract@.len() > 0
    }

    /// All three addresses are set.
    pub fn is_configured(&self) -> (b: bool)
        ensures
            b == self.configured(),
    {
        self.game_contract.unicode_len() != 0 && self.verifier_contract.unicode_len() != 0
            && self.rewards_contract.unicode_len() != 0
    }

    pub open spec fn all_valid(&self) -> bool {
        &&& is_evm_address_bytes(encode_utf8(self.game_contract@))
        &&& is_evm_address_bytes(encode_utf8(self.verifier_contract@))
        &&& is_evm_address_bytes(encode_utf8(self.rewards_contract@))
    }
}

pub open spec fn encode_utf8(s: Seq<char>) -> Seq<u8> {
    vstd::utf8::encode_utf8(s)
}

/// A backend that only logs, answering with made-up transaction hashes.
#[derive(Debug, Clone)]
pub struct SimulatedBackend {
    pub rpc_url: String,
    pub chain_id: u64,
    pub addresses: ContractAddresses,
}

/// A backend that sends transactions with `cast`.
#[derive(Debug, Clone)]
pub struct RealBackend {
    pub rpc_url: String,
    pub chain_id: u64,
    pub private_key: String,
    pub from_address: String,
    pub addresses: ContractAddresses,
}

/// `0x` and the key, unless it already starts so; trimmed.
pub open spec fn normalized_key(value: Seq<char>) -> Seq<char> {
    let key = trim_spec(value);
    if key.len() >= 2 && key.take(2) == "0x"@ {
        key
    } else {
        "0x"@ + key
    }
}

pub fn normalize_private_key(value: &str) -> (r: String)
    ensures
        r@ == normalized_key(value@),
{
    let key = trim(value);
    proof {
        reveal_strlit("0x");
    }
    if starts_with(key, "0x") {
        key.to_owned()
    } else {
        "0x".to_owned().concat(key)
    }
}

/// Normalizing a private key twice gives what normalizing it once gives.
pub proof fn lemma_normalized_key_idempotent(value: Seq<char>)
    ensures
        normalized_key(normalized_key(value)) == normalized_key(value),
{
    reveal_strlit("0x");
    let key = trim_spec(value);
    lemma_trim_ends(value);
    let n = normalized_key(value);
    if !(key.len() >= 2 && key.take(2) == "0x"@) {
        assert(n[0] == '0');
        if key.len() > 0 {
            assert(n.last() == key.last());
        } else {
            assert(n.last() == 'x');
        }
        assert(n.take(2) =~= "0x"@);
    }
    assert(n.len() > 0 ==> n[0] == '0') by {
        if key.len() >= 2 && key.take(2) == "0x"@ {
            assert(key[0] == key.take(2)[0]);
        }
    }
    lemma_trim_fixed(n);
}

/// Why a real backend cannot be set up from `config`, before asking `cast`
/// for the sender's address.
pub open spec fn precheck_failure(config: Config, addresses: ContractAddresses, cast_available: bool) -> Option<Seq<char>> {
    if trim_spec(config.deployer_private_key@).len() == 0 {
        Some("DEPLOYER_PRIVATE_KEY is empty"@)
    } else if !cast_available {
        Some("cast command is not available in PATH"@)
    } else if !addresses.all_valid() {
        Some("one or more contract addresses are invalid"@)
    } else {
        None
    }
}

impl RealBackend {
    /// Checks what can be checked before asking `cast` for the sender's
    /// address; gives the normalized private key to ask with.
    pub fn precheck(config: &Config, addresses: &ContractAddresses, cast_available: bool) -> (r: Result<String, String>)
        ensures
            match precheck_failure(*config, *addresses, cast_available) {
                Some(e) => r is Err && r->Err_0@ == e,
                None => r is Ok && r->Ok_0@ == normalized_key(config.deployer_private_key@),
            },
    {
        let key = trim(config.deployer_private_key.as_str());
        if key.unicode_len() == 0 {
            return Err("DEPLOYER_PRIVATE_KEY is empty".to_owned());
        }
        if !cast_available {
            return Err("cast command is not available in PATH".to_owned());
        }
        if !is_evm_address(addresses.game_contract.as_str()) || !is_evm_address(
            addresses.verifier_contract.as_str(),
        ) || !is_evm_address(addresses.rewards_contract.as_str()) {
            return Err("one or more contract addresses are invalid".to_owned());
        }
        Ok(normalize_private_key(config.deployer_private_key.as_str()))
    }
}

/// What is left to do for a chain call: nothing (the answer is here), or
/// run `cast` with these arguments and read the transaction hash it prints.
#[derive(Debug)]
pub enum ChainCall {
    Finished(Result<Option<String>, String>),
    Send(Vec<String>),
}

#[derive(Debug, Clone)]
pub enum Backend {
    Disabled,
    Simulated(SimulatedBackend),
    Real(RealBackend),
}

/// Talks to the game, verifier and rewards contracts, or pretends to.
#[derive(Debug, Clone)]
pub struct BlockchainClient {
    pub backend: Backend,
}

/// `[label, seed]` made into a transaction-hash-looking text.
pub open spec fn simulated_hash_spec(label: Seq<char>, seed: Seq<u8>) -> Seq<char> {
    prefixed_hex(digest(encode_utf8(label) + seed))
}

pub fn simulated_tx_hash(label: &str, seed: &[u8; 32]) -> (r: String)
    ensures
        r@ == simulated_hash_spec(label@, seed@),
{
    let mut input: Vec<u8> = Vec::new();
    extend_bytes(&mut input, label.as_bytes());
    extend_bytes(&mut input, seed.as_slice());
    let h = hash_bytes(input.as_slice());
    bytes32_to_hex(&h)
}

pub open spec fn game_result_code(r: GameResult) -> u8 {
    match r {
        GameResult::InProgress => 0,
        GameResult::VillagerWin => 1,
        GameResult::WerewolfWin => 2,
    }
}

pub fn game_result_to_u8(r: &GameResult) -> (n: u8)
    ensures
        n == game_result_code(*r),
{
    match r {
        GameResult::InProgress => 0,
        GameResult::VillagerWin => 1,
        GameResult::WerewolfWin => 2,
    }
}

/// The `Debug` text of a game result.
pub open spec fn game_result_name(r: GameResult) -> Seq<char> {
    match r {
        GameResult::InProgress => "InProgress"@,
        GameResult::VillagerWin => "VillagerWin"@,
        GameResult::WerewolfWin => "WerewolfWin"@,
    }
}

fn game_result_text(r: &GameResult) -> (s: String)
    ensures
        s@ == game_result_name(*r),
{
    match r {
        GameResult::InProgress => "InProgress".to_owned(),
        GameResult::VillagerWin => "VillagerWin".to_owned(),
        GameResult::WerewolfWin => "WerewolfWin".to_owned(),
    }
}

/// The arguments of `cast send` to contract `to`, function `sig`.
pub open spec fn send_args_spec(b: RealBackend, to: Seq<char>, sig: Seq<char>) -> Seq<Seq<char>> {
    seq![
        "send"@,
        to,
        sig,
        "--rpc-url"@,
        b.rpc_url@,
        "--private-key"@,
        b.private_key@,
        "--json"@,
    ]
}

pub open spec fn texts(v: Seq<String>) -> Seq<Seq<char>> {
    v.map_values(|s: String| s@)
}

pub fn base_send_args(b: &RealBackend, to: &str, sig: &str) -> (r: Vec<String>)
    ensures
        texts(r@) == send_args_spec(*b, to@, sig@),
{
    let mut v: Vec<String> = Vec::new();
    v.push("send".to_owned());
    v.push(to.to_owned());
    v.push(sig.to_owned());
    v.push("--rpc-url".to_owned());
    v.push(b.rpc_url.clone());
    v.push("--private-key".to_owned());
    v.push(b.private_key.clone());
    v.push("--json".to_owned());
    assert(texts(v@) =~= send_args_spec(*b, to@, sig@));
    v
}

/// The first value that is not an EVM address, if any.
pub open spec fn first_invalid(values: Seq<String>) -> int {
    first_where(values, |s: String| !is_evm_address_bytes(encode_utf8(s@)))
}

/// Keeps `values` when all are EVM addresses; names the first that is not.
pub fn normalize_addresses(label: &str, values: Vec<String>) -> (r: Result<Vec<String>, String>)
    ensures
        first_invalid(values@) < 0 ==> r is Ok && r->Ok_0@ == values@,
        first_invalid(values@) >= 0 ==> r is Err && r->Err_0@ == "invalid "@ + label@ + " address: "@
            + values@[first_invalid(values@)]@,
{
    let ghost p = |s: String| !is_evm_address_bytes(encode_utf8(s@));
    proof {
        lemma_first_where(values@, p);
    }
    let n = values.len();
    let mut i: usize = 0;
    while i < n
        invariant
            n == values@.len(),
            i <= n,
            p == (|s: String| !is_evm_address_bytes(encode_utf8(s@))),
            forall|j: int| 0 <= j < i ==> !p(#[trigger] values@[j]),
            -1 <= first_where(values@, p) < values@.len(),
            first_where(values@, p) >= 0 ==> p(values@[first_where(values@, p)]),
            first_where(values@, p) < 0 <==> forall|j: int| 0 <= j < values@.len() ==> !p(#[trigger] values@[j]),
            forall|j: int| 0 <= j < first_where(values@, p) ==> !p(#[trigger] values@[j]),
        decreases n - i,
    {
        if !is_evm_address(values[i].as_str()) {
            let text = "invalid ".to_owned().concat(label).concat(" address: ").concat(values[i].as_str());
            return Err(text);
        }
        i += 1;
    }
    Ok(values)
}

/// `cast call` prints a bool: `true`, `false`, or a hex word (zero is false).
pub open spec fn cast_bool_spec(output: Seq<char>) -> Option<bool> {
    let v = trim_spec(output).map_values(|c: char| ascii_lower(c));
    if v == "true"@ {
        Some(true)
    } else if v == "false"@ {
        Some(false)
    } else if v.len() >= 2 && v.take(2) == "0x"@ {
        Some(!(forall|i: int| 2 <= i < v.len() ==> v[i] == '0'))
    } else {
        None
    }
}

pub fn parse_cast_bool(output: &str) -> (r: Result<bool, String>)
    ensures
        match cast_bool_spec(output@) {
            Some(b) => r == Ok::<bool, String>(b),
            None => r is Err && r->Err_0@ == "unable to parse cast call bool output: "@ + output@,
        },
{
    let lowered = to_ascii_lowercase(trim(output));
    let v = lowered.as_str();
    proof {
        reveal_strlit("true");
        reveal_strlit("false");
        reveal_strlit("0x");
    }
    if str_eq(v, "true") {
        return Ok(true);
    }
    if str_eq(v, "false") {
        return Ok(false);
    }
    if starts_with(v, "0x") {
        let n = v.unicode_len();
        let mut i: usize = 2;
        while i < n
            invariant
                n == v@.len(),
                2 <= i <= n,
                forall|j: int| 2 <= j < i ==> v@[j] == '0',
                v@ == trim_spec(output@).map_values(|c: char| ascii_lower(c)),
                v@ != "true"@,
                v@ != "false"@,
                v@.len() >= 2 && v@.take(2) == "0x"@,
            decreases n - i,
        {
            if v.get_char(i) != '0' {
                assert(v@[i as int] != '0');
                return Ok(true);
            }
            i += 1;
        }
        return Ok(false);
    }
    Err("unable to parse cast call bool output: ".to_owned().concat(output))
}

/// What `serde_json` makes of `text`, asked for the string under `key`:
/// `Err` with its message when `text` is not JSON; `Ok(None)` when there is
/// no such string.
pub uninterp spec fn json_string_field(text: Seq<char>, key: Seq<char>) -> Result<Option<Seq<char>>, Seq<char>>;

/// `serde_json::from_str::<Value>(text)`, then `.get(key)` and `.as_str()`.
/// Claimed: the result is the named one.
#[verifier::external_body]
pub(crate) fn json_field(text: &str, key: &str) -> (r: Result<Option<String>, String>)
    ensures
        match r {
            Ok(Some(s)) => json_string_field(text@, key@) is Ok && json_string_field(text@, key@)->Ok_0
                == Some(s@),
            Ok(None) => json_string_field(text@, key@) is Ok && json_string_field(text@, key@)->Ok_0
                is None,
            Err(e) => json_string_field(text@, key@) is Err && json_string_field(text@, key@)->Err_0
                == e@,
        },
{
    match serde_json::from_str::<serde_json::Value>(text) {
        Ok(v) => Ok(v.get(key).and_then(|x| x.as_str()).map(|s| s.to_owned())),
        Err(e) => Err(e.to_string()),
    }
}

/// A transaction hash: `0x` and 64 more characters, 66 bytes in all.
pub open spec fn is_hash_token(t: Seq<char>) -> bool {
    t.len() >= 2 && t.take(2) == "0x"@ && encode_utf8(t).len() == 66
}

/// The whitespace-separated words of `s`, in order.
pub open spec fn words(s: Seq<char>) -> Seq<Seq<char>>
    decreases s.len(),
{
    if s.len() == 0 {
        Seq::empty()
    } else if is_space(s[0]) {
        words(s.drop_first())
    } else {
        let w = word_len(s);
        proof {
            lemma_word_len(s);
        }
        seq![s.take(w as int)] + words(s.skip(w as int))
    }
}

pub proof fn lemma_word_len(s: Seq<char>)
    ensures
        word_len(s) <= s.len(),
        s.len() > 0 && !is_space(s[0]) ==> word_len(s) >= 1,
        forall|i: int| 0 <= i < word_len(s) ==> !is_space(#[trigger] s[i]),
        word_len(s) < s.len() ==> is_space(s[word_len(s) as int]),
    decreases s.len(),
{
    if s.len() > 0 && !is_space(s[0]) {
        lemma_word_len(s.drop_first());
        assert forall|i: int| 0 <= i < word_len(s) implies !is_space(#[trigger] s[i]) by {
            if i > 0 {
                assert(s[i] == s.drop_first()[i - 1]);
            }
        }
        if word_len(s) < s.len() {
            assert(s[word_len(s) as int] == s.drop_first()[word_len(s.drop_first()) as int]);
        }
    }
}

/// Length of the word `s` starts with.
pub open spec fn word_len(s: Seq<char>) -> nat
    decreases s.len(),
{
    if s.len() == 0 || is_space(s[0]) {
        0
    } else {
        1 + word_len(s.drop_first())
    }
}


/// The first word that is a transaction hash.
pub open spec fn first_hash_word(ws: Seq<Seq<char>>) -> Option<Seq<char>>
    decreases ws.len(),
{
    if ws.len() == 0 {
        None
    } else if is_hash_token(ws[0]) {
        Some(ws[0])
    } else {
        first_hash_word(ws.drop_first())
    }
}

/// The hash a JSON answer of `cast send --json` names, if the answer is
/// JSON (the first of `transactionHash`, `hash`, `txHash` present).
pub open spec fn json_hash(t: Seq<char>) -> Option<Result<Seq<char>, Seq<char>>> {
    if t.len() > 0 && t[0] == '{' {
        match json_string_field(t, "transactionHash"@) {
            Err(e) => Some(Err("failed to parse cast json output: "@ + e)),
            Ok(Some(h)) => Some(Ok(h)),
            Ok(None) => match json_string_field(t, "hash"@) {
                Ok(Some(h)) => Some(Ok(h)),
                _ => match json_string_field(t, "txHash"@) {
                    Ok(Some(h)) => Some(Ok(h)),
                    _ => None,
                },
            },
        }
    } else {
        None
    }
}

/// The transaction hash in what `cast send` printed.
pub open spec fn tx_hash_spec(output: Seq<char>) -> Result<Seq<char>, Seq<char>> {
    let t = trim_spec(output);
    match json_hash(t) {
        Some(r) => r,
        None => if is_hash_token(t) {
            Ok(t)
        } else {
            match first_hash_word(words(t)) {
                Some(w) => Ok(w),
                None => Err("failed to extract tx hash from cast output: "@ + output),
            }
        },
    }
}

fn hash_token(t: &str) -> (r: bool)
    ensures
        r == is_hash_token(t@),
{
    proof {
        reveal_strlit("0x");
    }
    starts_with(t, "0x") && t.as_bytes().len() == 66
}

/// The first whitespace-separated word of `t` that is a transaction hash.
fn find_hash_word(t: &str) -> (r: Option<String>)
    ensures
        match r {
            Some(w) => first_hash_word(words(t@)) == Some(w@),
            None => first_hash_word(words(t@)) is None,
        },
{
    let n = t.unicode_len();
    let mut i: usize = 0;
    assert(t@.skip(0) =~= t@);
    while i < n
        invariant
            n == t@.len(),
            i <= n,
            first_hash_word(words(t@)) == first_hash_word(words(t@.skip(i as int))),
        decreases n - i,
    {
        let ghost s = t@.skip(i as int);
        if char_is_space(t.get_char(i)) {
            assert(s[0] == t@[i as int]);
            assert(s.drop_first() =~= t@.skip(i + 1));
            i += 1;
        } else {
            let mut j: usize = i;
            while j < n && !char_is_space(t.get_char(j))
                invariant
                    n == t@.len(),
                    i <= j <= n,
                    forall|k: int| i <= k < j ==> !is_space(#[trigger] t@[k]),
                decreases n - j,
            {
                j += 1;
            }
            proof {
                assert(s[0] == t@[i as int]);
                lemma_word_len(s);
                let w = word_len(s);
                if w < j - i {
                    assert(s[w as int] == t@[i + w]);
                }
                if w > j - i {
                    assert(s[(j - i) as int] == t@[j as int]);
                }
                assert(w == j - i);
                assert(s.skip(w as int) =~= t@.skip(j as int));
            }
            let token = t.substring_char(i, j);
            assert(token@ =~= s.take((j - i) as int));
            assert(words(s) =~= seq![token@] + words(t@.skip(j as int)));
            if hash_token(token) {
                return Some(token.to_owned());
            }
            assert((seq![token@] + words(t@.skip(j as int))).drop_first() =~= words(
                t@.skip(j as int),
            ));
            i = j;
        }
    }
    assert(t@.skip(n as int).len() == 0);
    None
}

/// The transaction hash in what `cast send` printed: from its JSON, or the
/// whole text, or its first word that looks like one.
pub fn parse_tx_hash(output: &str) -> (r: Result<String, String>)
    ensures
        match tx_hash_spec(output@) {
            Ok(h) => r is Ok && r->Ok_0@ == h,
            Err(e) => r is Err && r->Err_0@ == e,
        },
{
    let t = trim(output);
    proof {
        reveal_strlit("transactionHash");
        reveal_strlit("hash");
        reveal_strlit("txHash");
    }
    if t.unicode_len() > 0 && t.get_char(0) == '{' {
        match json_field(t, "transactionHash") {
            Err(e) => {
                return Err("failed to parse cast json output: ".to_owned().concat(e.as_str()));
            },
            Ok(Some(h)) => {
                return Ok(h);
            },
            Ok(None) => {},
        }
        match json_field(t, "hash") {
            Ok(Some(h)) => {
                return Ok(h);
            },
            _ => {},
        }
        match json_field(t, "txHash") {
            Ok(Some(h)) => {
                return Ok(h);
            },
            _ => {},
        }
    }
    if hash_token(t) {
        return Ok(t.to_owned());
    }
    match find_hash_word(t) {
        Some(w) => Ok(w),
        None => Err("failed to extract tx hash from cast output: ".to_owned().concat(output)),
    }
}

/// The contract-address list argument `[a,b,...]`.
pub open spec fn address_list(values: Seq<String>) -> Seq<char> {
    "["@ + joined(values) + "]"@
}

/// The values separated by commas.
pub open spec fn joined(values: Seq<String>) -> Seq<char>
    decreases values.len(),
{
    if values.len() == 0 {
        Seq::empty()
    } else if values.len() == 1 {
        values[0]@
    } else {
        joined(values.drop_last()) + ","@ + values.last()@
    }
}

fn join_commas(values: &Vec<String>) -> (r: String)
    ensures
        r@ == joined(values@),
{
    let mut out = String::new();
    let n = values.len();
    let mut i: usize = 0;
    while i < n
        invariant
            n == values@.len(),
            i <= n,
            out@ == joined(values@.take(i as int)),
        decreases n - i,
    {
        proof {
            assert(values@.take(i + 1).drop_last() =~= values@.take(i as int));
            assert(values@.take(i + 1).last() == values@[i as int]);
        }
        if i == 0 {
            out = values[0].clone();
            assert(out@ == joined(values@.take(1)));
        } else {
            out = out.concat(",").concat(values[i].as_str());
        }
        i += 1;
    }
    assert(values@.take(n as int) =~= values@);
    out
}

fn address_list_arg(values: &Vec<String>) -> (r: String)
    ensures
        r@ == address_list(values@),
{
    let inner = join_commas(values);
    "[".to_owned().concat(inner.as_str()).concat("]")
}

/// The backend `config` calls for: none when the chain is off or an address
/// is missing; `cast` when `real` (the set-up attempt) succeeded; logging
/// otherwise.
pub open spec fn backend_for(config: Config, attempt: Result<RealBackend, String>) -> Backend {
    let addresses = ContractAddresses {
        game_contract: config.werewolf_game_contract,
        verifier_contract: config.werewolf_verifier_contract,
        rewards_contract: config.werewolf_rewards_contract,
    };
    if !config.blockchain_enabled || !addresses.configured() {
        Backend::Disabled
    } else {
        match attempt {
            Ok(b) => Backend::Real(b),
            Err(_) => Backend::Simulated(
                SimulatedBackend {
                    rpc_url: config.ethereum_rpc_url,
                    chain_id: config.ethereum_chain_id,
                    addresses,
                },
            ),
        }
    }
}

impl RealBackend {
    /// A `cast` backend: the checks of `precheck`, then the sender address
    /// `cast wallet address` printed (`derived`), which must be an EVM address.
    pub fn from_config(
        config: &Config,
        addresses: &ContractAddresses,
        cast_available: bool,
        derived: Result<String, String>,
    ) -> (r: Result<RealBackend, String>)
        ensures
            precheck_failure(*config, *addresses, cast_available) matches Some(e) ==> r is Err
                && r->Err_0@ == e,
            precheck_failure(*config, *addresses, cast_available) is None ==> match derived {
                Err(e) => r is Err && r->Err_0@ == e@,
                Ok(a) => if is_evm_address_bytes(encode_utf8(a@)) {
                    r is Ok && r->Ok_0 == (RealBackend {
                        rpc_url: config.ethereum_rpc_url,
                        chain_id: config.ethereum_chain_id,
                        private_key: r->Ok_0.private_key,
                        from_address: a,
                        addresses: *addresses,
                    }) && r->Ok_0.private_key@ == normalized_key(config.deployer_private_key@)
                } else {
                    r is Err && r->Err_0@ == "cast wallet address returned invalid address: "@ + a@
                },
            },
    {
        let key = match RealBackend::precheck(config, addresses, cast_available) {
            Ok(k) => k,
            Err(e) => return Err(e),
        };
        let from_address = match derived {
            Ok(a) => a,
            Err(e) => return Err(e),
        };
        if !is_evm_address(from_address.as_str()) {
            return Err(
                "cast wallet address returned invalid address: ".to_owned().concat(
                    from_address.as_str(),
                ),
            );
        }
        Ok(
            RealBackend {
                rpc_url: config.ethereum_rpc_url.clone(),
                chain_id: config.ethereum_chain_id,
                private_key: key,
                from_address,
                addresses: copy_addresses(addresses),
            },
        )
    }
}

fn copy_addresses(a: &ContractAddresses) -> (r: ContractAddresses)
    ensures
        r == *a,
{
    ContractAddresses {
        game_contract: a.game_contract.clone(),
        verifier_contract: a.verifier_contract.clone(),
        rewards_contract: a.rewards_contract.clone(),
    }
}

/// The gas limit the verifier call gets: role-assignment proofs are large.
pub open spec fn verify_gas_limit(t: ProofType) -> Option<u64> {
    if t == ProofType::RoleAssignment {
        Some(1_500_000)
    } else {
        None
    }
}

/// What remains of a proof verification: the answer, or `cast` calls to run.
#[derive(Debug)]
pub enum VerifyStep {
    Finished(Result<Option<bool>, String>),
    /// Run `cast call` with `call_args`; if it says true, `cast send` with
    /// `send_args`.
    Cast { call_args: Vec<String>, send_args: Vec<String> },
}

impl BlockchainClient {
    /// The client `config` calls for (see `backend_for`).
    pub fn new(config: &Config, attempt: Result<RealBackend, String>) -> (c: Self)
        ensures
            c.backend == backend_for(*config, attempt),
    {
        let addresses = ContractAddresses {
            game_contract: config.werewolf_game_contract.clone(),
            verifier_contract: config.werewolf_verifier_contract.clone(),
            rewards_contract: config.werewolf_rewards_contract.clone(),
        };
        if !config.blockchain_enabled || !addresses.is_configured() {
            return BlockchainClient { backend: Backend::Disabled };
        }
        match attempt {
            Ok(b) => BlockchainClient { backend: Backend::Real(b) },
            Err(_) => BlockchainClient {
                backend: Backend::Simulated(
                    SimulatedBackend {
                        rpc_url: config.ethereum_rpc_url.clone(),
                        chain_id: config.ethereum_chain_id,
                        addresses,
                    },
                ),
            },
        }
    }

    /// The contracts `config` names, when the chain is on and all are set.
    pub fn wanted_addresses(config: &Config) -> (r: Option<ContractAddresses>)
        ensures
            match r {
                Some(a) => config.blockchain_enabled && a.configured() && a.game_contract
                    == config.werewolf_game_contract && a.verifier_contract
                    == config.werewolf_verifier_contract && a.rewards_contract
                    == config.werewolf_rewards_contract,
                None => !config.blockchain_enabled || !(ContractAddresses {
                    game_contract: config.werewolf_game_contract,
                    verifier_contract: config.werewolf_verifier_contract,
                    rewards_contract: config.werewolf_rewards_contract,
                }).configured(),
            },
    {
        let addresses = ContractAddresses {
            game_contract: config.werewolf_game_contract.clone(),
            verifier_contract: config.werewolf_verifier_contract.clone(),
            rewards_contract: config.werewolf_rewards_contract.clone(),
        };
        if !config.blockchain_enabled || !addresses.is_configured() {
            None
        } else {
            Some(addresses)
        }
    }

    pub fn is_enabled(&self) -> (b: bool)
        ensures
            b == !(self.backend is Disabled),
    {
        match &self.backend {
            Backend::Disabled => false,
            _ => true,
        }
    }

    /// Registers a game and its (EVM-address) players.
    pub fn create_game(&self, game_id: &[u8; 32], players: Vec<String>) -> (c: ChainCall)
        ensures
            match self.backend {
                Backend::Disabled => c matches ChainCall::Finished(Ok(None)),
                Backend::Simulated(_) => c is Finished && c->Finished_0 is Ok && c->Finished_0->Ok_0 is Some
                    && c->Finished_0->Ok_0->Some_0@ == simulated_hash_spec("create_game"@, game_id@),
                Backend::Real(b) => if first_invalid(players@) >= 0 {
                    c is Finished && c->Finished_0 is Err && c->Finished_0->Err_0@ == "invalid "@ + "players"@ + " address: "@
                        + players@[first_invalid(players@)]@
                } else {
                    c is Send && texts(c->Send_0@) == send_args_spec(
                        b,
                        b.addresses.game_contract@,
                        "createGame(bytes32,address[])"@,
                    ) + seq![prefixed_hex(game_id@), address_list(players@)]
                },
            },
    {
        match &self.backend {
            Backend::Disabled => ChainCall::Finished(Ok(None)),
            Backend::Simulated(_) => ChainCall::Finished(Ok(Some(simulated_tx_hash("create_game", game_id)))),
            Backend::Real(b) => {
                let players = match normalize_addresses("players", players) {
                    Ok(p) => p,
                    Err(e) => return ChainCall::Finished(Err(e)),
                };
                let mut args = base_send_args(b, b.addresses.game_contract.as_str(), "createGame(bytes32,address[])");
                let ghost base = args@;
                args.push(bytes32_to_hex(game_id));
                args.push(address_list_arg(&players));
                assert(texts(args@) =~= texts(base) + seq![prefixed_hex(game_id@), address_list(players@)]);
                ChainCall::Send(args)
            },
        }
    }

    /// Records a player's commitment.
    pub fn submit_commitment(&self, game_id: &[u8; 32], commitment: &[u8; 32]) -> (c: ChainCall)
        ensures
            match self.backend {
                Backend::Disabled => c matches ChainCall::Finished(Ok(None)),
                Backend::Simulated(_) => c is Finished && c->Finished_0 is Ok && c->Finished_0->Ok_0 is Some
                    && c->Finished_0->Ok_0->Some_0@ == simulated_hash_spec("submit_commitment"@, commitment@),
                Backend::Real(b) => c is Send && texts(c->Send_0@) == send_args_spec(
                    b,
                    b.addresses.game_contract@,
                    "submitCommitment(bytes32,bytes32)"@,
                ) + seq![prefixed_hex(game_id@), prefixed_hex(commitment@)],
            },
    {
        match &self.backend {
            Backend::Disabled => ChainCall::Finished(Ok(None)),
            Backend::Simulated(_) => ChainCall::Finished(Ok(Some(simulated_tx_hash("submit_commitment", commitment)))),
            Backend::Real(b) => {
                let mut args = base_send_args(b, b.addresses.game_contract.as_str(), "submitCommitment(bytes32,bytes32)");
                let ghost base = args@;
                args.push(bytes32_to_hex(game_id));
                args.push(bytes32_to_hex(commitment));
                assert(texts(args@) =~= texts(base) + seq![prefixed_hex(game_id@), prefixed_hex(commitment@)]);
                ChainCall::Send(args)
            },
        }
    }

    /// Records the digest of a game's state.
    pub fn update_game_state(&self, game_id: &[u8; 32], state_hash: &[u8; 32]) -> (c: ChainCall)
        ensures
            match self.backend {
                Backend::Disabled => c matches ChainCall::Finished(Ok(None)),
                Backend::Simulated(_) => c is Finished && c->Finished_0 is Ok && c->Finished_0->Ok_0 is Some
                    && c->Finished_0->Ok_0->Some_0@ == simulated_hash_spec("update_game_state"@, state_hash@),
                Backend::Real(b) => c is Send && texts(c->Send_0@) == send_args_spec(
                    b,
                    b.addresses.game_contract@,
                    "updateGameState(bytes32,bytes32)"@,
                ) + seq![prefixed_hex(game_id@), prefixed_hex(state_hash@)],
            },
    {
        match &self.backend {
            Backend::Disabled => ChainCall::Finished(Ok(None)),
            Backend::Simulated(_) => ChainCall::Finished(Ok(Some(simulated_tx_hash("update_game_state", state_hash)))),
            Backend::Real(b) => {
                let mut args = base_send_args(b, b.addresses.game_contract.as_str(), "updateGameState(bytes32,bytes32)");
                let ghost base = args@;
                args.push(bytes32_to_hex(game_id));
                args.push(bytes32_to_hex(state_hash));
                assert(texts(args@) =~= texts(base) + seq![prefixed_hex(game_id@), prefixed_hex(state_hash@)]);
                ChainCall::Send(args)
            },
        }
    }

    /// Records a game's result.
    pub fn finalize_game(&self, game_id: &[u8; 32], result: GameResult) -> (c: ChainCall)
        ensures
            match self.backend {
                Backend::Disabled => c matches ChainCall::Finished(Ok(None)),
                Backend::Simulated(_) => c is Finished && c->Finished_0 is Ok && c->Finished_0->Ok_0 is Some
                    && c->Finished_0->Ok_0->Some_0@ == simulated_hash_spec(
                    "finalize_game"@,
                    digest(encode_utf8(game_result_name(result))),
                ),
                Backend::Real(b) => c is Send && texts(c->Send_0@) == send_args_spec(
                    b,
                    b.addresses.game_contract@,
                    "finalizeGame(bytes32,uint8)"@,
                ) + seq![prefixed_hex(game_id@), decimal(game_result_code(result) as nat)],
            },
    {
        match &self.backend {
            Backend::Disabled => ChainCall::Finished(Ok(None)),
            Backend::Simulated(_) => {
                let name = game_result_text(&result);
                let payload = hash_bytes(name.as_str().as_bytes());
                ChainCall::Finished(Ok(Some(simulated_tx_hash("finalize_game", &payload))))
            },
            Backend::Real(b) => {
                let mut args = base_send_args(b, b.addresses.game_contract.as_str(), "finalizeGame(bytes32,uint8)");
                let ghost base = args@;
                args.push(bytes32_to_hex(game_id));
                args.push(usize_to_decimal(game_result_to_u8(&result) as usize));
                assert(texts(args@) =~= texts(base) + seq![prefixed_hex(game_id@), decimal(game_result_code(result) as nat)]);
                ChainCall::Send(args)
            },
        }
    }

    /// Pays the winners (EVM addresses).
    pub fn distribute_rewards(&self, game_id: &[u8; 32], winners: Vec<String>) -> (c: ChainCall)
        ensures
            match self.backend {
                Backend::Disabled => c matches ChainCall::Finished(Ok(None)),
                Backend::Simulated(_) => c is Finished && c->Finished_0 is Ok && c->Finished_0->Ok_0 is Some
                    && c->Finished_0->Ok_0->Some_0@ == simulated_hash_spec("distribute_rewards"@, game_id@),
                Backend::Real(b) => if first_invalid(winners@) >= 0 {
                    c is Finished && c->Finished_0 is Err && c->Finished_0->Err_0@ == "invalid "@ + "winners"@ + " address: "@
                        + winners@[first_invalid(winners@)]@
                } else {
                    c is Send && texts(c->Send_0@) == send_args_spec(
                        b,
                        b.addresses.rewards_contract@,
                        "distributeRewards(bytes32,address[])"@,
                    ) + seq![prefixed_hex(game_id@), address_list(winners@)]
                },
            },
    {
        match &self.backend {
            Backend::Disabled => ChainCall::Finished(Ok(None)),
            Backend::Simulated(_) => ChainCall::Finished(Ok(Some(simulated_tx_hash("distribute_rewards", game_id)))),
            Backend::Real(b) => {
                let winners = match normalize_addresses("winners", winners) {
                    Ok(p) => p,
                    Err(e) => return ChainCall::Finished(Err(e)),
                };
                let mut args = base_send_args(b, b.addresses.rewards_contract.as_str(), "distributeRewards(bytes32,address[])");
                let ghost base = args@;
                args.push(bytes32_to_hex(game_id));
                args.push(address_list_arg(&winners));
                assert(texts(args@) =~= texts(base) + seq![prefixed_hex(game_id@), address_list(winners@)]);
                ChainCall::Send(args)
            },
        }
    }

    /// Asks the verifier contract about a proof: no chain gives `Ok(None)`,
    /// the simulation says yes, and `cast` first calls, then sends.
    pub fn verify_proof(
        &self,
        proof_id: &[u8; 32],
        game_id: &[u8; 32],
        proof_type: ProofType,
        proof_data: &[u8],
        public_inputs: &[u8],
    ) -> (s: VerifyStep)
        ensures
            match self.backend {
                Backend::Disabled => s matches VerifyStep::Finished(Ok(None)),
                Backend::Simulated(_) => s matches VerifyStep::Finished(Ok(Some(true))),
                Backend::Real(b) => s is Cast && texts(s->call_args@) == seq![
                    "call"@,
                    b.addresses.verifier_contract@,
                    "verifyProof(bytes32,bytes32,uint8,bytes,bytes)(bool)"@,
                    prefixed_hex(proof_id@),
                    prefixed_hex(game_id@),
                    decimal(proof_type_code(proof_type) as nat),
                    prefixed_hex(proof_data@),
                    prefixed_hex(public_inputs@),
                    "--from"@,
                    b.from_address@,
                    "--rpc-url"@,
                    b.rpc_url@,
                ] + gas_args(proof_type) && texts(s->send_args@) == send_args_spec(
                    b,
                    b.addresses.verifier_contract@,
                    "verifyProof(bytes32,bytes32,uint8,bytes,bytes)"@,
                ) + seq![
                    prefixed_hex(proof_id@),
                    prefixed_hex(game_id@),
                    decimal(proof_type_code(proof_type) as nat),
                    prefixed_hex(proof_data@),
                    prefixed_hex(public_inputs@),
                ] + gas_args(proof_type),
            },
    {
        match &self.backend {
            Backend::Disabled => VerifyStep::Finished(Ok(None)),
            Backend::Simulated(_) => VerifyStep::Finished(Ok(Some(true))),
            Backend::Real(b) => {
                let code = usize_to_decimal(proof_type.as_u8() as usize);
                let mut call_args: Vec<String> = Vec::new();
                call_args.push("call".to_owned());
                call_args.push(b.addresses.verifier_contract.clone());
                call_args.push("verifyProof(bytes32,bytes32,uint8,bytes,bytes)(bool)".to_owned());
                call_args.push(bytes32_to_hex(proof_id));
                call_args.push(bytes32_to_hex(game_id));
                call_args.push(code.clone());
                call_args.push(bytes_to_hex(proof_data));
                call_args.push(bytes_to_hex(public_inputs));
                call_args.push("--from".to_owned());
                call_args.push(b.from_address.clone());
                call_args.push("--rpc-url".to_owned());
                call_args.push(b.rpc_url.clone());
                let ghost call_base = call_args@;
                push_gas_args(&mut call_args, proof_type);
                let mut send_args = base_send_args(
                    b,
                    b.addresses.verifier_contract.as_str(),
                    "verifyProof(bytes32,bytes32,uint8,bytes,bytes)",
                );
                let ghost send_base = send_args@;
                send_args.push(bytes32_to_hex(proof_id));
                send_args.push(bytes32_to_hex(game_id));
                send_args.push(code);
                send_args.push(bytes_to_hex(proof_data));
                send_args.push(bytes_to_hex(public_inputs));
                let ghost send_mid = send_args@;
                push_gas_args(&mut send_args, proof_type);
                proof {
                    assert(texts(call_base) =~= seq![
                        "call"@,
                        b.addresses.verifier_contract@,
                        "verifyProof(bytes32,bytes32,uint8,bytes,bytes)(bool)"@,
                        prefixed_hex(proof_id@),
                        prefixed_hex(game_id@),
                        decimal(proof_type_code(proof_type) as nat),
                        prefixed_hex(proof_data@),
                        prefixed_hex(public_inputs@),
                        "--from"@,
                        b.from_address@,
                        "--rpc-url"@,
                        b.rpc_url@,
                    ]);
                    assert(texts(send_mid) =~= texts(send_base) + seq![
                        prefixed_hex(proof_id@),
                        prefixed_hex(game_id@),
                        decimal(proof_type_code(proof_type) as nat),
                        prefixed_hex(proof_data@),
                        prefixed_hex(public_inputs@),
                    ]);
                }
                VerifyStep::Cast { call_args, send_args }
            },
        }
    }
}

/// `--gas-limit` and the limit, when the kind needs one.
pub open spec fn gas_args(t: ProofType) -> Seq<Seq<char>> {
    match verify_gas_limit(t) {
        Some(g) => seq!["--gas-limit"@, decimal(g as nat)],
        None => Seq::empty(),
    }
}

fn push_gas_args(args: &mut Vec<String>, t: ProofType)
    ensures
        texts(final(args)@) == texts(old(args)@) + gas_args(t),
{
    if t == ProofType::RoleAssignment {
        let ghost before = args@;
        args.push("--gas-limit".to_owned());
        args.push(usize_to_decimal(1_500_000));
        assert(texts(args@) =~= texts(before) + gas_args(t));
    } else {
        assert(texts(args@) =~= texts(old(args)@) + gas_args(t));
    }
}

/// What the static call printed decides: false ends with `Some(false)`; a
/// failure or an unreadable answer is an error; true goes on to the send.
pub fn verify_after_call(call_output: Result<String, String>) -> (r: Option<Result<Option<bool>, String>>)
    ensures
        match call_output {
            Err(e) => r == Some(Err::<Option<bool>, String>(e)),
            Ok(out) => match cast_bool_spec(out@) {
                None => r is Some && r->Some_0 is Err && r->Some_0->Err_0@
                    == "unable to parse cast call bool output: "@ + out@,
                Some(false) => r == Some(Ok::<Option<bool>, String>(Some(false))),
                Some(true) => r is None,
            },
        },
{
    match call_output {
        Err(e) => Some(Err(e)),
        Ok(out) => match parse_cast_bool(out.as_str()) {
            Err(e) => Some(Err(e)),
            Ok(false) => Some(Ok(Some(false))),
            Ok(true) => None,
        },
    }
}

/// What a send printed decides: its transaction hash, or the error.
pub fn finish_send(output: Result<String, String>) -> (r: Result<Option<String>, String>)
    ensures
        match output {
            Err(e) => r == Err::<Option<String>, String>(e),
            Ok(out) => match tx_hash_spec(out@) {
                Ok(h) => r is Ok && r->Ok_0 is Some && r->Ok_0->Some_0@ == h,
                Err(e) => r is Err && r->Err_0@ == e,
            },
        },
{
    match output {
        Err(e) => Err(e),
        Ok(out) => match parse_tx_hash(out.as_str()) {
            Ok(h) => Ok(Some(h)),
            Err(e) => Err(e),
        },
    }
}

} // verus!
