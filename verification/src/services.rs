//! Small services of the server: the MPC nodes' public keys, the debug
//! settings, the game rule record and a node's job state.

use vstd::prelude::*;
use crate::text::parse_u64_spec;

verus! {

/// A node's public key under its id.
#[derive(Debug)]
pub struct NodeKey {
    pub node_id: u32,
    pub public_key: String,
}

/// The public keys of the three MPC nodes (ids 0, 1, 2).
#[derive(Debug)]
pub struct NodeKeyService {
    pub keys: [Option<String>; 3],
}

/// The keys as a map from node id.
pub open spec fn key_map(keys: [Option<String>; 3]) -> Map<u32, Seq<char>> {
    Map::new(
        |id: u32| id < 3 && keys@[id as int] is Some,
        |id: u32| keys@[id as int]->Some_0@,
    )
}

impl NodeKeyService {
    pub open spec fn view_keys(&self) -> Map<u32, Seq<char>> {
        key_map(self.keys)
    }

    pub fn new() -> (s: Self)
        ensures
            s.view_keys() == Map::<u32, Seq<char>>::empty(),
    {
        let s = NodeKeyService { keys: [None, None, None] };
        assert(s.view_keys() =~= Map::<u32, Seq<char>>::empty());
        s
    }

    /// Stores a node's key; only nodes 0, 1 and 2 exist.
    pub fn store_key(&mut self, node_id: u32, public_key: String) -> (r: Result<(), String>)
        ensures
            node_id >= 3 ==> r is Err && r->Err_0@ == "Invalid node ID"@ && final(self).view_keys()
                == old(self).view_keys(),
            node_id < 3 ==> r is Ok && final(self).view_keys() == old(self).view_keys().insert(
                node_id,
                public_key@,
            ),
    {
        if node_id >= 3 {
            return Err("Invalid node ID".to_owned());
        }
        let ghost pk = public_key@;
        self.keys[node_id as usize] = Some(public_key);
        assert(self.view_keys() =~= old(self).view_keys().insert(node_id, pk));
        Ok(())
    }

    /// The key of a node, if stored.
    pub fn get_key(&self, node_id: u32) -> (r: Option<String>)
        ensures
            r is Some <==> self.view_keys().contains_key(node_id),
            r is Some ==> r->Some_0@ == self.view_keys()[node_id],
    {
        if node_id >= 3 {
            return None;
        }
        match &self.keys[node_id as usize] {
            Some(k) => Some(k.clone()),
            None => None,
        }
    }

    /// Every stored key, by node id.
    pub fn get_all_keys(&self) -> (r: Vec<NodeKey>)
        ensures
            forall|i: int| 0 <= i < r@.len() ==> self.view_keys().contains_key((#[trigger] r@[i]).node_id)
                && self.view_keys()[r@[i].node_id] == r@[i].public_key@,
            forall|id: u32| self.view_keys().contains_key(id) ==> exists|i: int|
                0 <= i < r@.len() && (#[trigger] r@[i]).node_id == id,
            forall|a: int, b: int| 0 <= a < b < r@.len() ==> (#[trigger] r@[a]).node_id < (#[trigger] r@[b]).node_id,
    {
        let mut out: Vec<NodeKey> = Vec::new();
        let mut id: u32 = 0;
        while id < 3
            invariant
                id <= 3,
                forall|i: int| 0 <= i < out@.len() ==> self.view_keys().contains_key((#[trigger] out@[i]).node_id)
                    && self.view_keys()[out@[i].node_id] == out@[i].public_key@ && out@[i].node_id < id,
                forall|k: u32| k < id && self.view_keys().contains_key(k) ==> exists|i: int|
                    0 <= i < out@.len() && (#[trigger] out@[i]).node_id == k,
                forall|a: int, b: int| 0 <= a < b < out@.len() ==> (#[trigger] out@[a]).node_id < (#[trigger] out@[b]).node_id,
            decreases 3 - id,
        {
            match &self.keys[id as usize] {
                Some(k) => {
                    let ghost before = out@;
                    out.push(NodeKey { node_id: id, public_key: k.clone() });
                    assert forall|kk: u32| kk < id + 1 && self.view_keys().contains_key(kk) implies exists|i: int|
                        0 <= i < out@.len() && (#[trigger] out@[i]).node_id == kk by {
                        if kk == id {
                            assert(out@[out@.len() - 1].node_id == kk);
                        } else {
                            let i = choose|i: int| 0 <= i < before.len() && (#[trigger] before[i]).node_id == kk;
                            assert(out@[i] == before[i]);
                        }
                    }
                },
                None => {},
            }
            id += 1;
        }
        out
    }
}

/// Switches for development, each read from an environment variable.
#[derive(Debug, Clone, Copy)]
pub struct DebugConfig {
    pub enabled: bool,
    pub verbose_logging: bool,
    pub show_player_roles: bool,
    pub auto_advance_phases: bool,
    pub phase_duration_seconds: u64,
    pub random_role: bool,
    pub create_crypto_parameters: bool,
    pub create_proof: bool,
    pub delegate_proof: bool,
}

/// A switch's variable, if set: on exactly when it reads `true`.
pub open spec fn flag(value: Option<String>, unset: bool) -> bool {
    match value {
        Some(v) => v@ == "true"@,
        None => unset,
    }
}

fn read_flag(value: &Option<String>, unset: bool) -> (b: bool)
    ensures
        b == flag(*value, unset),
{
    proof {
        reveal_strlit("true");
    }
    match value {
        Some(v) => crate::support::str_eq(v.as_str(), "true"),
        None => unset,
    }
}

/// The values of the debug variables, as the environment has them.
#[derive(Debug)]
pub struct DebugEnv {
    pub enabled: Option<String>,
    pub verbose_logging: Option<String>,
    pub show_player_roles: Option<String>,
    pub auto_advance_phases: Option<String>,
    pub phase_duration_seconds: Option<String>,
    pub random_role: Option<String>,
    pub create_crypto_parameters: Option<String>,
    pub create_proof: Option<String>,
    pub delegate_proof: Option<String>,
}

impl DebugConfig {
    /// Defaults: debugging on in debug builds (or when asked), phases of 30
    /// seconds, everything else off.
    pub fn default_for(debug_mode: bool) -> (c: Self)
        ensures
            c == (DebugConfig {
                enabled: debug_mode,
                verbose_logging: debug_mode,
                show_player_roles: debug_mode,
                auto_advance_phases: false,
                phase_duration_seconds: 30,
                random_role: false,
                create_crypto_parameters: false,
                create_proof: false,
                delegate_proof: false,
            }),
    {
        DebugConfig {
            enabled: debug_mode,
            verbose_logging: debug_mode,
            show_player_roles: debug_mode,
            auto_advance_phases: false,
            phase_duration_seconds: 30,
            random_role: false,
            create_crypto_parameters: false,
            create_proof: false,
            delegate_proof: false,
        }
    }

    /// The settings the variables give: `enabled` defaults to the build
    /// kind, logging and role display follow `enabled`, the phase length
    /// defaults to 30 seconds, the rest to off.
    pub fn from_env(env: &DebugEnv, debug_build: bool) -> (c: Self)
        ensures
            c.enabled == flag(env.enabled, debug_build),
            c.verbose_logging == flag(env.verbose_logging, c.enabled),
            c.show_player_roles == flag(env.show_player_roles, c.enabled),
            c.auto_advance_phases == flag(env.auto_advance_phases, false),
            c.phase_duration_seconds == (match env.phase_duration_seconds {
                Some(v) => match parse_u64_spec(vstd::utf8::encode_utf8(v@)) {
                    Some(n) => n,
                    None => 30,
                },
                None => 30,
            }),
            c.random_role == flag(env.random_role, false),
            c.create_crypto_parameters == flag(env.create_crypto_parameters, false),
            c.create_proof == flag(env.create_proof, false),
            c.delegate_proof == flag(env.delegate_proof, false),
    {
        let enabled = read_flag(&env.enabled, debug_build);
        let phase_duration_seconds: u64 = match &env.phase_duration_seconds {
            Some(v) => match crate::text::parse_u64(v.as_str()) {
                Some(n) => n,
                None => 30,
            },
            None => 30,
        };
        DebugConfig {
            enabled,
            verbose_logging: read_flag(&env.verbose_logging, enabled),
            show_player_roles: read_flag(&env.show_player_roles, enabled),
            auto_advance_phases: read_flag(&env.auto_advance_phases, false),
            phase_duration_seconds,
            random_role: read_flag(&env.random_role, false),
            create_crypto_parameters: read_flag(&env.create_crypto_parameters, false),
            create_proof: read_flag(&env.create_proof, false),
            delegate_proof: read_flag(&env.delegate_proof, false),
        }
    }
}

/// A key stored for a node is the one read back for it, and storing it
/// leaves the other nodes' keys as they were.
pub proof fn lemma_key_read_after_write(before: Map<u32, Seq<char>>, node_id: u32, key: Seq<char>, other: u32)
    ensures
        before.insert(node_id, key).contains_key(node_id),
        before.insert(node_id, key)[node_id] == key,
        other != node_id ==> (before.insert(node_id, key).contains_key(other) <==> before.contains_key(other)),
        other != node_id && before.contains_key(other) ==> before.insert(node_id, key)[other] == before[other],
{
}

/// The rules of a game (phase length in seconds).
#[derive(Debug)]
pub struct Rule {
    pub max_players: usize,
    pub phase_duration: u64,
    pub vote_threshold: usize,
}

/// How one MPC node's part of a proof job stands.
#[derive(Debug)]
pub struct NodeJobStatus {
    /// pending, running, completed, failed or timeout.
    pub state: String,
    pub attempt_count: u32,
    pub last_error: Option<String>,
}

impl NodeJobStatus {
    /// A node's part that has not started.
    pub fn pending() -> (s: Self)
        ensures
            s.state@ == "pending"@,
            s.attempt_count == 0,
            s.last_error is None,
    {
        NodeJobStatus { state: "pending".to_owned(), attempt_count: 0, last_error: None }
    }
}

} // verus!
