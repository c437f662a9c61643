//! Proof requests sent by clients, and the batches that collect them until
//! every expected prover has sent its share.

use vstd::prelude::*;
use crate::support::{new_uuid_string, now_millis};

verus! {

/// What a prover sends: its encrypted input for one MPC computation.
/// `public_key` is a Base64 Curve25519 key, when the output is to be
/// encrypted for this prover.
#[derive(Debug)]
pub struct ProverInfo {
    pub user_id: String,
    pub prover_count: usize,
    pub encrypted_data: String,
    pub is_dummy: bool,
    pub public_key: Option<String>,
}

impl Clone for ProverInfo {
    fn clone(&self) -> (r: Self)
        ensures
            r == *self,
    {
        let public_key = match &self.public_key {
            Some(k) => Some(k.clone()),
            None => None,
        };
        ProverInfo {
            user_id: self.user_id.clone(),
            prover_count: self.prover_count,
            encrypted_data: self.encrypted_data.clone(),
            is_dummy: self.is_dummy,
            public_key,
        }
    }
}

#[derive(Debug)]
pub enum ClientRequestType {
    Divination(ProverInfo),
    AnonymousVoting(ProverInfo),
    WinningJudge(ProverInfo),
    RoleAssignment(ProverInfo),
    KeyPublicize(ProverInfo),
}

impl Clone for ClientRequestType {
    fn clone(&self) -> (r: Self)
        ensures
            r == *self,
    {
        match self {
            ClientRequestType::Divination(i) => ClientRequestType::Divination(i.clone()),
            ClientRequestType::AnonymousVoting(i) => ClientRequestType::AnonymousVoting(i.clone()),
            ClientRequestType::WinningJudge(i) => ClientRequestType::WinningJudge(i.clone()),
            ClientRequestType::RoleAssignment(i) => ClientRequestType::RoleAssignment(i.clone()),
            ClientRequestType::KeyPublicize(i) => ClientRequestType::KeyPublicize(i.clone()),
        }
    }
}

#[derive(Debug, Clone, Copy, PartialEq, Eq, Structural, Hash)]
pub enum ProofTypeKey {
    RoleAssignment,
    Divination,
    AnonymousVoting,
    WinningJudge,
    KeyPublicize,
}

/// The prover information inside a request, whatever its kind.
pub open spec fn info_of(r: ClientRequestType) -> ProverInfo {
    match r {
        ClientRequestType::Divination(i) => i,
        ClientRequestType::AnonymousVoting(i) => i,
        ClientRequestType::WinningJudge(i) => i,
        ClientRequestType::RoleAssignment(i) => i,
        ClientRequestType::KeyPublicize(i) => i,
    }
}

pub open spec fn proof_type_of(r: ClientRequestType) -> ProofTypeKey {
    match r {
        ClientRequestType::Divination(_) => ProofTypeKey::Divination,
        ClientRequestType::AnonymousVoting(_) => ProofTypeKey::AnonymousVoting,
        ClientRequestType::WinningJudge(_) => ProofTypeKey::WinningJudge,
        ClientRequestType::RoleAssignment(_) => ProofTypeKey::RoleAssignment,
        ClientRequestType::KeyPublicize(_) => ProofTypeKey::KeyPublicize,
    }
}

/// Only a divination request can be a dummy (sent to hide who the seer is).
pub open spec fn is_dummy_spec(r: ClientRequestType) -> bool {
    match r {
        ClientRequestType::Divination(i) => i.is_dummy,
        _ => false,
    }
}

impl ClientRequestType {
    pub fn info(&self) -> (i: &ProverInfo)
        ensures
            *i == info_of(*self),
    {
        match self {
            ClientRequestType::Divination(i) => i,
            ClientRequestType::AnonymousVoting(i) => i,
            ClientRequestType::WinningJudge(i) => i,
            ClientRequestType::RoleAssignment(i) => i,
            ClientRequestType::KeyPublicize(i) => i,
        }
    }

    pub fn get_prover_count(&self) -> (n: usize)
        ensures
            n == info_of(*self).prover_count,
    {
        self.info().prover_count
    }

    pub fn get_user_id(&self) -> (id: &str)
        ensures
            id@ == info_of(*self).user_id@,
    {
        self.info().user_id.as_str()
    }

    pub fn get_public_key(&self) -> (k: Option<&str>)
        ensures
            k.is_some() == info_of(*self).public_key.is_some(),
            k.is_some() ==> k.unwrap()@ == info_of(*self).public_key.unwrap()@,
    {
        match &self.info().public_key {
            Some(k) => Some(k.as_str()),
            None => None,
        }
    }

    pub fn is_dummy(&self) -> (b: bool)
        ensures
            b == is_dummy_spec(*self),
    {
        match self {
            ClientRequestType::Divination(info) => info.is_dummy,
            _ => false,
        }
    }

    pub fn get_proof_type(&self) -> (k: ProofTypeKey)
        ensures
            k == proof_type_of(*self),
    {
        match self {
            ClientRequestType::Divination(_) => ProofTypeKey::Divination,
            ClientRequestType::AnonymousVoting(_) => ProofTypeKey::AnonymousVoting,
            ClientRequestType::WinningJudge(_) => ProofTypeKey::WinningJudge,
            ClientRequestType::RoleAssignment(_) => ProofTypeKey::RoleAssignment,
            ClientRequestType::KeyPublicize(_) => ProofTypeKey::KeyPublicize,
        }
    }
}

#[derive(Debug, Clone, Copy, PartialEq, Eq, Structural, Hash)]
pub struct CircuitProfileKey {
    pub player_count: usize,
    pub werewolf_count: usize,
}

#[derive(Debug, Clone, Copy, PartialEq, Eq, Structural, Hash)]
pub enum BatchStatus {
    Collecting,
    Processing,
    Completed,
    Failed,
}

/// Requests collected for one MPC computation. `created_at` is in
/// milliseconds since the Unix epoch.
#[derive(Debug)]
pub struct BatchRequest {
    pub batch_id: String,
    pub requests: Vec<ClientRequestType>,
    pub expected_prover_count: usize,
    pub status: BatchStatus,
    pub created_at: i64,
}

impl Clone for BatchRequest {
    fn clone(&self) -> (r: Self)
        ensures
            r.batch_id == self.batch_id,
            r.requests@ == self.requests@,
            r.expected_prover_count == self.expected_prover_count,
            r.status == self.status,
            r.created_at == self.created_at,
    {
        let requests = self.requests.clone();
        assert(requests@ =~= self.requests@);
        BatchRequest {
            batch_id: self.batch_id.clone(),
            requests,
            expected_prover_count: self.expected_prover_count,
            status: self.status,
            created_at: self.created_at,
        }
    }
}

impl BatchRequest {
    /// An empty batch with a fresh id, collecting requests.
    pub fn new(expected_prover_count: usize) -> (b: Self)
        ensures
            b.requests@.len() == 0,
            b.expected_prover_count == expected_prover_count,
            b.status == BatchStatus::Collecting,
    {
        BatchRequest {
            batch_id: new_uuid_string(),
            requests: Vec::new(),
            expected_prover_count,
            status: BatchStatus::Collecting,
            created_at: now_millis(),
        }
    }
}

pub struct BatchEnqueueResult {
    pub batch_id: String,
    pub should_process: bool,
}

pub enum BatchEnqueueError {
    Conflict(String),
}

} // verus!
