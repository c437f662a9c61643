//! Bodies the server's HTTP API sends and receives.

use vstd::prelude::*;

verus! {

/// Answer to a node's key registration.
#[derive(Debug)]
pub struct RegisterKeyResponse {
    pub success: bool,
    pub node_id: u32,
    pub public_key: String,
}

#[derive(Debug)]
pub struct ErrorResponse {
    pub success: bool,
    pub error: String,
}

/// A vote sent by a prover: its number and its encrypted proof input.
#[derive(Debug)]
pub struct VoteAction {
    pub prover_num: String,
    pub encrypted_proof_input: String,
}

/// Query of a WebSocket connection: the last event the client saw, and who
/// it is.
#[derive(Debug)]
pub struct WebSocketConnectQuery {
    pub last_event_id: Option<u64>,
    pub player_id: Option<String>,
}

impl RegisterKeyResponse {
    /// The answer to a successful registration of `public_key` for `node_id`.
    pub fn registered(node_id: u32, public_key: String) -> (r: Self)
        ensures
            r.success,
            r.node_id == node_id,
            r.public_key == public_key,
    {
        RegisterKeyResponse { success: true, node_id, public_key }
    }
}

impl ErrorResponse {
    pub fn failure(error: String) -> (r: Self)
        ensures
            !r.success,
            r.error == error,
    {
        ErrorResponse { success: false, error }
    }
}

} // verus!
