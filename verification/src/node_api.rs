//! Bodies an MPC node's HTTP API sends and receives, and its command line.

use vstd::prelude::*;
use vstd::string::StringExecFns;
use crate::text::{decimal, usize_to_decimal};

verus! {

#[derive(Debug)]
pub struct RegisterPublicKeyRequest {
    pub node_id: u32,
    pub public_key: String,
}

#[derive(Debug)]
pub struct RegisterPublicKeyResponse {
    pub success: bool,
    pub node_id: u32,
    pub public_key: String,
}

#[derive(Debug)]
pub struct ErrorResponse {
    pub success: bool,
    pub error: String,
}

/// Answer to a proof request.
#[derive(Debug)]
pub struct ProofResponse {
    pub success: bool,
    pub message: String,
    pub proof_id: String,
}

/// Inputs of the built-in sample circuit.
#[derive(Debug, Clone, Copy)]
pub enum BuiltinCircuitInputs {
    MySimpleCircuit { a: u32, b: u32 },
}

#[derive(Debug, Clone, Copy, PartialEq, Eq, Structural)]
pub enum CircuitType {
    MySimpleCircuit,
}

/// A node's id and the file of the MPC peers' addresses.
#[derive(Debug)]
pub struct Opt {
    pub id: usize,
    pub input: String,
}

/// The node's commands.
#[derive(Debug)]
pub enum Command {
    /// Make a key pair for node `id`.
    KeyGen { id: u32 },
    /// Run node `id` with the peers listed in `input`.
    Start { id: u32, input: String },
}

/// Builds the circuits a request asks for.
#[derive(Debug)]
pub struct CircuitFactory;

impl RegisterPublicKeyRequest {
    pub fn new(node_id: u32, public_key: String) -> (r: Self)
        ensures
            r.node_id == node_id,
            r.public_key == public_key,
    {
        RegisterPublicKeyRequest { node_id, public_key }
    }
}


/// Why registering with the server failed.
#[derive(Debug)]
pub enum ApiError {
    NetworkError(String),
    InvalidNodeId(u32),
    ServerError(String),
}

pub open spec fn api_error_text(e: ApiError) -> Seq<char> {
    match e {
        ApiError::NetworkError(m) => "Network error: "@ + m@,
        ApiError::InvalidNodeId(id) => "Invalid node ID: "@ + decimal(id as nat),
        ApiError::ServerError(m) => "Server error: "@ + m@,
    }
}

impl ApiError {
    pub fn to_string(&self) -> (s: String)
        ensures
            s@ == api_error_text(*self),
    {
        match self {
            ApiError::NetworkError(m) => "Network error: ".to_owned().concat(m.as_str()),
            ApiError::InvalidNodeId(id) => "Invalid node ID: ".to_owned().concat(
                usize_to_decimal(*id as usize).as_str(),
            ),
            ApiError::ServerError(m) => "Server error: ".to_owned().concat(m.as_str()),
        }
    }
}

/// The request registering a node's key: only nodes 0, 1 and 2 exist.
pub fn key_registration(node_id: u32, public_key: String) -> (r: Result<RegisterPublicKeyRequest, ApiError>)
    ensures
        node_id >= 3 ==> (r matches Err(ApiError::InvalidNodeId(n)) && n == node_id),
        node_id < 3 ==> r is Ok && r->Ok_0.node_id == node_id && r->Ok_0.public_key == public_key,
{
    if node_id >= 3 {
        return Err(ApiError::InvalidNodeId(node_id));
    }
    Ok(RegisterPublicKeyRequest::new(node_id, public_key))
}

/// The text of a caught panic: its message when it is text.
pub fn panic_payload_to_string(message: Option<String>) -> (s: String)
    ensures
        message matches Some(m) ==> s == m,
        message is None ==> s@ == "unknown panic payload"@,
{
    match message {
        Some(m) => m,
        None => "unknown panic payload".to_owned(),
    }
}

} // verus!
