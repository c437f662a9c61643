//! Game logic of a privacy-preserving Werewolf server and its MPC nodes:
//! user registration and login,
//! rooms, game phases, voting, proof-request batching and proof jobs, room
//! events, on-chain bookkeeping, the node-side handling of proof outputs, and
//! the cards and shuffle argument of the mental-poker role assignment.

pub mod support;
pub mod state_hash;
pub mod role;
pub mod player;
pub mod chat;
pub mod batch;
pub mod game;
pub mod voting;
pub mod batching;
pub mod proof_requests;
pub mod text;
pub mod sort;
pub mod field;
pub mod codec;
pub mod proof_output;
pub mod chain;
pub mod outcome;
pub mod proof_inputs;
pub mod room;
pub mod lifecycle;
pub mod cleanup;
pub mod crypto;
pub mod profile;
pub mod node;
pub mod services;
pub mod server_api;
pub mod node_api;
pub mod auth;
pub mod cards;
pub mod shuffle;
pub mod commands;
pub mod game_hash;
pub mod proof_jobs;
pub mod events;
pub mod zk_proof;
pub mod proof_manager;
pub mod role_assignment;
pub mod users;
