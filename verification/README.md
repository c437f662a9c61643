# zk_werewolf

The logic of a Werewolf game server whose secret parts (role assignment,
divination, anonymous voting, winner check) are computed by three MPC nodes,
with proofs checked on chain — written in Verus and verified.

* `src/` — the verified library: rooms and games (`room`, `lifecycle`,
  `game`, `voting`, `commands`, `cleanup`), user registration and login
  (`users`, `auth`), proof requests and their batches
  (`batch`, `batching`, `proof_requests`, `proof_inputs`, `proof_jobs`,
  `zk_proof`, `outcome`), room events for WebSocket clients (`events`,
  `chat`), the on-chain side (`chain`, `state_hash`, `game_hash`), the MPC
  node's side (`node`, `crypto`, `proof_manager`, `profile`, `field`), the
  mental-poker cards and shuffle argument (`cards`, `shuffle`), and small
  verified helpers (`text`, `sort`, `support`, `codec`).
* `tests/` — tests of the library on concrete values.
* `app/` — the server program around the library: HTTP routes, WebSocket
  plumbing, the user routes (Supabase), the proof-job worker, `cast` invocations, configuration from the
  environment, and an MPC node's HTTP side (`app/main.rs node <id>`).
