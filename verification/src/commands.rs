//! Game commands the server's routes carry out: commitments, what a player
//! may read of the chat, and the debug resets.

use vstd::prelude::*;
use vstd::string::StringExecFns;
use crate::batch::{BatchRequest, BatchStatus};
use crate::chat::{ChatLog, ChatMessage, ChatMessageType, is_system_message};
use crate::game::{ComputationResults, CryptoParameters, Game, GamePhase, GameResult};
use crate::lifecycle::{GameTable, find_game, game_index, lemma_game_index};
use crate::player::{Player, first_index_of, find_player_index, has_player, lemma_first_index_of};
use crate::room::{Room, RoomStatus, RoomTable, find_room, lemma_room_index, room_index};
use crate::text::{decimal, usize_to_decimal};

verus! {

/// How far the commitments have come.
#[derive(Debug, Clone, Copy)]
pub struct CommitmentTally {
    pub commitments_count: usize,
    pub total_players: usize,
    pub all_ready: bool,
}

/// The commitments after player `k` sent `c`: stored at `k`, the gap
/// before it (if any) filled with copies of `c`.
pub open spec fn commitments_after(old: Seq<Vec<u8>>, k: int, c: Vec<u8>) -> Seq<Seq<u8>> {
    if k < old.len() {
        old.map_values(|v: Vec<u8>| v@).update(k, c@)
    } else {
        old.map_values(|v: Vec<u8>| v@) + Seq::new((k - old.len() + 1) as nat, |i: int| c@)
    }
}

impl Game {
    /// Stores a player's commitment (`commitment`: its canonical bytes, or
    /// why it could not be read) at the player's position.
    pub fn store_commitment(&mut self, player_id: &str, commitment: Result<Vec<u8>, String>) -> (r: Result<CommitmentTally, String>)
        ensures
            !has_player(old(self).players@, player_id@) ==> r is Err && r->Err_0@
                == "Player not found in this game"@,
            has_player(old(self).players@, player_id@) && old(self).crypto_parameters is None ==> r is Err
                && r->Err_0@ == "Crypto parameters not initialized yet"@,
            has_player(old(self).players@, player_id@) && old(self).crypto_parameters is Some
                && commitment is Err ==> r is Err && r->Err_0@ == "Failed to deserialize commitment: "@
                + commitment->Err_0@,
            r is Err ==> *final(self) == *old(self),
            r is Ok <==> has_player(old(self).players@, player_id@) && old(self).crypto_parameters is Some
                && commitment is Ok,
            r is Ok ==> {
                let k = first_index_of(old(self).players@, player_id@);
                let old_c = old(self).crypto_parameters->Some_0;
                let new_c = final(self).crypto_parameters->Some_0;
                &&& final(self).crypto_parameters is Some
                &&& *final(self) == (Game { crypto_parameters: final(self).crypto_parameters, ..*old(self) })
                &&& new_c == (CryptoParameters { player_commitment: new_c.player_commitment, ..old_c })
                &&& new_c.player_commitment@.map_values(|v: Vec<u8>| v@) == commitments_after(
                    old_c.player_commitment@,
                    k,
                    commitment->Ok_0,
                )
                &&& r->Ok_0.commitments_count == new_c.player_commitment@.len()
                &&& r->Ok_0.total_players == old(self).players@.len()
                &&& r->Ok_0.all_ready == (r->Ok_0.commitments_count >= r->Ok_0.total_players)
            },
    {
        proof {
            lemma_first_index_of(self.players@, player_id@);
        }
        let k = match find_player_index(&self.players, player_id) {
            Some(k) => k,
            None => return Err("Player not found in this game".to_owned()),
        };
        if self.crypto_parameters.is_none() {
            return Err("Crypto parameters not initialized yet".to_owned());
        }
        let c = match commitment {
            Ok(c) => c,
            Err(e) => return Err("Failed to deserialize commitment: ".to_owned().concat(e.as_str())),
        };
        let total_players = self.players.len();
        let ghost old_c = self.crypto_parameters->Some_0;
        let count;
        match &mut self.crypto_parameters {
            Some(params) => {
                let ghost p0 = *params;
                let ghost before = params.player_commitment@;
                if params.player_commitment.len() > k {
                    params.player_commitment.set(k, c);
                    assert(params.player_commitment@.map_values(|v: Vec<u8>| v@) =~= commitments_after(
                        before,
                        k as int,
                        c,
                    ));
                } else {
                    let ghost cv = c@;
                    while params.player_commitment.len() < k
                        invariant
                            params.pedersen_param == p0.pedersen_param,
                            params.fortune_teller_public_key == p0.fortune_teller_public_key,
                            params.elgamal_param == p0.elgamal_param,
                            k >= before.len(),
                            before.len() <= params.player_commitment@.len() <= k,
                            c@ == cv,
                            params.player_commitment@.take(before.len() as int) == before,
                            forall|j: int| before.len() <= j < params.player_commitment@.len() ==> (#[trigger] params.player_commitment@[j])@ == cv,
                        decreases k - params.player_commitment@.len(),
                    {
                        let ghost prev = params.player_commitment@;
                        params.player_commitment.push(c.clone());
                        assert(params.player_commitment@.take(before.len() as int) =~= prev.take(before.len() as int));
                    }
                    let ghost prev = params.player_commitment@;
                    params.player_commitment.push(c);
                    assert(params.player_commitment@.map_values(|v: Vec<u8>| v@) =~= commitments_after(
                        before,
                        k as int,
                        c,
                    )) by {
                        assert forall|j: int| 0 <= j < before.len() implies params.player_commitment@[j] == before[j] by {
                            assert(prev.take(before.len() as int)[j] == prev[j]);
                        }
                    }
                }
                count = params.player_commitment.len();
            },
            None => {
                count = 0;
            },
        }
        Ok(CommitmentTally { commitments_count: count, total_players, all_ready: count >= total_players })
    }

    /// Replaces the current batch with a fresh one and says so.
    pub fn reset_batch_request(&mut self)
        ensures
            final(self).batch_request.requests@.len() == 0,
            final(self).batch_request.status == BatchStatus::Collecting,
            final(self).batch_request.expected_prover_count == 0,
            *final(self) == (Game {
                batch_request: final(self).batch_request,
                chat_log: final(self).chat_log,
                ..*old(self)
            }),
            final(self).chat_log.room_id == old(self).chat_log.room_id,
            final(self).chat_log.messages@.drop_last() == old(self).chat_log.messages@,
            final(self).chat_log.messages@.len() == old(self).chat_log.messages@.len() + 1,
            is_system_message(final(self).chat_log.messages@.last(), "Batch request has been reset"@),
    {
        self.batch_request = BatchRequest::new(0);
        self.chat_log.add_system_message("Batch request has been reset".to_owned());
    }
}

/// Whether `player_id` may read `m`: private messages only their own.
pub open spec fn visible_to(m: ChatMessage, player_id: Seq<char>) -> bool {
    m.message_type == ChatMessageType::Private ==> m.player_id@ == player_id
}

/// The messages `player_id` may read, in order.
pub open spec fn visible_messages(ms: Seq<ChatMessage>, player_id: Seq<char>) -> Seq<ChatMessage>
    decreases ms.len(),
{
    if ms.len() == 0 {
        Seq::empty()
    } else {
        let rest = visible_messages(ms.drop_last(), player_id);
        if visible_to(ms.last(), player_id) {
            rest.push(ms.last())
        } else {
            rest
        }
    }
}

pub fn filter_visible(log: &ChatLog, player_id: &str) -> (r: Vec<ChatMessage>)
    ensures
        r@ == visible_messages(log.messages@, player_id@),
{
    let mut out: Vec<ChatMessage> = Vec::new();
    let n = log.messages.len();
    let mut i: usize = 0;
    while i < n
        invariant
            n == log.messages@.len(),
            i <= n,
            out@ == visible_messages(log.messages@.take(i as int), player_id@),
        decreases n - i,
    {
        proof {
            assert(log.messages@.take(i + 1).drop_last() =~= log.messages@.take(i as int));
            assert(log.messages@.take(i + 1).last() == log.messages@[i as int]);
        }
        let m = &log.messages[i];
        if m.message_type != ChatMessageType::Private || crate::support::str_eq(m.player_id.as_str(), player_id) {
            out.push(m.clone());
        }
        i += 1;
    }
    assert(log.messages@.take(n as int) =~= log.messages@);
    out
}

/// Whether the player is known to the room (or, without one, the game).
pub open spec fn knows_player(rooms: Seq<Room>, games: Seq<Game>, room_id: Seq<char>, player_id: Seq<char>) -> bool {
    if room_index(rooms, room_id) >= 0 {
        has_player(rooms[room_index(rooms, room_id)].players@, player_id)
    } else if game_index(games, room_id) >= 0 {
        has_player(games[game_index(games, room_id)].players@, player_id)
    } else {
        false
    }
}

/// The chat a player of a room may read: the game's (private messages only
/// their own) once there is a game, the room's before; `None` for an
/// unknown player.
pub fn messages_for(rooms: &RoomTable, games: &GameTable, room_id: &str, player_id: &str) -> (r: Option<Vec<ChatMessage>>)
    ensures
        !knows_player(rooms.rooms@, games.games@, room_id@, player_id@) ==> r is None,
        knows_player(rooms.rooms@, games.games@, room_id@, player_id@) ==> r is Some && (if game_index(games.games@, room_id@) >= 0 {
            r->Some_0@ == visible_messages(games.games@[game_index(games.games@, room_id@)].chat_log.messages@, player_id@)
        } else {
            r->Some_0@ == rooms.rooms@[room_index(rooms.rooms@, room_id@)].chat_log.messages@
        }),
{
    proof {
        lemma_room_index(rooms.rooms@, room_id@);
        lemma_game_index(games.games@, room_id@);
    }
    let known = match find_room(&rooms.rooms, room_id) {
        Some(k) => {
            proof {
                lemma_first_index_of(rooms.rooms@[k as int].players@, player_id@);
            }
            find_player_index(&rooms.rooms[k].players, player_id).is_some()
        },
        None => match find_game(&games.games, room_id) {
            Some(g) => {
                proof {
                    lemma_first_index_of(games.games@[g as int].players@, player_id@);
                }
                find_player_index(&games.games[g].players, player_id).is_some()
            },
            None => false,
        },
    };
    if !known {
        return None;
    }
    match find_game(&games.games, room_id) {
        Some(g) => Some(filter_visible(&games.games[g].chat_log, player_id)),
        None => match find_room(&rooms.rooms, room_id) {
            Some(k) => {
                let mut out: Vec<ChatMessage> = Vec::new();
                let n = rooms.rooms[k].chat_log.messages.len();
                let mut i: usize = 0;
                while i < n
                    invariant
                        k < rooms.rooms@.len(),
                        n == rooms.rooms@[k as int].chat_log.messages@.len(),
                        i <= n,
                        out@ == rooms.rooms@[k as int].chat_log.messages@.take(i as int),
                    decreases n - i,
                {
                    out.push(rooms.rooms[k].chat_log.messages[i].clone());
                    assert(out@ =~= rooms.rooms@[k as int].chat_log.messages@.take(i + 1));
                    i += 1;
                }
                assert(rooms.rooms@[k as int].chat_log.messages@.take(n as int) =~= rooms.rooms@[k as int].chat_log.messages@);
                Some(out)
            },
            None => None,
        },
    }
}

/// Everybody alive again.
pub open spec fn revived(players: Seq<Player>) -> Seq<Player> {
    players.map_values(|p: Player| Player { is_dead: false, ..p })
}

/// Puts a room's game back to its start, keeping the players (alive
/// again), with new `crypto_parameters`; the room reopens. Both chats hold
/// only the reset notice.
pub fn reset_game(rooms: &mut RoomTable, games: &mut GameTable, room_id: &str, crypto_parameters: CryptoParameters) -> (r: Result<(), String>)
    requires
        old(rooms).wf(),
        old(games).wf(),
    ensures
        final(rooms).wf(),
        final(games).wf(),
        game_index(old(games).games@, room_id@) < 0 <==> r is Err,
        r is Err ==> r->Err_0@ == "ゲームが見つかりません"@ && final(rooms).rooms@ == old(rooms).rooms@
            && final(games).games@ == old(games).games@,
        r is Ok ==> {
            let g = game_index(old(games).games@, room_id@);
            let before = old(games).games@[g];
            let after = final(games).games@[g];
            &&& final(games).games@ == old(games).games@.update(g, after)
            &&& after == (Game {
                players: after.players,
                phase: GamePhase::Waiting,
                chat_log: after.chat_log,
                result: GameResult::InProgress,
                day_count: 1,
                computation_results: after.computation_results,
                crypto_parameters: Some(crypto_parameters),
                ..before
            })
            &&& after.players@ == revived(before.players@)
            &&& after.computation_results.role_assignment is None
            &&& after.computation_results.divination@.len() == 0
            &&& after.chat_log.room_id == before.chat_log.room_id
            &&& after.chat_log.messages@.len() == 1
            &&& is_system_message(after.chat_log.messages@[0], "Game has been reset"@)
            &&& room_index(old(rooms).rooms@, room_id@) < 0 ==> final(rooms).rooms@ == old(rooms).rooms@
            &&& room_index(old(rooms).rooms@, room_id@) >= 0 ==> {
                let k = room_index(old(rooms).rooms@, room_id@);
                let room = final(rooms).rooms@[k];
                &&& final(rooms).rooms@ == old(rooms).rooms@.update(k, room)
                &&& room == (Room { status: RoomStatus::Open, chat_log: room.chat_log, ..old(rooms).rooms@[k] })
                &&& room.chat_log.room_id == old(rooms).rooms@[k].chat_log.room_id
                &&& room.chat_log.messages@.len() == 1
                &&& is_system_message(room.chat_log.messages@[0], "Room has been reset"@)
            }
        },
{
    let g = match find_game(&games.games, room_id) {
        Some(g) => g,
        None => return Err("ゲームが見つかりません".to_owned()),
    };
    let ghost gb = games.games@;
    let n = games.games[g].players.len();
    let mut i: usize = 0;
    while i < n
        invariant
            g < games.games@.len(),
            games.games@.len() == gb.len(),
            n == gb[g as int].players@.len(),
            i <= n,
            games.games@[g as int].players@.len() == n,
            forall|j: int| 0 <= j < i ==> games.games@[g as int].players@[j] == (Player { is_dead: false, ..gb[g as int].players@[j] }),
            forall|j: int| i <= j < n ==> games.games@[g as int].players@[j] == gb[g as int].players@[j],
            games.games@[g as int] == (Game { players: games.games@[g as int].players, ..gb[g as int] }),
            forall|j: int| 0 <= j < gb.len() && j != g ==> games.games@[j] == gb[j],
        decreases n - i,
    {
        games.games[g].players[i].is_dead = false;
        i += 1;
    }
    games.games[g].phase = GamePhase::Waiting;
    games.games[g].chat_log.messages = Vec::new();
    games.games[g].result = GameResult::InProgress;
    games.games[g].day_count = 1;
    games.games[g].computation_results = ComputationResults::new();
    games.games[g].chat_log.add_system_message("Game has been reset".to_owned());
    games.games[g].crypto_parameters = Some(crypto_parameters);
    proof {
        assert(games.games@[g as int].players@ =~= revived(gb[g as int].players@));
        assert(games.games@ =~= gb.update(g as int, games.games@[g as int]));
        assert forall|a: int, b: int| 0 <= a < b < games.games@.len() implies (
        #[trigger] games.games@[a]).room_id@ != (#[trigger] games.games@[b]).room_id@ by {
            assert(gb[a].room_id@ != gb[b].room_id@);
        }
    }
    match find_room(&rooms.rooms, room_id) {
        Some(k) => {
            let ghost rb = rooms.rooms@;
            rooms.rooms[k].status = RoomStatus::Open;
            rooms.rooms[k].chat_log.messages = Vec::new();
            rooms.rooms[k].chat_log.add_system_message("Room has been reset".to_owned());
            proof {
                assert(rooms.rooms@ =~= rb.update(k as int, rooms.rooms@[k as int]));
                assert forall|a: int, b: int| 0 <= a < b < rooms.rooms@.len() implies (
                #[trigger] rooms.rooms@[a]).room_id@ != (#[trigger] rooms.rooms@[b]).room_id@ by {
                    assert(rb[a].room_id@ != rb[b].room_id@);
                }
            }
        },
        None => {},
    }
    Ok(())
}

} // verus!
