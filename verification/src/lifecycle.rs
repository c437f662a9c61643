//! The table of games, starting and ending games, and the periodic cleanup
//! of idle rooms and games.

use vstd::prelude::*;
use vstd::string::StringExecFns;
use crate::game::{CryptoParameters, Game, GamePhase, GroupingParameter, targets_distinct, tally_view, vote_targets_distinct};
use crate::game_hash::{canonical_orders, compute_game_state_hash, state_input};
use crate::state_hash::digest;
use crate::voting::phase_advanced;
use crate::player::Player;
use crate::room::{Room, RoleConfig, RoomStatus, RoomTable, find_room, lemma_room_index, room_index};
use crate::sort::{Keyed, klt, kview, lex_lt, sort_keyed, strictly_sorted, distinct_positions};
use crate::state_hash::{is_evm_address, is_evm_address_bytes};
use crate::support::str_eq;
use crate::text::{decimal, usize_to_decimal};

verus! {

/// Index of the first game of room `id`, or -1.
pub open spec fn game_index(games: Seq<Game>, id: Seq<char>) -> int
    decreases games.len(),
{
    if games.len() == 0 {
        -1
    } else {
        let k = game_index(games.drop_last(), id);
        if k >= 0 {
            k
        } else if games.last().room_id@ == id {
            games.len() - 1
        } else {
            -1
        }
    }
}

pub proof fn lemma_game_index(games: Seq<Game>, id: Seq<char>)
    ensures
        -1 <= game_index(games, id) < games.len(),
        game_index(games, id) >= 0 ==> games[game_index(games, id)].room_id@ == id,
        game_index(games, id) < 0 <==> forall|j: int|
            0 <= j < games.len() ==> (#[trigger] games[j]).room_id@ != id,
        forall|j: int| 0 <= j < game_index(games, id) ==> (#[trigger] games[j]).room_id@ != id,
    decreases games.len(),
{
    if games.len() > 0 {
        let init = games.drop_last();
        lemma_game_index(init, id);
        assert forall|j: int| 0 <= j < init.len() implies init[j] == games[j] by {}
    }
}

pub fn find_game(games: &Vec<Game>, id: &str) -> (r: Option<usize>)
    ensures
        match r {
            Some(i) => i == game_index(games@, id@) && i < games@.len() && games@[i as int].room_id@
                == id@,
            None => game_index(games@, id@) == -1,
        },
{
    proof {
        lemma_game_index(games@, id@);
    }
    let n = games.len();
    let mut i: usize = 0;
    while i < n
        invariant
            n == games@.len(),
            i <= n,
            forall|j: int| 0 <= j < i ==> (#[trigger] games@[j]).room_id@ != id@,
            -1 <= game_index(games@, id@) < games@.len(),
            game_index(games@, id@) >= 0 ==> games@[game_index(games@, id@)].room_id@ == id@,
            forall|j: int|
                0 <= j < games@.len() && (game_index(games@, id@) < 0 || j < game_index(
                    games@,
                    id@,
                )) ==> (#[trigger] games@[j]).room_id@ != id@,
        decreases n - i,
    {
        if str_eq(games[i].room_id.as_str(), id) {
            return Some(i);
        }
        i += 1;
    }
    None
}

/// No two games share a room id.
pub open spec fn distinct_game_ids(games: Seq<Game>) -> bool {
    forall|a: int, b: int|
        0 <= a < b < games.len() ==> (#[trigger] games[a]).room_id@ != (#[trigger] games[b]).room_id@
}

/// The games, keyed by room id.
#[derive(Debug)]
pub struct GameTable {
    pub games: Vec<Game>,
}

impl GameTable {
    pub open spec fn wf(&self) -> bool {
        distinct_game_ids(self.games@)
    }

    pub fn new() -> (t: Self)
        ensures
            t.wf(),
            t.games@.len() == 0,
    {
        GameTable { games: Vec::new() }
    }

    /// Removes the game of room `id`; returns whether there was one.
    pub fn remove(&mut self, id: &str) -> (removed: bool)
        requires
            old(self).wf(),
        ensures
            final(self).wf(),
            removed == (game_index(old(self).games@, id@) >= 0),
            removed ==> final(self).games@ == old(self).games@.remove(
                game_index(old(self).games@, id@),
            ),
            !removed ==> final(self).games@ == old(self).games@,
    {
        match find_game(&self.games, id) {
            Some(i) => {
                self.games.remove(i);
                true
            },
            None => false,
        }
    }
}

/// The grouping the role-assignment circuit uses for a role count: the
/// werewolves know one another when there are several.
pub open spec fn grouping_of(c: RoleConfig) -> GroupingParameter {
    GroupingParameter {
        fortune_teller: (c.seer, false),
        werewolf: (c.werewolf, c.werewolf > 1),
        villager: (c.villager, false),
    }
}

pub fn grouping_parameter_from_role_config(c: &RoleConfig) -> (g: GroupingParameter)
    ensures
        g == grouping_of(*c),
        g.fortune_teller == (c.seer, false),
        g.werewolf.0 == c.werewolf,
        g.werewolf.1 <==> c.werewolf > 1,
        g.villager == (c.villager, false),
{
    GroupingParameter {
        fortune_teller: (c.seer, false),
        werewolf: (c.werewolf, c.werewolf > 1),
        villager: (c.villager, false),
    }
}

/// The werewolves are grouped (they learn one another) exactly when there
/// are several of them; the seer and the villagers are never grouped; each
/// role keeps its count.
pub proof fn lemma_grouping_of_counts(c: RoleConfig)
    ensures
        grouping_of(c).werewolf.0 == c.werewolf,
        grouping_of(c).werewolf.1 <==> c.werewolf > 1,
        grouping_of(c).fortune_teller == (c.seer, false),
        grouping_of(c).villager == (c.villager, false),
{
}

/// A started game's role counts cover exactly the players who joined: the
/// seer and werewolf counts are the room's, and the villagers make up the
/// rest (the room's villager count when its total already matches).
pub proof fn lemma_effective_roles_cover_players(c: RoleConfig, joined: nat)
    requires
        joined >= c.seer + c.werewolf,
        joined <= usize::MAX,
    ensures
        effective_roles(c, joined).seer == c.seer,
        effective_roles(c, joined).werewolf == c.werewolf,
        effective_roles(c, joined).seer + effective_roles(c, joined).werewolf + effective_roles(
            c,
            joined,
        ).villager == joined,
        c.total_spec() == joined ==> effective_roles(c, joined) == c,
{
}

/// The role counts a game starts with: the room's, with the villagers
/// made up to the players present when the total differs.
pub open spec fn effective_roles(c: RoleConfig, joined: nat) -> RoleConfig {
    if c.total_spec() != joined {
        RoleConfig { villager: (joined - (c.seer + c.werewolf)) as usize, ..c }
    } else {
        c
    }
}

pub fn copy_players(players: &Vec<Player>) -> (r: Vec<Player>)
    ensures
        r@ == players@,
{
    let mut out: Vec<Player> = Vec::new();
    let n = players.len();
    let mut i: usize = 0;
    while i < n
        invariant
            n == players@.len(),
            i <= n,
            out@ == players@.take(i as int),
        decreases n - i,
    {
        out.push(players[i].clone());
        assert(out@ =~= players@.take(i + 1));
        i += 1;
    }
    assert(players@.take(n as int) =~= players@);
    out
}

/// What starting a game did: the phases it moved the game between, and the
/// digest of the game's state as it was created, before that first move
/// (none when two vote entries share a target).
#[derive(Debug)]
pub struct GameStart {
    pub from: GamePhase,
    pub to: GamePhase,
    pub start_digest: Option<[u8; 32]>,
}

/// `mid` is the game of the room `room` (holding `joined` players, with
/// role counts `c`) once a start has set it up: a new game in Waiting with
/// the room's players and `crypto_parameters`, or the existing game, with
/// the start announced either way.
pub open spec fn started_game(
    old_games: Seq<Game>,
    room: Room,
    room_id: Seq<char>,
    crypto_parameters: CryptoParameters,
    joined: nat,
    mid: Game,
) -> bool {
    let c = room.room_config.role_config;
    &&& game_index(old_games, room_id) < 0 ==> {
        &&& mid.room_id@ == room_id
        &&& mid.players@ == room.players@
        &&& mid.max_players == room.room_config.max_players
        &&& mid.phase == GamePhase::Waiting
        &&& mid.day_count == 1
        &&& mid.grouping_parameter == grouping_of(effective_roles(c, joined))
        &&& mid.crypto_parameters == Some(crypto_parameters)
        &&& mid.chat_log.messages@.len() == 1
    }
    &&& game_index(old_games, room_id) >= 0 ==> {
        let before = old_games[game_index(old_games, room_id)];
        &&& mid == (Game { chat_log: mid.chat_log, ..before })
        &&& mid.chat_log.messages@.drop_last() == before.chat_log.messages@
    }
    &&& crate::chat::is_system_message(
        mid.chat_log.messages@.last(),
        "Starting the game with "@ + decimal(mid.players@.len()) + " players. Roles will be assigned via MPC."@,
    )
}

/// Starts the game of a room: checks the player count against the room's
/// special roles, creates the game (unless the room already has one) with
/// `crypto_parameters`, marks the room as playing, announces the start and
/// moves the game on to its first phase (a new game: Night).
pub fn start_game(
    rooms: &mut RoomTable,
    games: &mut GameTable,
    room_id: &str,
    crypto_parameters: CryptoParameters,
) -> (r: Result<GameStart, String>)
    requires
        old(rooms).wf(),
        old(games).wf(),
        room_index(old(rooms).rooms@, room_id@) >= 0 ==> old(rooms).rooms@[room_index(
            old(rooms).rooms@,
            room_id@,
        )].room_config.role_config.total_spec() <= usize::MAX,
        game_index(old(games).games@, room_id@) >= 0 && old(games).games@[game_index(
            old(games).games@,
            room_id@,
        )].phase == GamePhase::Result ==> old(games).games@[game_index(old(games).games@, room_id@)].day_count
            < u32::MAX,
    ensures
        final(rooms).wf(),
        final(games).wf(),
        room_index(old(rooms).rooms@, room_id@) < 0 ==> r is Err && r->Err_0@ == "Room not found"@
            && final(rooms).rooms@ == old(rooms).rooms@ && final(games).games@ == old(games).games@,
        room_index(old(rooms).rooms@, room_id@) >= 0 ==> {
            let k = room_index(old(rooms).rooms@, room_id@);
            let room = old(rooms).rooms@[k];
            let joined = room.players@.len();
            let c = room.room_config.role_config;
            let refused = joined < 4 || joined < c.seer + c.werewolf;
            &&& joined < 4 ==> r is Err && r->Err_0@ == "At least 4 players are required"@
            &&& joined >= 4 && joined < c.seer + c.werewolf ==> r is Err && r->Err_0@
                == "joined players ("@ + decimal(joined) + ") are fewer than required special roles (seer + werewolf = "@
                + decimal((c.seer + c.werewolf) as nat) + ")"@
            &&& refused ==> final(rooms).rooms@ == old(rooms).rooms@ && final(games).games@ == old(
                games,
            ).games@
            &&& !refused ==> {
                let gi = game_index(final(games).games@, room_id@);
                let g = final(games).games@[gi];
                &&& final(rooms).rooms@ == old(rooms).rooms@.update(
                    k,
                    Room { status: RoomStatus::InProgress, ..room },
                )
                &&& gi >= 0
                &&& game_index(old(games).games@, room_id@) < 0 ==> {
                    &&& final(games).games@.len() == old(games).games@.len() + 1
                    &&& final(games).games@.drop_last() == old(games).games@
                    &&& r is Ok
                    &&& g.phase == GamePhase::Night
                    &&& g.players@ == room.players@
                    &&& g.grouping_parameter.fortune_teller.0 + g.grouping_parameter.werewolf.0
                        + g.grouping_parameter.villager.0 == joined
                    &&& g.grouping_parameter.fortune_teller.0 == c.seer
                    &&& g.grouping_parameter.werewolf.0 == c.werewolf
                    &&& (g.grouping_parameter.werewolf.1 <==> c.werewolf > 1)
                    &&& c.total_spec() == joined ==> g.grouping_parameter.villager.0 == c.villager
                }
                &&& game_index(old(games).games@, room_id@) >= 0 ==> final(games).games@ == old(
                    games,
                ).games@.update(game_index(old(games).games@, room_id@), g)
                &&& exists|mid: Game|
                    #[trigger] started_game(old(games).games@, room, room_id@, crypto_parameters, joined, mid) && {
                        &&& mid.phase == GamePhase::Finished ==> r is Err && r->Err_0@
                            == "ゲームは既に終了しています"@ && g == mid
                        &&& mid.phase != GamePhase::Finished ==> {
                            &&& r is Ok
                            &&& phase_advanced(mid, g, r->Ok_0.from, r->Ok_0.to)
                            &&& (r->Ok_0.start_digest is Some <==> targets_distinct(tally_view(mid.vote_results@)))
                            &&& r->Ok_0.start_digest matches Some(h) ==> exists|
                                pord: Seq<int>,
                                keys: Seq<Seq<char>>,
                                vords: Seq<Seq<int>>,
                            |
                                #![trigger canonical_orders(mid, pord, keys, vords)]
                                canonical_orders(mid, pord, keys, vords) && h@ == digest(
                                    state_input(mid, pord, keys, vords),
                                )
                        }
                    }
            }
        },
{
    proof {
        lemma_room_index(rooms.rooms@, room_id@);
        lemma_game_index(games.games@, room_id@);
    }
    let k = match find_room(&rooms.rooms, room_id) {
        Some(k) => k,
        None => return Err("Room not found".to_owned()),
    };
    let joined = rooms.rooms[k].players.len();
    if joined < 4 {
        return Err("At least 4 players are required".to_owned());
    }
    let mut c = rooms.rooms[k].room_config.role_config;
    let special = c.seer + c.werewolf;
    if joined < special {
        let text = "joined players (".to_owned().concat(usize_to_decimal(joined).as_str()).concat(
            ") are fewer than required special roles (seer + werewolf = ",
        ).concat(usize_to_decimal(special).as_str()).concat(")");
        return Err(text);
    }
    if c.total_players() != joined {
        c.villager = joined - special;
    }
    let grouping = grouping_parameter_from_role_config(&c);
    let ghost games_before = games.games@;
    let g = match find_game(&games.games, room_id) {
        Some(g) => g,
        None => {
            let mut new_game = Game::new(
                room_id.to_owned(),
                copy_players(&rooms.rooms[k].players),
                rooms.rooms[k].room_config.max_players,
                grouping,
            );
            new_game.crypto_parameters = Some(crypto_parameters);
            games.games.push(new_game);
            proof {
                assert forall|a: int, b: int| 0 <= a < b < games.games@.len() implies (
                #[trigger] games.games@[a]).room_id@ != (#[trigger] games.games@[b]).room_id@ by {
                    if b == games_before.len() {
                        assert(games_before[a].room_id@ != room_id@);
                    } else {
                        assert(games_before[a].room_id@ != games_before[b].room_id@);
                    }
                }
                assert(games.games@.drop_last() =~= games_before);
            }
            games.games.len() - 1
        },
    };
    let ghost before_msg = games.games@;
    let count = games.games[g].players.len();
    let text = "Starting the game with ".to_owned().concat(usize_to_decimal(count).as_str()).concat(
        " players. Roles will be assigned via MPC.",
    );
    games.games[g].chat_log.add_system_message(text);
    proof {
        assert(games.games@ =~= before_msg.update(g as int, games.games@[g as int]));
        assert forall|a: int, b: int| 0 <= a < b < games.games@.len() implies (
        #[trigger] games.games@[a]).room_id@ != (#[trigger] games.games@[b]).room_id@ by {
            assert(before_msg[a].room_id@ != before_msg[b].room_id@);
        }
        lemma_game_index(games.games@, room_id@);
        lemma_game_index(games_before, room_id@);
        if game_index(games_before, room_id@) < 0 {
            let j = game_index(games.games@, room_id@);
            if j >= 0 && j < g {
                assert(games.games@[j] == games_before[j]);
            }
        }
    }
    let ghost rooms_before = rooms.rooms@;
    rooms.rooms[k].status = RoomStatus::InProgress;
    proof {
        assert(rooms.rooms@ =~= rooms_before.update(
            k as int,
            Room { status: RoomStatus::InProgress, ..rooms_before[k as int] },
        ));
        assert forall|a: int, b: int| 0 <= a < b < rooms.rooms@.len() implies (
        #[trigger] rooms.rooms@[a]).room_id@ != (#[trigger] rooms.rooms@[b]).room_id@ by {
            assert(rooms_before[a].room_id@ != rooms_before[b].room_id@);
        }
    }
    let ghost mid = games.games@[g as int];
    let ghost games_mid = games.games@;
    proof {
        lemma_game_index(games_mid, room_id@);
        assert(started_game(games_before, rooms_before[k as int], room_id@, crypto_parameters, joined as nat, mid));
    }
    let start_digest = if vote_targets_distinct(&games.games[g].vote_results) {
        Some(compute_game_state_hash(&games.games[g]))
    } else {
        None
    };
    let (from, to) = match games.games[g].advance_phase() {
        Ok(p) => p,
        Err(e) => {
            proof {
                assert(games.games@ =~= games_mid);
                lemma_game_index(games.games@, room_id@);
                assert(started_game(games_before, rooms_before[k as int], room_id@, crypto_parameters, joined as nat, mid));
            }
            return Err(e);
        },
    };
    proof {
        assert(games.games@ =~= games_mid.update(g as int, games.games@[g as int]));
        assert forall|a: int, b: int| 0 <= a < b < games.games@.len() implies (
        #[trigger] games.games@[a]).room_id@ != (#[trigger] games.games@[b]).room_id@ by {
            assert(games_mid[a].room_id@ != games_mid[b].room_id@);
        }
        lemma_game_index(games.games@, room_id@);
    }
    Ok(GameStart { from, to, start_digest })
}

/// Ends the game of a room: the room closes and the game is finished.
pub fn end_game(rooms: &mut RoomTable, games: &mut GameTable, room_id: &str) -> (r: Result<(), String>)
    requires
        old(rooms).wf(),
        old(games).wf(),
    ensures
        final(rooms).wf(),
        final(games).wf(),
        (room_index(old(rooms).rooms@, room_id@) >= 0 && game_index(old(games).games@, room_id@)
            >= 0) <==> r is Ok,
        r is Err ==> r->Err_0@ == "Game not found"@ && final(rooms).rooms@ == old(rooms).rooms@
            && final(games).games@ == old(games).games@,
        r is Ok ==> {
            let k = room_index(old(rooms).rooms@, room_id@);
            let g = game_index(old(games).games@, room_id@);
            &&& final(rooms).rooms@ == old(rooms).rooms@.update(
                k,
                Room { status: RoomStatus::Closed, ..old(rooms).rooms@[k] },
            )
            &&& final(games).games@ == old(games).games@.update(
                g,
                Game { phase: GamePhase::Finished, ..old(games).games@[g] },
            )
        },
{
    let k = match find_room(&rooms.rooms, room_id) {
        Some(k) => k,
        None => return Err("Game not found".to_owned()),
    };
    let g = match find_game(&games.games, room_id) {
        Some(g) => g,
        None => return Err("Game not found".to_owned()),
    };
    let ghost rb = rooms.rooms@;
    let ghost gb = games.games@;
    rooms.rooms[k].status = RoomStatus::Closed;
    games.games[g].phase = GamePhase::Finished;
    proof {
        assert(rooms.rooms@ =~= rb.update(k as int, Room { status: RoomStatus::Closed, ..rb[k as int] }));
        assert(games.games@ =~= gb.update(g as int, Game { phase: GamePhase::Finished, ..gb[g as int] }));
        assert forall|a: int, b: int| 0 <= a < b < rooms.rooms@.len() implies (
        #[trigger] rooms.rooms@[a]).room_id@ != (#[trigger] rooms.rooms@[b]).room_id@ by {
            assert(rb[a].room_id@ != rb[b].room_id@);
        }
        assert forall|a: int, b: int| 0 <= a < b < games.games@.len() implies (
        #[trigger] games.games@[a]).room_id@ != (#[trigger] games.games@[b]).room_id@ by {
            assert(gb[a].room_id@ != gb[b].room_id@);
        }
    }
    Ok(())
}

/// The ids of the players that look like EVM addresses, in order.
pub open spec fn evm_players(players: Seq<Player>) -> Seq<Seq<char>>
    decreases players.len(),
{
    if players.len() == 0 {
        Seq::empty()
    } else {
        let rest = evm_players(players.drop_last());
        if is_evm_address_bytes(vstd::utf8::encode_utf8(players.last().id@)) {
            rest.push(players.last().id@)
        } else {
            rest
        }
    }
}

/// The ids of the living players that look like EVM addresses, in order.
pub open spec fn evm_survivors(players: Seq<Player>) -> Seq<Seq<char>>
    decreases players.len(),
{
    if players.len() == 0 {
        Seq::empty()
    } else {
        let rest = evm_survivors(players.drop_last());
        if !players.last().is_dead && is_evm_address_bytes(
            vstd::utf8::encode_utf8(players.last().id@),
        ) {
            rest.push(players.last().id@)
        } else {
            rest
        }
    }
}

/// The players registered on chain: those whose id is an EVM address.
pub fn extract_evm_player_addresses(game: &Game) -> (r: Vec<String>)
    ensures
        r@.map_values(|s: String| s@) == evm_players(game.players@),
{
    let mut out: Vec<String> = Vec::new();
    let n = game.players.len();
    let mut i: usize = 0;
    while i < n
        invariant
            n == game.players@.len(),
            i <= n,
            out@.map_values(|s: String| s@) == evm_players(game.players@.take(i as int)),
        decreases n - i,
    {
        proof {
            assert(game.players@.take(i + 1).drop_last() =~= game.players@.take(i as int));
            assert(game.players@.take(i + 1).last() == game.players@[i as int]);
        }
        if is_evm_address(game.players[i].id.as_str()) {
            let ghost before = out@;
            out.push(game.players[i].id.clone());
            assert(out@.map_values(|s: String| s@) =~= before.map_values(|s: String| s@).push(
                game.players@[i as int].id@,
            ));
        }
        i += 1;
    }
    assert(game.players@.take(n as int) =~= game.players@);
    out
}

/// The players rewarded at the end: the survivors whose id is an EVM
/// address (roles are not known to the server).
pub fn extract_winner_addresses(game: &Game) -> (r: Vec<String>)
    ensures
        r@.map_values(|s: String| s@) == evm_survivors(game.players@),
{
    let mut out: Vec<String> = Vec::new();
    let n = game.players.len();
    let mut i: usize = 0;
    while i < n
        invariant
            n == game.players@.len(),
            i <= n,
            out@.map_values(|s: String| s@) == evm_survivors(game.players@.take(i as int)),
        decreases n - i,
    {
        proof {
            assert(game.players@.take(i + 1).drop_last() =~= game.players@.take(i as int));
            assert(game.players@.take(i + 1).last() == game.players@[i as int]);
        }
        if !game.players[i].is_dead && is_evm_address(game.players[i].id.as_str()) {
            let ghost before = out@;
            out.push(game.players[i].id.clone());
            assert(out@.map_values(|s: String| s@) =~= before.map_values(|s: String| s@).push(
                game.players@[i as int].id@,
            ));
        }
        i += 1;
    }
    assert(game.players@.take(n as int) =~= game.players@);
    out
}

} // verus!
