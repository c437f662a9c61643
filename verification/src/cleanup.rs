//! Which idle rooms and games the periodic cleanup removes, and the tally
//! of what it removed.

use vstd::prelude::*;
use crate::game::{Game, GamePhase};
use crate::lifecycle::{GameTable, find_game, game_index, lemma_game_index};
use crate::room::{Room, RoomStatus, RoomTable, find_room, lemma_room_index, room_index};
use crate::sort::{has_text, sorted_unique_strings, strings_strictly_sorted};

verus! {

/// When rooms and games count as idle (durations in milliseconds).
#[derive(Debug, Clone, Copy)]
pub struct RoomCleanupPolicy {
    pub room_empty_ttl: i64,
    pub game_finished_ttl: i64,
    pub game_stalled_ttl: i64,
    pub game_max_day_count: u32,
}

impl Default for RoomCleanupPolicy {
    /// Empty rooms after 10 minutes, finished games after 15, stalled games
    /// after 60 minutes in one phase or from day 20 on.
    fn default() -> (p: Self)
        ensures
            p.room_empty_ttl == 600_000,
            p.game_finished_ttl == 900_000,
            p.game_stalled_ttl == 3_600_000,
            p.game_max_day_count == 20,
    {
        RoomCleanupPolicy {
            room_empty_ttl: 600_000,
            game_finished_ttl: 900_000,
            game_stalled_ttl: 3_600_000,
            game_max_day_count: 20,
        }
    }
}

/// How much one cleanup removed.
#[derive(Debug, Clone, Copy, PartialEq, Eq, Structural)]
pub struct RoomCleanupResult {
    pub removed_rooms: usize,
    pub removed_games: usize,
    pub removed_channels: usize,
    pub removed_event_stores: usize,
    pub removed_proof_jobs: usize,
}

impl Default for RoomCleanupResult {
    fn default() -> (r: Self)
        ensures
            r == (RoomCleanupResult {
                removed_rooms: 0,
                removed_games: 0,
                removed_channels: 0,
                removed_event_stores: 0,
                removed_proof_jobs: 0,
            }),
    {
        RoomCleanupResult {
            removed_rooms: 0,
            removed_games: 0,
            removed_channels: 0,
            removed_event_stores: 0,
            removed_proof_jobs: 0,
        }
    }
}

impl RoomCleanupResult {
    /// Adds `other`'s counts to these.
    pub fn merge(&mut self, other: Self)
        requires
            old(self).removed_rooms + other.removed_rooms <= usize::MAX,
            old(self).removed_games + other.removed_games <= usize::MAX,
            old(self).removed_channels + other.removed_channels <= usize::MAX,
            old(self).removed_event_stores + other.removed_event_stores <= usize::MAX,
            old(self).removed_proof_jobs + other.removed_proof_jobs <= usize::MAX,
        ensures
            final(self).removed_rooms == old(self).removed_rooms + other.removed_rooms,
            final(self).removed_games == old(self).removed_games + other.removed_games,
            final(self).removed_channels == old(self).removed_channels + other.removed_channels,
            final(self).removed_event_stores == old(self).removed_event_stores
                + other.removed_event_stores,
            final(self).removed_proof_jobs == old(self).removed_proof_jobs + other.removed_proof_jobs,
    {
        self.removed_rooms += other.removed_rooms;
        self.removed_games += other.removed_games;
        self.removed_channels += other.removed_channels;
        self.removed_event_stores += other.removed_event_stores;
        self.removed_proof_jobs += other.removed_proof_jobs;
    }
}

/// At least `ttl` has passed from `since` to `now`.
pub open spec fn elapsed(now: i64, since: i64, ttl: i64) -> bool {
    now - since >= ttl
}

fn has_elapsed(now: i64, since: i64, ttl: i64) -> (r: bool)
    ensures
        r == elapsed(now, since, ttl),
{
    (now as i128) - (since as i128) >= ttl as i128
}

pub open spec fn empty_room_due(room: Room, now: i64, policy: RoomCleanupPolicy) -> bool {
    room.players@.len() == 0 && elapsed(
        now,
        match room.empty_since {
            Some(t) => t,
            None => room.created_at,
        },
        policy.room_empty_ttl,
    )
}

/// An empty room is removed once it has been empty (or, never filled, has
/// existed) for the policy's time.
pub fn should_cleanup_empty_room(room: &Room, now: i64, policy: &RoomCleanupPolicy) -> (r: bool)
    ensures
        r == empty_room_due(*room, now, *policy),
{
    if room.players.len() != 0 {
        return false;
    }
    let since = match room.empty_since {
        Some(t) => t,
        None => room.created_at,
    };
    has_elapsed(now, since, policy.room_empty_ttl)
}

pub open spec fn stalled_game_due(room: Option<Room>, game: Game, now: i64, policy: RoomCleanupPolicy) -> bool {
    &&& game.phase != GamePhase::Finished
    &&& match room {
        Some(r) => r.status == RoomStatus::InProgress,
        None => true,
    }
    &&& (game.day_count >= policy.game_max_day_count || elapsed(
        now,
        game.phase_started_at,
        policy.game_stalled_ttl,
    ))
}

/// A game still running (its room playing, or gone) is removed from the
/// policy's last day on, or once one phase has lasted the policy's time.
pub fn should_cleanup_stalled_game(
    room: Option<&Room>,
    game: &Game,
    now: i64,
    policy: &RoomCleanupPolicy,
) -> (r: bool)
    ensures
        r == stalled_game_due(
            match room {
                Some(x) => Some(*x),
                None => None,
            },
            *game,
            now,
            *policy,
        ),
{
    if game.phase == GamePhase::Finished {
        return false;
    }
    let in_progress = match room {
        Some(r) => r.status == RoomStatus::InProgress,
        None => true,
    };
    if !in_progress {
        return false;
    }
    if game.day_count >= policy.game_max_day_count {
        return true;
    }
    has_elapsed(now, game.phase_started_at, policy.game_stalled_ttl)
}

pub open spec fn finished_game_due(room: Option<Room>, game: Game, now: i64, policy: RoomCleanupPolicy) -> bool {
    &&& (game.phase == GamePhase::Finished || match room {
        Some(r) => r.status == RoomStatus::Closed,
        None => false,
    })
    &&& elapsed(
        now,
        match game.ended_at {
            Some(t) => t,
            None => game.phase_started_at,
        },
        policy.game_finished_ttl,
    )
}

/// A finished game (or one whose room closed) is removed the policy's time
/// after it ended.
pub fn should_cleanup_finished_game(
    room: Option<&Room>,
    game: &Game,
    now: i64,
    policy: &RoomCleanupPolicy,
) -> (r: bool)
    ensures
        r == finished_game_due(
            match room {
                Some(x) => Some(*x),
                None => None,
            },
            *game,
            now,
            *policy,
        ),
{
    let closed = match room {
        Some(r) => r.status == RoomStatus::Closed,
        None => false,
    };
    if !(game.phase == GamePhase::Finished || closed) {
        return false;
    }
    let finished_at = match game.ended_at {
        Some(t) => t,
        None => game.phase_started_at,
    };
    has_elapsed(now, finished_at, policy.game_finished_ttl)
}

/// Whether the room `id` (or, without a room, its game) is due for removal.
pub open spec fn due(rooms: Seq<Room>, games: Seq<Game>, id: Seq<char>, now: i64, policy: RoomCleanupPolicy) -> bool {
    let k = room_index(rooms, id);
    let g = game_index(games, id);
    if k >= 0 {
        empty_room_due(rooms[k], now, policy) || (g >= 0 && (stalled_game_due(
            Some(rooms[k]),
            games[g],
            now,
            policy,
        ) || finished_game_due(Some(rooms[k]), games[g], now, policy)))
    } else {
        g >= 0 && (stalled_game_due(None, games[g], now, policy) || finished_game_due(
            None,
            games[g],
            now,
            policy,
        ))
    }
}

/// The ids of the rooms and games to remove, in byte order, each once: the
/// rooms that are due, and the games without a room that are due.
pub fn rooms_to_clean(rooms: &RoomTable, games: &GameTable, now: i64, policy: &RoomCleanupPolicy) -> (r: Vec<String>)
    ensures
        strings_strictly_sorted(r@),
        forall|x: Seq<char>|
            has_text(r@, x) <==> ((room_index(rooms.rooms@, x) >= 0 || game_index(games.games@, x) >= 0)
                && due(rooms.rooms@, games.games@, x, now, *policy)),
{
    let mut ids: Vec<String> = Vec::new();
    let n = rooms.rooms.len();
    let mut i: usize = 0;
    while i < n
        invariant
            n == rooms.rooms@.len(),
            i <= n,
            forall|x: Seq<char>|
                has_text(ids@, x) <==> exists|j: int|
                    0 <= j < i && (#[trigger] rooms.rooms@[j]).room_id@ == x && room_index(rooms.rooms@, x) == j
                        && due(rooms.rooms@, games.games@, x, now, *policy),
        decreases n - i,
    {
        let room = &rooms.rooms[i];
        proof {
            lemma_room_index(rooms.rooms@, room.room_id@);
            lemma_game_index(games.games@, room.room_id@);
        }
        let first = match find_room(&rooms.rooms, room.room_id.as_str()) {
            Some(k) => k == i,
            None => false,
        };
        let mut cleanup = should_cleanup_empty_room(room, now, policy);
        match find_game(&games.games, room.room_id.as_str()) {
            Some(g) => {
                cleanup = cleanup || should_cleanup_stalled_game(Some(room), &games.games[g], now, policy)
                    || should_cleanup_finished_game(Some(room), &games.games[g], now, policy);
            },
            None => {},
        }
        let ghost before = ids@;
        if first && cleanup {
            ids.push(room.room_id.clone());
        }
        proof {
            assert forall|x: Seq<char>|
                has_text(ids@, x) <==> exists|j: int|
                    0 <= j < i + 1 && (#[trigger] rooms.rooms@[j]).room_id@ == x && room_index(rooms.rooms@, x) == j
                        && due(rooms.rooms@, games.games@, x, now, *policy) by {
                if has_text(ids@, x) {
                    let w = choose|w: int| 0 <= w < ids@.len() && (#[trigger] ids@[w])@ == x;
                    if w < before.len() {
                        assert(has_text(before, x));
                    } else {
                        assert(rooms.rooms@[i as int].room_id@ == x);
                    }
                }
                if exists|j: int|
                    0 <= j < i + 1 && (#[trigger] rooms.rooms@[j]).room_id@ == x && room_index(rooms.rooms@, x) == j
                        && due(rooms.rooms@, games.games@, x, now, *policy) {
                    let j = choose|j: int|
                        0 <= j < i + 1 && (#[trigger] rooms.rooms@[j]).room_id@ == x && room_index(rooms.rooms@, x) == j
                            && due(rooms.rooms@, games.games@, x, now, *policy);
                    if j < i {
                        assert(has_text(before, x));
                        let w = choose|w: int| 0 <= w < before.len() && (#[trigger] before[w])@ == x;
                        assert(ids@[w] == before[w]);
                    } else {
                        assert(first && cleanup);
                        assert(ids@[ids@.len() - 1]@ == x);
                    }
                }
            }
        }
        i += 1;
    }
    proof {
        assert forall|x: Seq<char>|
            has_text(ids@, x) <==> (room_index(rooms.rooms@, x) >= 0 && due(
                rooms.rooms@,
                games.games@,
                x,
                now,
                *policy,
            )) by {
            lemma_room_index(rooms.rooms@, x);
            if room_index(rooms.rooms@, x) >= 0 {
                let k = room_index(rooms.rooms@, x);
                assert(rooms.rooms@[k].room_id@ == x);
            }
        }
    }
    let m = games.games.len();
    let mut q: usize = 0;
    while q < m
        invariant
            n == rooms.rooms@.len(),
            m == games.games@.len(),
            q <= m,
            forall|x: Seq<char>|
                has_text(ids@, x) <==> (room_index(rooms.rooms@, x) >= 0 && due(
                    rooms.rooms@,
                    games.games@,
                    x,
                    now,
                    *policy,
                )) || exists|j: int|
                    0 <= j < q && (#[trigger] games.games@[j]).room_id@ == x && game_index(games.games@, x) == j
                        && room_index(rooms.rooms@, x) < 0 && due(rooms.rooms@, games.games@, x, now, *policy),
        decreases m - q,
    {
        let game = &games.games[q];
        proof {
            lemma_room_index(rooms.rooms@, game.room_id@);
            lemma_game_index(games.games@, game.room_id@);
        }
        let first = match find_game(&games.games, game.room_id.as_str()) {
            Some(k) => k == q,
            None => false,
        };
        let orphan = find_room(&rooms.rooms, game.room_id.as_str()).is_none();
        let ghost before = ids@;
        if first && orphan && (should_cleanup_stalled_game(None, game, now, policy)
            || should_cleanup_finished_game(None, game, now, policy)) {
            ids.push(game.room_id.clone());
        }
        proof {
            assert forall|x: Seq<char>|
                has_text(ids@, x) <==> (room_index(rooms.rooms@, x) >= 0 && due(
                    rooms.rooms@,
                    games.games@,
                    x,
                    now,
                    *policy,
                )) || exists|j: int|
                    0 <= j < q + 1 && (#[trigger] games.games@[j]).room_id@ == x && game_index(games.games@, x) == j
                        && room_index(rooms.rooms@, x) < 0 && due(rooms.rooms@, games.games@, x, now, *policy) by {
                if has_text(ids@, x) {
                    let w = choose|w: int| 0 <= w < ids@.len() && (#[trigger] ids@[w])@ == x;
                    if w < before.len() {
                        assert(has_text(before, x));
                    } else {
                        assert(games.games@[q as int].room_id@ == x);
                    }
                }
                if room_index(rooms.rooms@, x) >= 0 && due(rooms.rooms@, games.games@, x, now, *policy) {
                    assert(has_text(before, x));
                    let w = choose|w: int| 0 <= w < before.len() && (#[trigger] before[w])@ == x;
                    assert(ids@[w] == before[w]);
                }
                if exists|j: int|
                    0 <= j < q + 1 && (#[trigger] games.games@[j]).room_id@ == x && game_index(games.games@, x) == j
                        && room_index(rooms.rooms@, x) < 0 && due(rooms.rooms@, games.games@, x, now, *policy) {
                    let j = choose|j: int|
                        0 <= j < q + 1 && (#[trigger] games.games@[j]).room_id@ == x && game_index(games.games@, x) == j
                            && room_index(rooms.rooms@, x) < 0 && due(rooms.rooms@, games.games@, x, now, *policy);
                    if j < q {
                        assert(has_text(before, x));
                        let w = choose|w: int| 0 <= w < before.len() && (#[trigger] before[w])@ == x;
                        assert(ids@[w] == before[w]);
                    } else {
                        assert(ids@[ids@.len() - 1]@ == x);
                    }
                }
            }
        }
        q += 1;
    }
    proof {
        assert forall|x: Seq<char>|
            has_text(ids@, x) <==> ((room_index(rooms.rooms@, x) >= 0 || game_index(games.games@, x) >= 0)
                && due(rooms.rooms@, games.games@, x, now, *policy)) by {
            lemma_room_index(rooms.rooms@, x);
            lemma_game_index(games.games@, x);
            if game_index(games.games@, x) >= 0 && room_index(rooms.rooms@, x) < 0 && due(rooms.rooms@, games.games@, x, now, *policy) {
                let j = game_index(games.games@, x);
                assert(games.games@[j].room_id@ == x);
            }
        }
    }
    sorted_unique_strings(&ids)
}

} // verus!
