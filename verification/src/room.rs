//! Rooms: their configuration, who is in them, and the table of rooms the
//! server keeps, keyed by room id.

use vstd::prelude::*;
use crate::chat::ChatLog;
use crate::player::{Player, first_index_of, find_player_index, has_player, lemma_first_index_of};
use crate::support::{now_millis, str_eq};
use crate::text::{decimal, parse_u32, parse_u32_spec, usize_to_decimal};

verus! {

/// How many players get each role.
#[derive(Debug, Clone, Copy)]
pub struct RoleConfig {
    pub seer: usize,
    pub werewolf: usize,
    pub villager: usize,
}

impl RoleConfig {
    pub open spec fn total_spec(&self) -> int {
        self.seer + self.werewolf + self.villager
    }

    pub fn total_players(&self) -> (n: usize)
        requires
            self.total_spec() <= usize::MAX,
        ensures
            n == self.total_spec(),
    {
        self.seer + self.werewolf + self.villager
    }
}

/// Phase lengths in seconds.
#[derive(Debug, Clone, Copy)]
pub struct TimeConfig {
    pub day_phase: u64,
    pub night_phase: u64,
    pub voting_phase: u64,
}

#[derive(Debug, Clone, Copy)]
pub struct RoomConfig {
    pub max_players: usize,
    pub role_config: RoleConfig,
    pub time_config: TimeConfig,
}

impl Default for RoomConfig {
    /// Nine players (one seer, two werewolves, six villagers); 300 s of day,
    /// 120 s of night, 90 s of voting.
    fn default() -> (c: Self)
        ensures
            c.max_players == 9,
            c.role_config.seer == 1,
            c.role_config.werewolf == 2,
            c.role_config.villager == 6,
            c.time_config.day_phase == 300,
            c.time_config.night_phase == 120,
            c.time_config.voting_phase == 90,
    {
        RoomConfig {
            max_players: 9,
            role_config: RoleConfig { seer: 1, werewolf: 2, villager: 6 },
            time_config: TimeConfig { day_phase: 300, night_phase: 120, voting_phase: 90 },
        }
    }
}

#[derive(Debug, Clone, Copy, PartialEq, Eq, Structural)]
pub enum RoomStatus {
    /// Accepting players.
    Open,
    /// Every player (at least four) is ready.
    Ready,
    InProgress,
    Closed,
}

/// A room. Times are in milliseconds since the Unix epoch; `empty_since`
/// is when the last player left.
#[derive(Debug)]
pub struct Room {
    pub room_id: String,
    pub name: Option<String>,
    pub players: Vec<Player>,
    pub max_players: usize,
    pub room_config: RoomConfig,
    pub status: RoomStatus,
    pub chat_log: ChatLog,
    pub created_at: i64,
    pub empty_since: Option<i64>,
}

impl Room {
    /// An open, empty room with `room_config` or the default one.
    pub fn new(room_id: String, name: Option<String>, room_config: Option<RoomConfig>) -> (r: Self)
        ensures
            r.room_id == room_id,
            r.name == name,
            r.players@.len() == 0,
            r.room_config == (match room_config {
                Some(c) => c,
                None => r.room_config,
            }),
            room_config is None ==> r.room_config.max_players == 9 && r.room_config.role_config
                == (RoleConfig { seer: 1, werewolf: 2, villager: 6 }) && r.room_config.time_config
                == (TimeConfig { day_phase: 300, night_phase: 120, voting_phase: 90 }),
            r.max_players == r.room_config.max_players,
            r.status == RoomStatus::Open,
            r.chat_log.room_id == room_id,
            r.chat_log.messages@.len() == 0,
            r.empty_since is None,
    {
        let config = match room_config {
            Some(c) => c,
            None => RoomConfig::default(),
        };
        let chat_log = ChatLog::new(room_id.clone());
        Room {
            room_id,
            name,
            players: Vec::new(),
            max_players: config.max_players,
            room_config: config,
            status: RoomStatus::Open,
            chat_log,
            created_at: now_millis(),
            empty_since: None,
        }
    }
}

/// Index of the first room with id `id`, or -1.
pub open spec fn room_index(rooms: Seq<Room>, id: Seq<char>) -> int
    decreases rooms.len(),
{
    if rooms.len() == 0 {
        -1
    } else {
        let k = room_index(rooms.drop_last(), id);
        if k >= 0 {
            k
        } else if rooms.last().room_id@ == id {
            rooms.len() - 1
        } else {
            -1
        }
    }
}

pub proof fn lemma_room_index(rooms: Seq<Room>, id: Seq<char>)
    ensures
        -1 <= room_index(rooms, id) < rooms.len(),
        room_index(rooms, id) >= 0 ==> rooms[room_index(rooms, id)].room_id@ == id,
        room_index(rooms, id) < 0 <==> forall|j: int|
            0 <= j < rooms.len() ==> (#[trigger] rooms[j]).room_id@ != id,
        forall|j: int| 0 <= j < room_index(rooms, id) ==> (#[trigger] rooms[j]).room_id@ != id,
    decreases rooms.len(),
{
    if rooms.len() > 0 {
        let init = rooms.drop_last();
        lemma_room_index(init, id);
        assert forall|j: int| 0 <= j < init.len() implies init[j] == rooms[j] by {}
    }
}

/// No two rooms share an id.
pub open spec fn distinct_room_ids(rooms: Seq<Room>) -> bool {
    forall|a: int, b: int|
        0 <= a < b < rooms.len() ==> (#[trigger] rooms[a]).room_id@ != (#[trigger] rooms[b]).room_id@
}

/// `new_room` is `old_room` after the player `player_id` joined it under
/// `player_name`: a player already there is renamed, a new one is added
/// at the end, alive and not ready; the room is no longer empty.
pub open spec fn joined(old_room: Room, new_room: Room, player_id: Seq<char>, player_name: Seq<char>) -> bool {
    &&& new_room == (Room { players: new_room.players, empty_since: None, ..old_room })
    &&& if has_player(old_room.players@, player_id) {
        let p = first_index_of(old_room.players@, player_id);
        new_room.players@ == old_room.players@.update(
            p,
            Player { name: new_room.players@[p].name, ..old_room.players@[p] },
        ) && new_room.players@[p].name@ == player_name
    } else {
        &&& new_room.players@.len() == old_room.players@.len() + 1
        &&& new_room.players@.drop_last() == old_room.players@
        &&& new_room.players@.last().id@ == player_id
        &&& new_room.players@.last().name@ == player_name
        &&& new_room.players@.last().role is None
        &&& !new_room.players@.last().is_dead
        &&& !new_room.players@.last().is_ready
    }
}

/// No two players have the same id.
pub open spec fn distinct_player_ids(players: Seq<Player>) -> bool {
    forall|a: int, b: int|
        0 <= a < b < players.len() ==> (#[trigger] players[a]).id@ != (#[trigger] players[b]).id@
}

/// After a player joins a room whose players have distinct ids, the ids
/// are still distinct and exactly one player has the joining id.
pub proof fn lemma_join_keeps_ids_distinct(
    old_room: Room,
    new_room: Room,
    player_id: Seq<char>,
    player_name: Seq<char>,
)
    requires
        distinct_player_ids(old_room.players@),
        joined(old_room, new_room, player_id, player_name),
    ensures
        distinct_player_ids(new_room.players@),
        exists|i: int| 0 <= i < new_room.players@.len() && (#[trigger] new_room.players@[i]).id@ == player_id,
        forall|i: int, j: int|
            0 <= i < new_room.players@.len() && 0 <= j < new_room.players@.len() && (
            #[trigger] new_room.players@[i]).id@ == player_id && (#[trigger] new_room.players@[j]).id@
                == player_id ==> i == j,
{
    let ps = old_room.players@;
    let qs = new_room.players@;
    lemma_first_index_of(ps, player_id);
    if has_player(ps, player_id) {
        let p = first_index_of(ps, player_id);
        assert forall|i: int| 0 <= i < qs.len() implies (#[trigger] qs[i]).id@ == ps[i].id@ by {}
        assert(qs[p].id@ == player_id);
    } else {
        assert forall|i: int| 0 <= i < ps.len() implies (#[trigger] qs[i]) == ps[i] by {
            assert(qs.drop_last()[i] == qs[i]);
        }
        assert(qs[qs.len() - 1].id@ == player_id);
    }
}

/// Finds the room with id `id`.
pub fn find_room(rooms: &Vec<Room>, id: &str) -> (r: Option<usize>)
    ensures
        match r {
            Some(i) => i == room_index(rooms@, id@) && i < rooms@.len() && rooms@[i as int].room_id@
                == id@,
            None => room_index(rooms@, id@) == -1,
        },
{
    proof {
        lemma_room_index(rooms@, id@);
    }
    let n = rooms.len();
    let mut i: usize = 0;
    while i < n
        invariant
            n == rooms@.len(),
            i <= n,
            forall|j: int| 0 <= j < i ==> (#[trigger] rooms@[j]).room_id@ != id@,
            -1 <= room_index(rooms@, id@) < rooms@.len(),
            room_index(rooms@, id@) >= 0 ==> rooms@[room_index(rooms@, id@)].room_id@ == id@,
            forall|j: int|
                0 <= j < rooms@.len() && (room_index(rooms@, id@) < 0 || j < room_index(
                    rooms@,
                    id@,
                )) ==> (#[trigger] rooms@[j]).room_id@ != id@,
        decreases n - i,
    {
        if str_eq(rooms[i].room_id.as_str(), id) {
            return Some(i);
        }
        i += 1;
    }
    None
}

/// Whether the player may join: the room is open and not full.
pub open spec fn can_join(room: Room) -> bool {
    room.status == RoomStatus::Open && room.players@.len() < room.max_players
}

/// Every player is ready, and there are at least four.
pub open spec fn all_ready(players: Seq<Player>) -> bool {
    players.len() >= 4 && forall|i: int| 0 <= i < players.len() ==> (#[trigger] players[i]).is_ready
}

/// `players` with the player at `k` removed.
pub open spec fn without(players: Seq<Player>, k: int) -> Seq<Player> {
    players.take(k) + players.skip(k + 1)
}

/// The table of rooms, keyed by room id.
#[derive(Debug)]
pub struct RoomTable {
    pub rooms: Vec<Room>,
}

impl RoomTable {
    pub open spec fn wf(&self) -> bool {
        distinct_room_ids(self.rooms@)
    }

    pub fn new() -> (t: Self)
        ensures
            t.wf(),
            t.rooms@.len() == 0,
    {
        RoomTable { rooms: Vec::new() }
    }

    /// The room with id `id`, if any.
    pub fn get(&self, id: &str) -> (r: Option<&Room>)
        ensures
            match r {
                Some(room) => room_index(self.rooms@, id@) >= 0 && *room == self.rooms@[room_index(
                    self.rooms@,
                    id@,
                )],
                None => room_index(self.rooms@, id@) < 0,
            },
    {
        match find_room(&self.rooms, id) {
            Some(i) => Some(&self.rooms[i]),
            None => None,
        }
    }

    /// Puts `room` under its id, replacing the room that had it.
    pub fn insert(&mut self, room: Room)
        requires
            old(self).wf(),
        ensures
            final(self).wf(),
            room_index(old(self).rooms@, room.room_id@) >= 0 ==> final(self).rooms@ == old(
                self,
            ).rooms@.update(room_index(old(self).rooms@, room.room_id@), room),
            room_index(old(self).rooms@, room.room_id@) < 0 ==> final(self).rooms@ == old(
                self,
            ).rooms@.push(room),
    {
        proof {
            lemma_room_index(self.rooms@, room.room_id@);
        }
        match find_room(&self.rooms, room.room_id.as_str()) {
            Some(i) => {
                self.rooms.set(i, room);
            },
            None => {
                self.rooms.push(room);
            },
        }
    }

    /// Removes the room with id `id`; returns whether there was one.
    pub fn remove(&mut self, id: &str) -> (removed: bool)
        requires
            old(self).wf(),
        ensures
            final(self).wf(),
            removed == (room_index(old(self).rooms@, id@) >= 0),
            removed ==> final(self).rooms@ == old(self).rooms@.remove(
                room_index(old(self).rooms@, id@),
            ),
            !removed ==> final(self).rooms@ == old(self).rooms@,
            forall|j: int| 0 <= j < final(self).rooms@.len() ==> (#[trigger] final(self).rooms@[j]).room_id@ != id@,
    {
        proof {
            lemma_room_index(self.rooms@, id@);
        }
        match find_room(&self.rooms, id) {
            Some(i) => {
                let ghost before = self.rooms@;
                self.rooms.remove(i);
                assert forall|j: int| 0 <= j < self.rooms@.len() implies (#[trigger] self.rooms@[j]).room_id@ != id@ by {
                    if j >= i {
                        assert(self.rooms@[j] == before[j + 1]);
                    }
                }
                true
            },
            None => false,
        }
    }
}

/// Whether every room id reads as a `u32`, all below `u32::MAX`.
pub open spec fn numeric_ids(rooms: Seq<Room>) -> bool {
    forall|i: int|
        0 <= i < rooms.len() ==> parse_u32_spec(vstd::utf8::encode_utf8((#[trigger] rooms[i]).room_id@))
            is Some && parse_u32_spec(vstd::utf8::encode_utf8(rooms[i].room_id@))->Some_0 < u32::MAX
}

/// The largest id number, or 0 for no rooms.
pub open spec fn max_id(rooms: Seq<Room>) -> u32
    decreases rooms.len(),
{
    if rooms.len() == 0 {
        0
    } else {
        let m = max_id(rooms.drop_last());
        let v = parse_u32_spec(vstd::utf8::encode_utf8(rooms.last().room_id@))->Some_0;
        if v > m {
            v
        } else {
            m
        }
    }
}

pub proof fn lemma_max_id_bound(rooms: Seq<Room>)
    requires
        numeric_ids(rooms),
    ensures
        max_id(rooms) < u32::MAX,
    decreases rooms.len(),
{
    if rooms.len() > 0 {
        let init = rooms.drop_last();
        assert forall|i: int| 0 <= i < init.len() implies parse_u32_spec(
            vstd::utf8::encode_utf8((#[trigger] init[i]).room_id@),
        ) is Some && parse_u32_spec(vstd::utf8::encode_utf8(init[i].room_id@))->Some_0 < u32::MAX by {
            assert(init[i] == rooms[i]);
        }
        lemma_max_id_bound(init);
        assert(rooms.last() == rooms[rooms.len() - 1]);
    }
}

impl RoomTable {
    /// Opens a room under the next free number (one more than the largest)
    /// and returns that number.
    pub fn create_room(&mut self, name: Option<String>, room_config: Option<RoomConfig>) -> (id: u32)
        requires
            old(self).wf(),
            numeric_ids(old(self).rooms@),
        ensures
            final(self).wf(),
            id == max_id(old(self).rooms@) + 1,
            room_index(old(self).rooms@, decimal(id as nat)) >= 0 ==> final(self).rooms@.len()
                == old(self).rooms@.len(),
            room_index(old(self).rooms@, decimal(id as nat)) < 0 ==> final(self).rooms@.len()
                == old(self).rooms@.len() + 1,
            room_index(final(self).rooms@, decimal(id as nat)) >= 0,
            ({
                let r = final(self).rooms@[room_index(final(self).rooms@, decimal(id as nat))];
                &&& r.room_id@ == decimal(id as nat)
                &&& r.name == name
                &&& r.players@.len() == 0
                &&& r.status == RoomStatus::Open
                &&& (room_config matches Some(c) ==> r.room_config == c)
            }),
    {
        let mut m: u32 = 0;
        let n = self.rooms.len();
        let mut i: usize = 0;
        while i < n
            invariant
                n == self.rooms@.len(),
                i <= n,
                numeric_ids(self.rooms@),
                m == max_id(self.rooms@.take(i as int)),
            decreases n - i,
        {
            proof {
                assert(self.rooms@.take(i + 1).drop_last() =~= self.rooms@.take(i as int));
                assert(self.rooms@.take(i + 1).last() == self.rooms@[i as int]);
            }
            let v = match parse_u32(self.rooms[i].room_id.as_str()) {
                Some(v) => v,
                None => 0,
            };
            if v > m {
                m = v;
            }
            i += 1;
        }
        assert(self.rooms@.take(n as int) =~= self.rooms@);
        proof {
            lemma_max_id_bound(self.rooms@);
        }
        let new_id = m + 1;
        let room = Room::new(usize_to_decimal(new_id as usize), name, room_config);
        let ghost before = self.rooms@;
        proof {
            lemma_room_index(before, room.room_id@);
        }
        self.insert(room);
        proof {
            lemma_room_index(self.rooms@, decimal(new_id as nat));
            let k = room_index(before, decimal(new_id as nat));
            if k >= 0 {
                assert(self.rooms@[k] == room);
                assert(room_index(self.rooms@, decimal(new_id as nat)) <= k);
                if room_index(self.rooms@, decimal(new_id as nat)) < k {
                    let j = room_index(self.rooms@, decimal(new_id as nat));
                    assert(self.rooms@[j] == before[j]);
                }
            } else {
                assert(self.rooms@[before.len() as int] == room);
                let j = room_index(self.rooms@, decimal(new_id as nat));
                if j < before.len() {
                    assert(self.rooms@[j] == before[j]);
                }
            }
        }
        new_id
    }

    /// Lets a player into an open room that has space; a player already in
    /// it is taken back under the new name.
    pub fn join_room(&mut self, room_id: &str, player_id: &str, player_name: &str) -> (ok: bool)
        requires
            old(self).wf(),
        ensures
            final(self).wf(),
            ok == (room_index(old(self).rooms@, room_id@) >= 0 && can_join(
                old(self).rooms@[room_index(old(self).rooms@, room_id@)],
            )),
            !ok ==> final(self).rooms@ == old(self).rooms@,
            ok ==> final(self).rooms@[room_index(old(self).rooms@, room_id@)].players@.len()
                <= final(self).rooms@[room_index(old(self).rooms@, room_id@)].max_players,
            ok ==> {
                let k = room_index(old(self).rooms@, room_id@);
                &&& final(self).rooms@ == old(self).rooms@.update(k, final(self).rooms@[k])
                &&& joined(old(self).rooms@[k], final(self).rooms@[k], player_id@, player_name@)
            },
    {
        let k = match find_room(&self.rooms, room_id) {
            Some(k) => k,
            None => return false,
        };
        if self.rooms[k].status != RoomStatus::Open {
            return false;
        }
        if self.rooms[k].players.len() >= self.rooms[k].max_players {
            return false;
        }
        proof {
            lemma_first_index_of(self.rooms@[k as int].players@, player_id@);
        }
        let ghost before = self.rooms@;
        match find_player_index(&self.rooms[k].players, player_id) {
            Some(p) => {
                self.rooms[k].players[p].name = player_name.to_owned();
            },
            None => {
                let player = Player {
                    id: player_id.to_owned(),
                    name: player_name.to_owned(),
                    role: None,
                    is_dead: false,
                    is_ready: false,
                };
                self.rooms[k].players.push(player);
            },
        }
        self.rooms[k].empty_since = None;
        proof {
            assert(self.rooms@ =~= before.update(k as int, self.rooms@[k as int]));
            assert forall|a: int, b: int| 0 <= a < b < self.rooms@.len() implies (
            #[trigger] self.rooms@[a]).room_id@ != (#[trigger] self.rooms@[b]).room_id@ by {
                assert(before[a].room_id@ != before[b].room_id@);
            }
            let p = first_index_of(before[k as int].players@, player_id@);
            if p >= 0 {
                assert(self.rooms@[k as int].players@ =~= before[k as int].players@.update(
                    p,
                    Player { name: self.rooms@[k as int].players@[p].name, ..before[k as int].players@[p] },
                ));
            } else {
                assert(self.rooms@[k as int].players@.drop_last() =~= before[k as int].players@);
            }
        }
        true
    }
}

/// The status a room takes after the player at `k` left it.
pub open spec fn status_after_leave(room: Room, k: int) -> RoomStatus {
    if without(room.players@, k).len() == 0 {
        RoomStatus::Open
    } else if room.status == RoomStatus::Ready {
        RoomStatus::Open
    } else {
        room.status
    }
}

impl RoomTable {
    /// Closes the room `room_id` (a decided game closes its room); false
    /// when there is no such room.
    pub fn close_room(&mut self, room_id: &str) -> (found: bool)
        requires
            old(self).wf(),
        ensures
            final(self).wf(),
            found == (room_index(old(self).rooms@, room_id@) >= 0),
            !found ==> *final(self) == *old(self),
            found ==> final(self).rooms@ == old(self).rooms@.update(
                room_index(old(self).rooms@, room_id@),
                Room { status: RoomStatus::Closed, ..old(self).rooms@[room_index(old(self).rooms@, room_id@)] },
            ),
    {
        let k = match find_room(&self.rooms, room_id) {
            Some(k) => k,
            None => return false,
        };
        let ghost rb = self.rooms@;
        self.rooms[k].status = RoomStatus::Closed;
        proof {
            assert(self.rooms@ =~= rb.update(k as int, Room { status: RoomStatus::Closed, ..rb[k as int] }));
            assert forall|a: int, b: int| 0 <= a < b < self.rooms@.len() implies (
            #[trigger] self.rooms@[a]).room_id@ != (#[trigger] self.rooms@[b]).room_id@ by {
                assert(rb[a].room_id@ != rb[b].room_id@);
            }
        }
        true
    }
}

impl RoomTable {
    /// Takes a player out of a room that is not playing. A room left empty
    /// records when, and becomes open; a ready room becomes open again.
    pub fn leave_room(&mut self, room_id: &str, player_id: &str) -> (r: Result<String, String>)
        requires
            old(self).wf(),
        ensures
            final(self).wf(),
            room_index(old(self).rooms@, room_id@) < 0 ==> r is Err && r->Err_0@
                == "ルームが見つかりません。"@,
            r is Err ==> final(self).rooms@ == old(self).rooms@,
            room_index(old(self).rooms@, room_id@) >= 0 ==> {
                let k = room_index(old(self).rooms@, room_id@);
                let room = old(self).rooms@[k];
                &&& room.status == RoomStatus::InProgress ==> r is Err && r->Err_0@
                    == "ゲーム進行中は退室できません。"@
                &&& room.status != RoomStatus::InProgress && !has_player(room.players@, player_id@)
                    ==> r is Err && r->Err_0@ == "プレイヤーが見つかりません。"@
                &&& r is Ok <==> (room.status != RoomStatus::InProgress && has_player(
                    room.players@,
                    player_id@,
                ))
                &&& r is Ok ==> {
                    let p = first_index_of(room.players@, player_id@);
                    let new_room = final(self).rooms@[k];
                    &&& r->Ok_0@ == "Successfully left room"@
                    &&& final(self).rooms@ == old(self).rooms@.update(k, new_room)
                    &&& new_room == (Room {
                        players: new_room.players,
                        status: status_after_leave(room, p),
                        empty_since: new_room.empty_since,
                        ..room
                    })
                    &&& new_room.players@ == without(room.players@, p)
                    &&& (new_room.players@.len() == 0 ==> new_room.empty_since is Some)
                    &&& (new_room.players@.len() > 0 ==> new_room.empty_since == room.empty_since)
                }
            },
    {
        let k = match find_room(&self.rooms, room_id) {
            Some(k) => k,
            None => return Err("ルームが見つかりません。".to_owned()),
        };
        if self.rooms[k].status == RoomStatus::InProgress {
            return Err("ゲーム進行中は退室できません。".to_owned());
        }
        proof {
            lemma_first_index_of(self.rooms@[k as int].players@, player_id@);
        }
        let p = match find_player_index(&self.rooms[k].players, player_id) {
            Some(p) => p,
            None => return Err("プレイヤーが見つかりません。".to_owned()),
        };
        let ghost before = self.rooms@;
        self.rooms[k].players.remove(p);
        assert(self.rooms@[k as int].players@ =~= without(before[k as int].players@, p as int));
        if self.rooms[k].players.len() == 0 {
            self.rooms[k].empty_since = Some(now_millis());
            self.rooms[k].status = RoomStatus::Open;
        } else if self.rooms[k].status == RoomStatus::Ready {
            self.rooms[k].status = RoomStatus::Open;
        }
        proof {
            assert(self.rooms@ =~= before.update(k as int, self.rooms@[k as int]));
            assert forall|a: int, b: int| 0 <= a < b < self.rooms@.len() implies (
            #[trigger] self.rooms@[a]).room_id@ != (#[trigger] self.rooms@[b]).room_id@ by {
                assert(before[a].room_id@ != before[b].room_id@);
            }
        }
        Ok("Successfully left room".to_owned())
    }

    /// Flips a player's readiness. The room becomes ready when at least four
    /// players are all ready, and open otherwise.
    pub fn toggle_ready(&mut self, room_id: &str, player_id: &str) -> (r: Result<String, String>)
        requires
            old(self).wf(),
        ensures
            final(self).wf(),
            room_index(old(self).rooms@, room_id@) < 0 ==> r is Err && r->Err_0@
                == "ルームが見つかりません。"@,
            r is Err ==> final(self).rooms@ == old(self).rooms@,
            room_index(old(self).rooms@, room_id@) >= 0 ==> {
                let k = room_index(old(self).rooms@, room_id@);
                let room = old(self).rooms@[k];
                &&& !has_player(room.players@, player_id@) ==> r is Err && r->Err_0@
                    == "プレイヤーが見つかりません。"@
                &&& r is Ok <==> has_player(room.players@, player_id@)
                &&& r is Ok ==> {
                    let p = first_index_of(room.players@, player_id@);
                    let new_room = final(self).rooms@[k];
                    &&& final(self).rooms@ == old(self).rooms@.update(k, new_room)
                    &&& new_room.players@ == room.players@.update(
                        p,
                        Player { is_ready: !room.players@[p].is_ready, ..room.players@[p] },
                    )
                    &&& new_room == (Room {
                        players: new_room.players,
                        status: if all_ready(new_room.players@) {
                            RoomStatus::Ready
                        } else {
                            RoomStatus::Open
                        },
                        ..room
                    })
                    &&& r->Ok_0@ == (if all_ready(new_room.players@) {
                        "全員の準備が完了しました。"@
                    } else {
                        "準備状態を切り替えました。"@
                    })
                }
            },
    {
        let k = match find_room(&self.rooms, room_id) {
            Some(k) => k,
            None => return Err("ルームが見つかりません。".to_owned()),
        };
        proof {
            lemma_first_index_of(self.rooms@[k as int].players@, player_id@);
        }
        let p = match find_player_index(&self.rooms[k].players, player_id) {
            Some(p) => p,
            None => return Err("プレイヤーが見つかりません。".to_owned()),
        };
        let ghost before = self.rooms@;
        let flipped = !self.rooms[k].players[p].is_ready;
        self.rooms[k].players[p].is_ready = flipped;
        assert(self.rooms@[k as int].players@ =~= before[k as int].players@.update(
            p as int,
            Player { is_ready: flipped, ..before[k as int].players@[p as int] },
        ));
        let n = self.rooms[k].players.len();
        let mut every = n >= 4;
        let mut i: usize = 0;
        while i < n
            invariant
                k < self.rooms@.len(),
                n == self.rooms@[k as int].players@.len(),
                i <= n,
                every == (n >= 4 && forall|j: int|
                    0 <= j < i ==> (#[trigger] self.rooms@[k as int].players@[j]).is_ready),
            decreases n - i,
        {
            if !self.rooms[k].players[i].is_ready {
                every = false;
            }
            i += 1;
        }
        let msg = if every {
            self.rooms[k].status = RoomStatus::Ready;
            "全員の準備が完了しました。".to_owned()
        } else {
            self.rooms[k].status = RoomStatus::Open;
            "準備状態を切り替えました。".to_owned()
        };
        proof {
            assert(self.rooms@ =~= before.update(k as int, self.rooms@[k as int]));
            assert forall|a: int, b: int| 0 <= a < b < self.rooms@.len() implies (
            #[trigger] self.rooms@[a]).room_id@ != (#[trigger] self.rooms@[b]).room_id@ by {
                assert(before[a].room_id@ != before[b].room_id@);
            }
        }
        Ok(msg)
    }

    /// Whether `requester_id` may delete the room: it exists, is not
    /// playing, and has the requester among its players.
    pub fn check_room_deletion(&self, room_id: &str, requester_id: &str) -> (r: Result<(), String>)
        ensures
            room_index(self.rooms@, room_id@) < 0 ==> r is Err && r->Err_0@
                == "ルームが見つかりません。"@,
            room_index(self.rooms@, room_id@) >= 0 ==> {
                let room = self.rooms@[room_index(self.rooms@, room_id@)];
                &&& room.status == RoomStatus::InProgress ==> r is Err && r->Err_0@
                    == "ゲーム進行中はルームを削除できません。"@
                &&& room.status != RoomStatus::InProgress && !has_player(room.players@, requester_id@)
                    ==> r is Err && r->Err_0@ == "ルーム参加者のみ削除できます。"@
                &&& r is Ok <==> (room.status != RoomStatus::InProgress && has_player(
                    room.players@,
                    requester_id@,
                ))
            },
    {
        let k = match find_room(&self.rooms, room_id) {
            Some(k) => k,
            None => return Err("ルームが見つかりません。".to_owned()),
        };
        if self.rooms[k].status == RoomStatus::InProgress {
            return Err("ゲーム進行中はルームを削除できません。".to_owned());
        }
        proof {
            lemma_first_index_of(self.rooms@[k as int].players@, requester_id@);
        }
        match find_player_index(&self.rooms[k].players, requester_id) {
            Some(_) => Ok(()),
            None => Err("ルーム参加者のみ削除できます。".to_owned()),
        }
    }
}

} // verus!
