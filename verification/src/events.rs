//! Room events sent over WebSockets: the bounded history kept per room for
//! clients that reconnect, which events a connected player may see, and how
//! an incoming chat message is taken in.

use vstd::prelude::*;
use crate::chat::{ChatMessage, ChatMessageType};
use crate::chain::{json_field, json_string_field};
use crate::support::{str_eq, first_where, lemma_first_where, lemma_filter_take_step};
use crate::text::{trim, trim_spec};

verus! {

/// How many events of a room are kept for replay.
pub const ROOM_EVENT_HISTORY_LIMIT: usize = 512;

/// A room event as sent to clients. `payload` is the event's JSON text.
#[derive(Debug)]
pub struct RoomEventEnvelope {
    pub event_id: u64,
    pub room_id: String,
    pub timestamp: String,
    pub payload: String,
}

impl Clone for RoomEventEnvelope {
    fn clone(&self) -> (r: Self)
        ensures
            r == *self,
    {
        RoomEventEnvelope {
            event_id: self.event_id,
            room_id: self.room_id.clone(),
            timestamp: self.timestamp.clone(),
            payload: self.payload.clone(),
        }
    }
}

/// The events of one room: the id given to the last one, and the latest
/// events, oldest first.
pub struct RoomEventStore {
    pub next_event_id: u64,
    pub events: Vec<RoomEventEnvelope>,
}

/// Ids strictly increase along `events`, and none is above `last_id`.
pub open spec fn ids_increasing(events: Seq<RoomEventEnvelope>, last_id: u64) -> bool {
    &&& forall|i: int, j: int| 0 <= i < j < events.len() ==> #[trigger] events[i].event_id < #[trigger] events[j].event_id
    &&& forall|i: int| 0 <= i < events.len() ==> #[trigger] events[i].event_id <= last_id
}

/// The events a client that saw `last_event_id` has missed.
pub open spec fn events_after(events: Seq<RoomEventEnvelope>, last_event_id: u64) -> Seq<RoomEventEnvelope> {
    events.filter(|e: RoomEventEnvelope| e.event_id > last_event_id)
}

/// The history after `e` is added to `events`: the latest events, at most
/// the limit.
pub open spec fn history_after(events: Seq<RoomEventEnvelope>, e: RoomEventEnvelope) -> Seq<RoomEventEnvelope> {
    let all = events.push(e);
    if all.len() > ROOM_EVENT_HISTORY_LIMIT {
        all.skip(all.len() - ROOM_EVENT_HISTORY_LIMIT)
    } else {
        all
    }
}

impl RoomEventStore {
    pub open spec fn wf(self) -> bool {
        &&& self.events@.len() <= ROOM_EVENT_HISTORY_LIMIT
        &&& ids_increasing(self.events@, self.next_event_id)
    }

    /// A room with no events yet.
    pub fn new() -> (s: Self)
        ensures
            s.wf(),
            s.next_event_id == 0,
            s.events@.len() == 0,
    {
        RoomEventStore { next_event_id: 0, events: Vec::new() }
    }

    /// Records an event of room `room_id` at `timestamp`: it gets the next id
    /// and joins the history, whose oldest event leaves when the history is
    /// over the limit. Returns the event.
    pub fn create_room_event(&mut self, room_id: &str, timestamp: String, payload: String) -> (e: RoomEventEnvelope)
        requires
            old(self).wf(),
            old(self).next_event_id < u64::MAX,
        ensures
            final(self).wf(),
            e.event_id == old(self).next_event_id + 1,
            final(self).next_event_id == e.event_id,
            e.room_id@ == room_id@,
            e.timestamp == timestamp,
            e.payload == payload,
            final(self).events@ == history_after(old(self).events@, e),
    {
        self.next_event_id = self.next_event_id + 1;
        let event = RoomEventEnvelope {
            event_id: self.next_event_id,
            room_id: room_id.to_owned(),
            timestamp,
            payload,
        };
        let ghost before = self.events@;
        self.events.push(event.clone());
        if self.events.len() > ROOM_EVENT_HISTORY_LIMIT {
            self.events.remove(0);
            assert(self.events@ =~= before.push(event).skip(1));
        }
        event
    }

    /// The kept events with an id above `last_event_id`, oldest first.
    pub fn replay_since(&self, last_event_id: u64) -> (r: Vec<RoomEventEnvelope>)
        ensures
            r@ == events_after(self.events@, last_event_id),
    {
        let mut out: Vec<RoomEventEnvelope> = Vec::new();
        let n = self.events.len();
        let mut i: usize = 0;
        while i < n
            invariant
                n == self.events@.len(),
                i <= n,
                out@ == events_after(self.events@.take(i as int), last_event_id),
            decreases n - i,
        {
            proof {
                lemma_filter_take_step(self.events@, |e: RoomEventEnvelope| e.event_id > last_event_id, i as int);
            }
            if self.events[i].event_id > last_event_id {
                out.push(self.events[i].clone());
            }
            i += 1;
        }
        assert(self.events@.take(n as int) =~= self.events@);
        out
    }
}

/// One room's event store, named by the room.
pub struct RoomEventLog {
    pub room_id: String,
    pub store: RoomEventStore,
}

/// The event stores of all rooms.
pub struct RoomEventStores {
    pub rooms: Vec<RoomEventLog>,
}

pub open spec fn log_index(s: Seq<RoomEventLog>, room_id: Seq<char>) -> int {
    first_where(s, |l: RoomEventLog| l.room_id@ == room_id)
}

fn find_log(logs: &Vec<RoomEventLog>, room_id: &str) -> (r: Option<usize>)
    ensures
        match r {
            Some(k) => k == log_index(logs@, room_id@) && k < logs@.len(),
            None => log_index(logs@, room_id@) < 0,
        },
{
    let ghost p = |l: RoomEventLog| l.room_id@ == room_id@;
    proof {
        lemma_first_where(logs@, p);
    }
    let n = logs.len();
    let mut i: usize = 0;
    while i < n
        invariant
            n == logs@.len(),
            i <= n,
            p == (|l: RoomEventLog| l.room_id@ == room_id@),
            forall|k: int| 0 <= k < i ==> !p(#[trigger] logs@[k]),
            -1 <= first_where(logs@, p) < logs@.len(),
            first_where(logs@, p) >= 0 ==> p(logs@[first_where(logs@, p)]),
            first_where(logs@, p) < 0 <==> forall|j: int| 0 <= j < logs@.len() ==> !p(#[trigger] logs@[j]),
            forall|j: int| 0 <= j < first_where(logs@, p) ==> !p(#[trigger] logs@[j]),
        decreases n - i,
    {
        if str_eq(logs[i].room_id.as_str(), room_id) {
            assert(p(logs@[i as int]));
            return Some(i);
        }
        i += 1;
    }
    None
}

impl RoomEventStores {
    /// Room names are distinct and every store is well formed.
    pub open spec fn wf(self) -> bool {
        &&& forall|i: int, j: int|
            0 <= i < j < self.rooms@.len() ==> #[trigger] self.rooms@[i].room_id@ != #[trigger] self.rooms@[j].room_id@
        &&& forall|i: int| 0 <= i < self.rooms@.len() ==> #[trigger] self.rooms@[i].store.wf()
    }

    /// The kept events of room `room_id`; none where the room has no store.
    pub open spec fn events_of(self, room_id: Seq<char>) -> Seq<RoomEventEnvelope> {
        let k = log_index(self.rooms@, room_id);
        if k >= 0 {
            self.rooms@[k].store.events@
        } else {
            Seq::empty()
        }
    }

    pub fn new() -> (s: Self)
        ensures
            s.wf(),
            s.rooms@.len() == 0,
    {
        RoomEventStores { rooms: Vec::new() }
    }

    /// Drops the store of room `room_id` (its room was cleaned up); false
    /// when it had none. The other rooms' stores stay, in order.
    pub fn remove_room(&mut self, room_id: &str) -> (found: bool)
        requires
            old(self).wf(),
        ensures
            final(self).wf(),
            found == (log_index(old(self).rooms@, room_id@) >= 0),
            found ==> final(self).rooms@ == old(self).rooms@.remove(log_index(old(self).rooms@, room_id@)),
            !found ==> final(self).rooms@ == old(self).rooms@,
            final(self).events_of(room_id@).len() == 0,
    {
        proof {
            lemma_first_where(self.rooms@, |l: RoomEventLog| l.room_id@ == room_id@);
        }
        match find_log(&self.rooms, room_id) {
            Some(k) => {
                let ghost before = self.rooms@;
                self.rooms.remove(k);
                proof {
                    assert forall|i: int, j: int| 0 <= i < j < self.rooms@.len() implies #[trigger] self.rooms@[i].room_id@
                        != #[trigger] self.rooms@[j].room_id@ by {
                        let i1 = if i < k { i } else { i + 1 };
                        let j1 = if j < k { j } else { j + 1 };
                        assert(self.rooms@[i] == before[i1] && self.rooms@[j] == before[j1]);
                    }
                    assert forall|i: int| 0 <= i < self.rooms@.len() implies #[trigger] self.rooms@[i].store.wf() by {
                        let i1 = if i < k { i } else { i + 1 };
                        assert(self.rooms@[i] == before[i1]);
                    }
                    lemma_first_where(self.rooms@, |l: RoomEventLog| l.room_id@ == room_id@);
                    if log_index(self.rooms@, room_id@) >= 0 {
                        let m = log_index(self.rooms@, room_id@);
                        let m1 = if m < k { m } else { m + 1 };
                        assert(self.rooms@[m] == before[m1]);
                        assert(before[m1].room_id@ == room_id@);
                        assert(before[k as int].room_id@ == room_id@);
                    }
                }
                true
            },
            None => false,
        }
    }

    /// Records an event of room `room_id`, making the room's store on its
    /// first event. The other rooms' stores are unchanged.
    pub fn create_room_event(&mut self, room_id: &str, timestamp: String, payload: String) -> (e: RoomEventEnvelope)
        requires
            old(self).wf(),
            log_index(old(self).rooms@, room_id@) >= 0 ==> old(self).rooms@[log_index(
                old(self).rooms@,
                room_id@,
            )].store.next_event_id < u64::MAX,
        ensures
            final(self).wf(),
            log_index(final(self).rooms@, room_id@) >= 0,
            ({
                let before = if log_index(old(self).rooms@, room_id@) >= 0 {
                    old(self).rooms@[log_index(old(self).rooms@, room_id@)].store.next_event_id
                } else {
                    0
                };
                let before_events = if log_index(old(self).rooms@, room_id@) >= 0 {
                    old(self).rooms@[log_index(old(self).rooms@, room_id@)].store.events@
                } else {
                    Seq::empty()
                };
                let after = final(self).rooms@[log_index(final(self).rooms@, room_id@)].store;
                &&& e.event_id == before + 1
                &&& after.next_event_id == e.event_id
                &&& after.events@ == history_after(before_events, e)
            }),
            e.room_id@ == room_id@,
            e.timestamp == timestamp,
            e.payload == payload,
            forall|r: Seq<char>|
                r != room_id@ && #[trigger] log_index(old(self).rooms@, r) >= 0 ==> log_index(final(self).rooms@, r)
                    >= 0 && final(self).rooms@[log_index(final(self).rooms@, r)] == old(self).rooms@[log_index(
                    old(self).rooms@,
                    r,
                )],
    {
        proof {
            lemma_first_where(self.rooms@, |l: RoomEventLog| l.room_id@ == room_id@);
        }
        let ghost start = self.rooms@;
        let k = match find_log(&self.rooms, room_id) {
            Some(k) => k,
            None => {
                let ghost before = self.rooms@;
                self.rooms.push(RoomEventLog { room_id: room_id.to_owned(), store: RoomEventStore::new() });
                proof {
                    let p = |l: RoomEventLog| l.room_id@ == room_id@;
                    lemma_first_where(before, p);
                    lemma_first_where(self.rooms@, p);
                    assert(self.rooms@.drop_last() =~= before);
                    assert forall|r: Seq<char>| r != room_id@ implies #[trigger] log_index(self.rooms@, r)
                        == log_index(before, r) by {
                        assert(self.rooms@.drop_last() =~= before);
                    }
                }
                self.rooms.len() - 1
            },
        };
        let ghost mid = self.rooms@;
        let e = self.rooms[k].store.create_room_event(room_id, timestamp, payload);
        proof {
            assert(self.rooms@ =~= mid.update(k as int, self.rooms@[k as int]));
            assert forall|r: Seq<char>| #[trigger] log_index(self.rooms@, r) == log_index(mid, r) by {
                let p = |l: RoomEventLog| l.room_id@ == r;
                assert(self.rooms@.map_values(|l: RoomEventLog| l.room_id@) =~= mid.map_values(
                    |l: RoomEventLog| l.room_id@,
                ));
                lemma_same_names_same_index(self.rooms@, mid, r);
            }
            assert forall|j: int| 0 <= j < start.len() implies #[trigger] mid[j] == start[j] by {
                if mid.len() > start.len() {
                    assert(mid.drop_last() =~= start);
                }
            }
            assert forall|r: Seq<char>|
                r != room_id@ && #[trigger] log_index(start, r) >= 0 implies log_index(self.rooms@, r) >= 0
                    && self.rooms@[log_index(self.rooms@, r)] == start[log_index(start, r)] by {
                let p = |l: RoomEventLog| l.room_id@ == r;
                lemma_first_where(start, p);
                if mid.len() > start.len() {
                    assert(mid.drop_last() =~= start);
                    lemma_prefix_index(mid, start, r);
                }
            }
        }
        e
    }

    /// The events of room `room_id` with an id above `last_event_id`, oldest
    /// first; none for a room without events.
    pub fn replay_room_events_since(&self, room_id: &str, last_event_id: u64) -> (r: Vec<RoomEventEnvelope>)
        ensures
            r@ == events_after(self.events_of(room_id@), last_event_id),
    {
        match find_log(&self.rooms, room_id) {
            Some(k) => self.rooms[k].store.replay_since(last_event_id),
            None => {
                let r: Vec<RoomEventEnvelope> = Vec::new();
                assert(r@ =~= events_after(Seq::empty(), last_event_id));
                r
            },
        }
    }
}

/// Two lists of logs with the same room names find a room at the same place.
proof fn lemma_same_names_same_index(a: Seq<RoomEventLog>, b: Seq<RoomEventLog>, r: Seq<char>)
    requires
        a.len() == b.len(),
        forall|i: int| 0 <= i < a.len() ==> #[trigger] a[i].room_id@ == b[i].room_id@,
    ensures
        log_index(a, r) == log_index(b, r),
    decreases a.len(),
{
    if a.len() > 0 {
        lemma_same_names_same_index(a.drop_last(), b.drop_last(), r);
    }
}

/// A room found in a prefix is found at the same place in the whole list.
proof fn lemma_prefix_index(a: Seq<RoomEventLog>, b: Seq<RoomEventLog>, r: Seq<char>)
    requires
        b.len() + 1 == a.len(),
        a.drop_last() == b,
        log_index(b, r) >= 0,
    ensures
        log_index(a, r) == log_index(b, r),
{
}

/// Events in a store stay within the limit, and their ids strictly increase.
pub proof fn lemma_history_bounded(s: RoomEventStore)
    requires
        s.wf(),
    ensures
        s.events@.len() <= ROOM_EVENT_HISTORY_LIMIT,
        forall|i: int, j: int| 0 <= i < j < s.events@.len() ==> s.events@[i].event_id < s.events@[j].event_id,
{
}

/// An event just recorded is the last event replayed to any client that saw
/// an earlier id.
pub proof fn lemma_recorded_event_replayed(events: Seq<RoomEventEnvelope>, e: RoomEventEnvelope, last_event_id: u64)
    requires
        last_event_id < e.event_id,
    ensures
        events_after(history_after(events, e), last_event_id).len() > 0,
        events_after(history_after(events, e), last_event_id).last() == e,
{
    let all = events.push(e);
    let h = history_after(events, e);
    let p = |x: RoomEventEnvelope| x.event_id > last_event_id;
    assert(h.len() > 0 && h.last() == e) by {
        if all.len() > ROOM_EVENT_HISTORY_LIMIT {
            assert(h.last() == all.last());
        }
    }
    reveal(Seq::filter);
    assert(h.drop_last().push(h.last()) =~= h);
    assert(h.filter(p) == h.drop_last().filter(p).push(e));
}

/// Whether a connected player may see an event whose payload is `payload`:
/// every event but a computation result goes to everybody; a computation
/// result with a target goes to that player only.
pub open spec fn may_see(payload: Seq<char>, connected_player_id: Option<Seq<char>>) -> bool {
    let message_type = json_string_field(payload, "message_type"@);
    if !(message_type is Ok && message_type->Ok_0 == Some("computation_result"@)) {
        true
    } else {
        let target = json_string_field(payload, "target_player_id"@);
        if target is Ok && target->Ok_0 is Some {
            connected_player_id == Some(target->Ok_0->Some_0)
        } else {
            true
        }
    }
}

pub fn should_send_event_to_player(payload: &str, connected_player_id: Option<&str>) -> (r: bool)
    ensures
        r == may_see(
            payload@,
            match connected_player_id {
                Some(p) => Some(p@),
                None => None,
            },
        ),
{
    let message_type = json_field(payload, "message_type");
    let is_result = match &message_type {
        Ok(Some(t)) => str_eq(t.as_str(), "computation_result"),
        _ => false,
    };
    if !is_result {
        return true;
    }
    match json_field(payload, "target_player_id") {
        Ok(Some(target)) => match connected_player_id {
            Some(connected) => str_eq(connected, target.as_str()),
            None => false,
        },
        _ => true,
    }
}

/// A chat message as a client sends it over the socket.
#[derive(Debug)]
pub struct WebSocketMessage {
    pub message_type: String,
    pub player_id: String,
    pub player_name: String,
    pub content: String,
    pub timestamp: String,
    pub room_id: String,
}

/// The chat kind a message type names; anything unknown is public.
pub open spec fn chat_type_of(message_type: Seq<char>) -> ChatMessageType {
    if message_type == "wolf"@ {
        ChatMessageType::Wolf
    } else if message_type == "private"@ {
        ChatMessageType::Private
    } else if message_type == "system"@ {
        ChatMessageType::System
    } else {
        ChatMessageType::Public
    }
}

impl WebSocketMessage {
    /// The chat message to store for this socket message.
    pub fn to_chat_message(&self) -> (m: ChatMessage)
        ensures
            m.player_id@ == self.player_id@,
            m.player_name@ == self.player_name@,
            m.content@ == self.content@,
            m.message_type == chat_type_of(self.message_type@),
    {
        let t = self.message_type.as_str();
        let message_type = if str_eq(t, "wolf") {
            ChatMessageType::Wolf
        } else if str_eq(t, "private") {
            ChatMessageType::Private
        } else if str_eq(t, "system") {
            ChatMessageType::System
        } else {
            ChatMessageType::Public
        };
        ChatMessage::new(self.player_id.clone(), self.player_name.clone(), self.content.clone(), message_type)
    }

    /// A message received on the socket of room `room_id`: a blank sender
    /// becomes the connection's own id, and the room is the socket's.
    pub fn received_in(self, room_id: &str, default_player_id: &str) -> (m: Self)
        ensures
            m.player_id@ == (if trim_spec(self.player_id@).len() == 0 {
                default_player_id@
            } else {
                self.player_id@
            }),
            m.room_id@ == room_id@,
            m.message_type == self.message_type,
            m.player_name == self.player_name,
            m.content == self.content,
            m.timestamp == self.timestamp,
    {
        let blank = trim(self.player_id.as_str()).unicode_len() == 0;
        let player_id = if blank {
            default_player_id.to_owned()
        } else {
            self.player_id
        };
        WebSocketMessage {
            message_type: self.message_type,
            player_id,
            player_name: self.player_name,
            content: self.content,
            timestamp: self.timestamp,
            room_id: room_id.to_owned(),
        }
    }

    /// The error the server publishes in room `room_id` when a socket message
    /// cannot be read; `reason` is the parser's message.
    pub fn format_error(reason: &str, timestamp: String, room_id: &str) -> (m: Self)
        ensures
            m.message_type@ == "error"@,
            m.player_id@ == "system"@,
            m.player_name@ == "System"@,
            m.content@ == "メッセージのフォーマットが不正です: "@ + reason@,
            m.timestamp == timestamp,
            m.room_id@ == room_id@,
    {
        WebSocketMessage {
            message_type: "error".to_owned(),
            player_id: "system".to_owned(),
            player_name: "System".to_owned(),
            content: "メッセージのフォーマットが不正です: ".to_owned().concat(reason),
            timestamp,
            room_id: room_id.to_owned(),
        }
    }
}

} // verus!
