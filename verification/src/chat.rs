//! Chat messages of a room or game.

use vstd::prelude::*;
use crate::support::{new_uuid_string, now_millis, lemma_filter_take_step};

verus! {

#[derive(Debug, Clone, Copy, PartialEq, Eq, Structural)]
pub enum ChatMessageType {
    /// Day-time chat visible to everybody.
    Public,
    /// Night-time chat among werewolves.
    Wolf,
    /// A message meant for one player only.
    Private,
    /// A message written by the server.
    System,
}

/// A chat message. `timestamp` is in milliseconds since the Unix epoch.
#[derive(Debug)]
pub struct ChatMessage {
    pub message_id: String,
    pub player_id: String,
    pub player_name: String,
    pub content: String,
    pub timestamp: i64,
    pub message_type: ChatMessageType,
}

impl Clone for ChatMessage {
    fn clone(&self) -> (r: Self)
        ensures
            r == *self,
    {
        ChatMessage {
            message_id: self.message_id.clone(),
            player_id: self.player_id.clone(),
            player_name: self.player_name.clone(),
            content: self.content.clone(),
            timestamp: self.timestamp,
            message_type: self.message_type,
        }
    }
}

impl ChatMessage {
    /// A new message with a fresh id, stamped with the current time.
    pub fn new(
        player_id: String,
        player_name: String,
        content: String,
        message_type: ChatMessageType,
    ) -> (m: Self)
        ensures
            m.player_id == player_id,
            m.player_name == player_name,
            m.content == content,
            m.message_type == message_type,
    {
        ChatMessage {
            message_id: new_uuid_string(),
            player_id,
            player_name,
            content,
            timestamp: now_millis(),
            message_type,
        }
    }
}

/// A message written by the server: sender `system`, named `System`.
pub open spec fn is_system_message(m: ChatMessage, content: Seq<char>) -> bool {
    &&& m.player_id@ == "system"@
    &&& m.player_name@ == "System"@
    &&& m.content@ == content
    &&& m.message_type == ChatMessageType::System
}

#[derive(Debug)]
pub struct ChatLog {
    pub room_id: String,
    pub messages: Vec<ChatMessage>,
}

impl Clone for ChatLog {
    fn clone(&self) -> (r: Self)
        ensures
            r.room_id == self.room_id,
            r.messages@ == self.messages@,
    {
        let messages = self.messages.clone();
        assert(messages@ =~= self.messages@);
        ChatLog { room_id: self.room_id.clone(), messages }
    }
}

impl ChatLog {
    pub fn new(room_id: String) -> (log: Self)
        ensures
            log.room_id == room_id,
            log.messages@.len() == 0,
    {
        ChatLog { room_id, messages: Vec::new() }
    }

    pub fn add_message(&mut self, message: ChatMessage)
        ensures
            final(self).room_id == old(self).room_id,
            final(self).messages@ == old(self).messages@.push(message),
    {
        self.messages.push(message);
    }

    /// Appends a message from the server with the given text.
    pub fn add_system_message(&mut self, content: String)
        ensures
            final(self).room_id == old(self).room_id,
            final(self).messages@.len() == old(self).messages@.len() + 1,
            final(self).messages@.drop_last() == old(self).messages@,
            is_system_message(final(self).messages@.last(), content@),
    {
        let m = ChatMessage::new(
            "system".to_owned(),
            "System".to_owned(),
            content,
            ChatMessageType::System,
        );
        self.add_message(m);
        assert(self.messages@.drop_last() =~= old(self).messages@);
    }

    /// The messages of one type, in order.
    pub fn get_messages_by_type(&self, message_type: ChatMessageType) -> (r: Vec<&ChatMessage>)
        ensures
            r@.len() == self.messages@.filter(|m: ChatMessage| m.message_type == message_type).len(),
            forall|i: int|
                0 <= i < r@.len() ==> *r@[i] == self.messages@.filter(
                    |m: ChatMessage| m.message_type == message_type,
                )[i],
    {
        let ghost p = |m: ChatMessage| m.message_type == message_type;
        let mut out: Vec<&ChatMessage> = Vec::new();
        let n = self.messages.len();
        let mut i: usize = 0;
        while i < n
            invariant
                n == self.messages@.len(),
                i <= n,
                p == (|m: ChatMessage| m.message_type == message_type),
                out@.len() == self.messages@.take(i as int).filter(p).len(),
                forall|k: int|
                    0 <= k < out@.len() ==> *out@[k] == self.messages@.take(i as int).filter(p)[k],
            decreases n - i,
        {
            proof {
                lemma_filter_take_step(self.messages@, p, i as int);
            }
            let m = &self.messages[i];
            if m.message_type == message_type {
                out.push(m);
                assert(p(self.messages@[i as int]));
            } else {
                assert(!p(self.messages@[i as int]));
            }
            i += 1;
        }
        assert(self.messages@.take(n as int) =~= self.messages@);
        out
    }
}

} // verus!
