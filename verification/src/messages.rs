//! Message records and their mathematical models.
//!
//! A `RoomMessage` is a wire record from the server (historical or live); a
//! `ChatMessage` is an outbound record (the server assigns the timestamp); a
//! `UserMessages` is a visual run: one uninterrupted streak of messages from
//! one author in one room; a `SubMessage` is one entry of such a run.
//! Timestamps are UTC instants counted in non-leap milliseconds since
//! 1970-01-01T00:00:00Z.

use vstd::prelude::*;

verus! {

/// Model of one run entry: content and timestamp.
#[verifier::ext_equal]
pub ghost struct EntryModel {
    pub content: Seq<char>,
    pub timestamp: int,
}

/// Model of a visual run: every entry shares the one author and room.
#[verifier::ext_equal]
pub ghost struct RunModel {
    pub user: Seq<char>,
    pub room: Seq<char>,
    pub entries: Seq<EntryModel>,
}

/// Model of an inbound message record.
#[verifier::ext_equal]
pub ghost struct MsgModel {
    pub user: Seq<char>,
    pub room: Seq<char>,
    pub content: Seq<char>,
    pub timestamp: int,
}

/// Model of an outbound message record (no timestamp: the server assigns it).
#[verifier::ext_equal]
pub ghost struct OutModel {
    pub user: Seq<char>,
    pub room: Seq<char>,
    pub message: Seq<char>,
}

/// One entry of a run: the content and timestamp of a single message. The
/// author and room live on the enclosing `UserMessages`.
pub struct SubMessage {
    pub content: String,
    pub timestamp: i64,
}

/// A run of consecutive messages by one author in one room, displayed as one
/// visual group. The full message sequence of a room can be rebuilt from its
/// runs.
pub struct UserMessages {
    pub user: String,
    pub room: String,
    pub messages: Vec<SubMessage>,
}

/// An inbound message record: author, room, content and server timestamp.
pub struct RoomMessage {
    pub user: String,
    pub room: String,
    pub message: String,
    pub timestamp: i64,
}

/// An outbound message record built from a user intent.
pub struct ChatMessage {
    pub user: String,
    pub room: String,
    pub message: String,
}

impl View for SubMessage {
    type V = EntryModel;

    open spec fn view(&self) -> EntryModel {
        EntryModel { content: self.content@, timestamp: self.timestamp as int }
    }
}

impl DeepView for SubMessage {
    type V = EntryModel;

    open spec fn deep_view(&self) -> EntryModel {
        self@
    }
}

impl View for UserMessages {
    type V = RunModel;

    open spec fn view(&self) -> RunModel {
        RunModel { user: self.user@, room: self.room@, entries: self.messages.deep_view() }
    }
}

impl DeepView for UserMessages {
    type V = RunModel;

    open spec fn deep_view(&self) -> RunModel {
        self@
    }
}

impl View for RoomMessage {
    type V = MsgModel;

    open spec fn view(&self) -> MsgModel {
        MsgModel {
            user: self.user@,
            room: self.room@,
            content: self.message@,
            timestamp: self.timestamp as int,
        }
    }
}

impl DeepView for RoomMessage {
    type V = MsgModel;

    open spec fn deep_view(&self) -> MsgModel {
        self@
    }
}

impl View for ChatMessage {
    type V = OutModel;

    open spec fn view(&self) -> OutModel {
        OutModel { user: self.user@, room: self.room@, message: self.message@ }
    }
}

impl DeepView for ChatMessage {
    type V = OutModel;

    open spec fn deep_view(&self) -> OutModel {
        self@
    }
}

impl Clone for SubMessage {
    fn clone(&self) -> (res: Self)
        ensures
            res == *self,
    {
        SubMessage { content: self.content.clone(), timestamp: self.timestamp }
    }
}

impl Clone for UserMessages {
    fn clone(&self) -> (res: Self)
        ensures
            res@ == self@,
            res.user == self.user,
            res.room == self.room,
    {
        let mut messages: Vec<SubMessage> = Vec::new();
        let mut i: usize = 0;
        while i < self.messages.len()
            invariant
                i <= self.messages.len(),
                messages@ =~= self.messages@.take(i as int),
            decreases self.messages.len() - i,
        {
            messages.push(self.messages[i].clone());
            i = i + 1;
        }
        proof {
            assert(messages@ =~= self.messages@);
        }
        UserMessages { user: self.user.clone(), room: self.room.clone(), messages }
    }
}

impl Clone for RoomMessage {
    fn clone(&self) -> (res: Self)
        ensures
            res == *self,
    {
        RoomMessage {
            user: self.user.clone(),
            room: self.room.clone(),
            message: self.message.clone(),
            timestamp: self.timestamp,
        }
    }
}

impl Clone for ChatMessage {
    fn clone(&self) -> (res: Self)
        ensures
            res == *self,
    {
        ChatMessage {
            user: self.user.clone(),
            room: self.room.clone(),
            message: self.message.clone(),
        }
    }
}

impl SubMessage {
    /// Builds one run entry from a message's content and timestamp.
    pub fn new(content: String, timestamp: i64) -> (res: Self)
        ensures
            res@ == (EntryModel { content: content@, timestamp: timestamp as int }),
    {
        SubMessage { content, timestamp }
    }
}

impl UserMessages {
    /// Opens a fresh, empty run for one author in one room.
    pub fn new(user: String, room: String) -> (res: Self)
        ensures
            res@ == (RunModel { user: user@, room: room@, entries: Seq::<EntryModel>::empty() }),
    {
        let res = UserMessages { user, room, messages: Vec::new() };
        proof {
            assert(res.messages.deep_view() =~= Seq::<EntryModel>::empty());
        }
        res
    }

    /// Extends this run with one more message by its author.
    pub fn add_message(&mut self, content: String, timestamp: i64)
        ensures
            final(self)@ == (RunModel {
                user: old(self)@.user,
                room: old(self)@.room,
                entries: old(self)@.entries.push(
                    EntryModel { content: content@, timestamp: timestamp as int },
                ),
            }),
    {
        let ghost entry = EntryModel { content: content@, timestamp: timestamp as int };
        self.messages.push(SubMessage { content, timestamp });
        proof {
            assert(self.messages.deep_view() =~= old(self)@.entries.push(entry));
        }
    }
}

} // verus!
