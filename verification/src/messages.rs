//! The values that travel between users, instances and storage.

use vstd::prelude::*;

use crate::ids::ChatId;

verus! {

/// A span of time in milliseconds, as the storage layer records message
/// dates and as the envelopes spell them.
pub struct SerializableDuration {
    pub millis: i64,
}

impl Clone for SerializableDuration {
    fn clone(&self) -> (r: Self)
        ensures
            r == self,
    {
        SerializableDuration { millis: self.millis }
    }
}

/// One chat message: the conversation it belongs to, who sent it, when, and
/// its text.  Immutable once constructed and copied freely.
pub struct ChatMessage {
    pub chat_id: ChatId,
    pub sender_id: i64,
    pub date: SerializableDuration,
    pub msg_text: Vec<u8>,
}

impl ChatMessage {
    /// Well-formed messages name a well-formed conversation.
    pub open spec fn wf(&self) -> bool {
        self.chat_id.wf()
    }
}

impl Clone for ChatMessage {
    fn clone(&self) -> (r: Self)
        ensures
            r.chat_id@ == self.chat_id@,
            r.sender_id == self.sender_id,
            r.date == self.date,
            r.msg_text@ == self.msg_text@,
            r.wf() == self.wf(),
    {
        ChatMessage {
            chat_id: self.chat_id.clone(),
            sender_id: self.sender_id,
            date: self.date.clone(),
            msg_text: copy_bytes(&self.msg_text),
        }
    }
}

/// What a user hands in over a live connection: the conversation and the
/// text; the router adds the sender and the date.
pub struct NewChatMessage {
    pub chat_id: ChatId,
    pub msg_text: Vec<u8>,
}

impl NewChatMessage {
    pub open spec fn wf(&self) -> bool {
        self.chat_id.wf()
    }
}

/// A subscribe or unsubscribe notice for one user and one conversation.
pub struct SubscriptionData {
    pub chat_id: ChatId,
    pub user_id: i64,
}

impl SubscriptionData {
    pub open spec fn wf(&self) -> bool {
        self.chat_id.wf()
    }
}

/// Builds the full message from what the user sent, the sender identity the
/// connection authenticated as, and the current time in milliseconds.
pub fn make_chat_message(user_msg: NewChatMessage, sender_id: i64, now_millis: i64) -> (r:
    ChatMessage)
    ensures
        r.chat_id@ == user_msg.chat_id@,
        r.sender_id == sender_id,
        r.date.millis == now_millis,
        r.msg_text@ == user_msg.msg_text@,
        r.wf() == user_msg.wf(),
{
    ChatMessage {
        chat_id: user_msg.chat_id,
        sender_id,
        date: SerializableDuration { millis: now_millis },
        msg_text: user_msg.msg_text,
    }
}

/// An exact copy of a byte string.
pub fn copy_bytes(v: &Vec<u8>) -> (r: Vec<u8>)
    ensures
        r@ == v@,
{
    let r = v.clone();
    proof {
        assert forall|i: int| 0 <= i < v@.len() implies r@[i] == v@[i] by {
            assert(cloned::<u8>(v@[i], r@[i]));
        }
        assert(r@ =~= v@);
    }
    r
}

} // verus!
