//! The storage layer's data types and its decision rules.
//!
//! Queries themselves run outside; what stands here is everything the
//! storage layer decides on plain values: membership checks, who may create
//! a chat with whom, when an emptied chat is deleted, and how query rows
//! become chat messages.

use vstd::prelude::*;

use crate::ids::ChatId;
use crate::messages::{ChatMessage, SerializableDuration, copy_bytes};

verus! {

/// The kind of a conversation.
#[derive(Clone, Copy, PartialEq, Eq, Structural, Debug)]
pub enum ChatType {
    Private,
    Group,
    Reserved,
}

/// `group` as bytes.
pub open spec fn bytes_group() -> Seq<u8> {
    seq![0x67u8, 0x72u8, 0x6fu8, 0x75u8, 0x70u8]
}

/// `private` as bytes.
pub open spec fn bytes_private() -> Seq<u8> {
    seq![0x70u8, 0x72u8, 0x69u8, 0x76u8, 0x61u8, 0x74u8, 0x65u8]
}

/// Reads a stored kind name: `group` and `private` are themselves, anything
/// else is reserved.
pub fn chat_type_from_name(name: &[u8]) -> (r: ChatType)
    ensures
        name@ == bytes_group() ==> r is Group,
        name@ == bytes_private() ==> r is Private,
        name@ != bytes_group() && name@ != bytes_private() ==> r is Reserved,
{
    if name.len() == 5 && name[0] == 0x67 && name[1] == 0x72 && name[2] == 0x6f && name[3] == 0x75
        && name[4] == 0x70 {
        proof {
            assert(name@ =~= bytes_group());
        }
        ChatType::Group
    } else if name.len() == 7 && name[0] == 0x70 && name[1] == 0x72 && name[2] == 0x69 && name[3]
        == 0x76 && name[4] == 0x61 && name[5] == 0x74 && name[6] == 0x65 {
        proof {
            assert(name@ =~= bytes_private());
        }
        ChatType::Private
    } else {
        proof {
            if name@ == bytes_group() {
                assert(name@.len() == 5);
                assert(name@[0] == 0x67 && name@[1] == 0x72 && name@[2] == 0x6f && name@[3] == 0x75
                    && name@[4] == 0x70);
            }
            if name@ == bytes_private() {
                assert(name@.len() == 7);
                assert(name@[0] == 0x70 && name@[1] == 0x72 && name@[2] == 0x69 && name@[3] == 0x76
                    && name@[4] == 0x61 && name@[5] == 0x74 && name@[6] == 0x65);
            }
        }
        ChatType::Reserved
    }
}

/// The stored name of a kind.
pub fn chat_type_name(t: ChatType) -> (r: &'static str)
    ensures
        t is Group ==> r@ == "group"@,
        t is Private ==> r@ == "private"@,
        t is Reserved ==> r@ == "reserved"@,
{
    match t {
        ChatType::Group => "group",
        ChatType::Private => "private",
        ChatType::Reserved => "reserved",
    }
}

/// What went wrong in the storage layer: the service's own rules refused the
/// request, the query failed, or something else did.
#[derive(Debug)]
pub enum DBError {
    LogicError(String),
    QueryError(String),
    OtherError(String),
}

impl DBError {
    /// A one-line account of the error, prefix and message.
    pub fn describe(&self) -> (r: String)
        ensures
            self matches DBError::LogicError(m) ==> r@ == "Logic error: "@ + m@,
            self matches DBError::QueryError(m) ==> r@ == "Query error: "@ + m@,
            self matches DBError::OtherError(m) ==> r@ == "Other error: "@ + m@,
    {
        match self {
            DBError::LogicError(m) => String::from_str("Logic error: ").concat(m.as_str()),
            DBError::QueryError(m) => String::from_str("Query error: ").concat(m.as_str()),
            DBError::OtherError(m) => String::from_str("Other error: ").concat(m.as_str()),
        }
    }

    /// The message alone.
    pub fn message(&self) -> (r: &String)
        ensures
            self matches DBError::LogicError(m) ==> r@ == m@,
            self matches DBError::QueryError(m) ==> r@ == m@,
            self matches DBError::OtherError(m) ==> r@ == m@,
    {
        match self {
            DBError::LogicError(m) => m,
            DBError::QueryError(m) => m,
            DBError::OtherError(m) => m,
        }
    }
}

/// The HTTP status a handler answers with: its own status for a rule
/// refusal, internal server error for everything else.
pub fn error_status(e: &DBError, logic_status: u16) -> (r: u16)
    ensures
        e is LogicError ==> r == logic_status,
        !(e is LogicError) ==> r == 500,
{
    match e {
        DBError::LogicError(_) => logic_status,
        _ => 500,
    }
}

/// The result of a storage call.
pub type DBResult<T> = Result<T, DBError>;

/// An opaque cursor into a paged chat history.
pub struct PageIndex {
    pub index: Option<Vec<u8>>,
}

impl PageIndex {
    pub fn new(index: Option<Vec<u8>>) -> (r: PageIndex)
        ensures
            r.index == index,
    {
        PageIndex { index }
    }

    pub fn into_inner(self) -> (r: Option<Vec<u8>>)
        ensures
            r == self.index,
    {
        self.index
    }
}

/// What the storage layer knows of one user.
pub struct UserInfo {
    pub id: i64,
    pub name: String,
    pub chats: Vec<ChatId>,
}

/// What the storage layer knows of one conversation.
pub struct ChatInfo {
    pub id: ChatId,
    pub name: String,
    pub users: Vec<i64>,
    pub chat_type: ChatType,
}

/// Whether `chat` stands in a user's membership list.
pub fn check_membership(user_chats: &Vec<ChatId>, chat: &ChatId) -> (r: bool)
    ensures
        r <==> exists|i: int| 0 <= i < user_chats@.len() && user_chats@[i]@ == chat@,
{
    let mut i: usize = 0;
    while i < user_chats.len()
        invariant
            i <= user_chats@.len(),
            forall|j: int| 0 <= j < i ==> user_chats@[j]@ != chat@,
        decreases user_chats@.len() - i,
    {
        if user_chats[i] == *chat {
            return true;
        }
        i = i + 1;
    }
    false
}

/// Whether `user` stands in a user list.
pub fn contains_user(list: &Vec<i64>, user: i64) -> (r: bool)
    ensures
        r <==> list@.contains(user),
{
    let mut i: usize = 0;
    while i < list.len()
        invariant
            i <= list@.len(),
            forall|j: int| 0 <= j < i ==> list@[j] != user,
        decreases list@.len() - i,
    {
        if list[i] == user {
            return true;
        }
        i = i + 1;
    }
    proof {
        if list@.contains(user) {
            let j = choose|j: int| 0 <= j < list@.len() && list@[j] == user;
        }
    }
    false
}

/// Whether every listed user is registered.
pub fn all_registered(users: &Vec<i64>, registered: &Vec<i64>) -> (r: bool)
    ensures
        r <==> forall|i: int| 0 <= i < users@.len() ==> registered@.contains(#[trigger] users@[i]),
{
    let mut i: usize = 0;
    while i < users.len()
        invariant
            i <= users@.len(),
            forall|j: int| 0 <= j < i ==> registered@.contains(#[trigger] users@[j]),
        decreases users@.len() - i,
    {
        if !contains_user(registered, users[i]) {
            return false;
        }
        i = i + 1;
    }
    true
}

/// The member list of a new chat: the invited users and the creator.
pub fn chat_participants(creator: i64, invited: Vec<i64>) -> (r: Vec<i64>)
    ensures
        r@ == invited@.push(creator),
{
    let mut v = invited;
    v.push(creator);
    v
}

/// Admits a new chat exactly when the creator and every invited user are
/// registered; the member list is then the invited users and the creator.
/// Anything else is refused as a rule violation.
pub fn validate_chat_creation(creator: i64, invited: Vec<i64>, registered: &Vec<i64>) -> (r: Result<
    Vec<i64>,
    DBError,
>)
    ensures
        r matches Ok(v) ==> v@ == invited@.push(creator) && forall|i: int|
            0 <= i < v@.len() ==> registered@.contains(#[trigger] v@[i]),
        r matches Err(e) ==> (e matches DBError::LogicError(m) && m@
            == "Invited user is not registered"@) && exists|i: int|
            0 <= i < invited@.push(creator).len() && !registered@.contains(
                #[trigger] invited@.push(creator)[i],
            ),
{
    let participants = chat_participants(creator, invited);
    if all_registered(&participants, registered) {
        Ok(participants)
    } else {
        Err(DBError::LogicError(String::from_str("Invited user is not registered")))
    }
}

/// An emptied chat is deleted: nobody left, or no member set at all.
pub fn should_delete_chat(users: &Option<Vec<i64>>) -> (r: bool)
    ensures
        r <==> (users is None || (users matches Some(v) && v@.len() == 0)),
{
    match users {
        None => true,
        Some(v) => v.len() == 0,
    }
}

/// One row of a chat history query: sender, date, text.
pub struct MessageRow {
    pub sender_id: i64,
    pub date_millis: i64,
    pub text: Vec<u8>,
}

/// Turns history rows back into the messages of one conversation.
pub fn assemble_history(chat: &ChatId, rows: &Vec<MessageRow>) -> (r: Vec<ChatMessage>)
    requires
        chat.wf(),
    ensures
        r@.len() == rows@.len(),
        forall|i: int|
            0 <= i < r@.len() ==> {
                &&& (#[trigger] r@[i]).chat_id@ == chat@
                &&& r@[i].sender_id == rows@[i].sender_id
                &&& r@[i].date.millis == rows@[i].date_millis
                &&& r@[i].msg_text@ == rows@[i].text@
                &&& r@[i].wf()
            },
{
    let mut out: Vec<ChatMessage> = Vec::new();
    let mut i: usize = 0;
    while i < rows.len()
        invariant
            chat.wf(),
            i <= rows@.len(),
            out@.len() == i,
            forall|j: int|
                0 <= j < i ==> {
                    &&& (#[trigger] out@[j]).chat_id@ == chat@
                    &&& out@[j].sender_id == rows@[j].sender_id
                    &&& out@[j].date.millis == rows@[j].date_millis
                    &&& out@[j].msg_text@ == rows@[j].text@
                    &&& out@[j].wf()
                },
        decreases rows@.len() - i,
    {
        out.push(
            ChatMessage {
                chat_id: chat.clone(),
                sender_id: rows[i].sender_id,
                date: SerializableDuration { millis: rows[i].date_millis },
                msg_text: copy_bytes(&rows[i].text),
            },
        );
        i = i + 1;
    }
    out
}

/// What the authorization step does with the user lookup: answer with the
/// record, create the account when the lookup says it does not exist, or
/// fail outright.
pub enum AuthStep {
    Respond(UserInfo),
    CreateUser,
    Fail(DBError),
}

/// Decides the authorization step from the user lookup's outcome.
pub fn authorize_step(looked_up: DBResult<UserInfo>) -> (r: AuthStep)
    ensures
        looked_up matches Ok(info) ==> r matches AuthStep::Respond(i) && i == info,
        looked_up matches Err(e) ==> ((e is LogicError ==> r is CreateUser) && (!(e
            is LogicError) ==> (r matches AuthStep::Fail(f) && f == e))),
{
    match looked_up {
        Ok(info) => AuthStep::Respond(info),
        Err(DBError::LogicError(_)) => AuthStep::CreateUser,
        Err(e) => AuthStep::Fail(e),
    }
}

} // verus!
