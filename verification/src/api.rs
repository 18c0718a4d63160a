//! The request and response shapes of the HTTP handlers, and the reading of
//! the authenticated user identity out of a request header.

use vstd::prelude::*;

use crate::database::{PageIndex, UserInfo};
use crate::ids::ChatId;
use crate::numbers::{int_literal, literal_value, parse_i64_flexible};

verus! {

/// A user name, as the authorization request carries it.
pub struct UserName {
    pub user_name: String,
}

/// A user identity, as the user info request carries it.
pub struct UserId {
    pub user_id: i64,
}

/// What the user info request answers: the record without the chat list.
pub struct UserInfoStripped {
    pub id: i64,
    pub name: String,
}

impl From<UserInfo> for UserInfoStripped {
    fn from(value: UserInfo) -> (r: UserInfoStripped) {
        UserInfoStripped { id: value.id, name: value.name }
    }
}

impl vstd::std_specs::convert::FromSpecImpl<UserInfo> for UserInfoStripped {
    open spec fn obeys_from_spec() -> bool {
        true
    }

    open spec fn from_spec(value: UserInfo) -> UserInfoStripped {
        UserInfoStripped { id: value.id, name: value.name }
    }
}

/// What a private chat creation request carries.
pub struct PrivateChatCreationInfo {
    pub guest_user: i64,
    pub new_chat_name: String,
}

/// What a group chat creation request carries; the guest list arrives as
/// text and is parsed at the edge.
pub struct GroupChatCreationInfo {
    pub guest_users: String,
    pub new_chat_name: String,
}

/// What an invitation request carries.
pub struct UserInvitation {
    pub guest_id: i64,
    pub chat_id: ChatId,
}

/// What a chat history request carries.
pub struct ChatHistoryRequest {
    pub chat_id: ChatId,
    pub page_index: Option<PageIndex>,
    pub page_size: usize,
}

/// Reads the authenticated user identity out of the request header's bytes:
/// an integer literal with optional sign and leading zeros, in range.
/// Anything else refuses the request.
pub fn parse_user_id(header: &[u8]) -> (r: Option<i64>)
    ensures
        r matches Some(v) ==> int_literal(header@) && literal_value(header@) == v as int,
        r is None ==> !int_literal(header@) || literal_value(header@) < i64::MIN || literal_value(
            header@,
        ) > i64::MAX,
{
    parse_i64_flexible(header)
}

} // verus!
