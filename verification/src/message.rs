//! The values that travel between the chat transport and the engine.

use vstd::prelude::*;

verus! {

/// The sender of a chat message, as the transport identifies them.
#[derive(Clone, Debug, PartialEq, Eq)]
pub struct User {
    pub id: i64,
    pub first_name: String,
    pub username: Option<String>,
}

/// An inbound chat message, reduced to what the engine reads.
#[derive(Clone, Debug, PartialEq, Eq)]
pub struct Message {
    pub chat_id: i64,
    pub from: Option<User>,
    pub text: Option<String>,
}

/// A text to be sent to a chat.
#[derive(Clone, Debug, PartialEq, Eq)]
pub struct Reply {
    pub chat_id: i64,
    pub text: String,
}

/// What a `Reply` says, as plain values.
pub struct ReplyView {
    pub chat_id: i64,
    pub text: Seq<char>,
}

impl View for Reply {
    type V = ReplyView;

    open spec fn view(&self) -> ReplyView {
        ReplyView { chat_id: self.chat_id, text: self.text@ }
    }
}

impl Message {
    /// The name under which the sender is registered: the user name, or the
    /// first name where there is none.
    pub open spec fn display_name(user: User) -> Seq<char> {
        match user.username {
            Some(name) => name@,
            None => user.first_name@,
        }
    }

    /// The text of the message; empty where it carries none.
    pub open spec fn body(&self) -> Seq<char> {
        match self.text {
            Some(t) => t@,
            None => Seq::<char>::empty(),
        }
    }
}

} // verus!
