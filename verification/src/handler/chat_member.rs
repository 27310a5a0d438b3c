//! The membership registry: who takes part in which chat.

use vstd::prelude::*;
use crate::error::{LeditError, StoreFault};
use crate::message::{Message, User};
use crate::store::{
    has_member,
    has_member_id,
    is_registered,
    lemma_member_ids,
    member_ids,
    Store,
    StoreView,
};
use crate::util::{new_id, random_index};

verus! {

/// A participant of one chat.
#[derive(Clone, Debug, PartialEq, Eq)]
pub struct ChatMember {
    pub id: u128,
    pub telegram_user_id: i64,
    pub chat_id: i64,
    pub username: String,
}

/// A `ChatMember` as plain values.
pub struct ChatMemberView {
    pub id: u128,
    pub telegram_user_id: i64,
    pub chat_id: i64,
    pub username: Seq<char>,
}

impl View for ChatMember {
    type V = ChatMemberView;

    open spec fn view(&self) -> ChatMemberView {
        ChatMemberView {
            id: self.id,
            telegram_user_id: self.telegram_user_id,
            chat_id: self.chat_id,
            username: self.username@,
        }
    }
}

/// The views of a sequence of members, in the same order.
pub open spec fn member_views(s: Seq<ChatMember>) -> Seq<ChatMemberView> {
    s.map_values(|m: ChatMember| m@)
}

/// The member row that registers the sender `user` in the chat `chat_id`
/// under the identity `id`.
pub open spec fn member_row(user: User, chat_id: i64, id: u128) -> ChatMemberView {
    ChatMemberView {
        id: id,
        telegram_user_id: user.id,
        chat_id: chat_id,
        username: Message::display_name(user),
    }
}

/// Whether the sender of `message` is to be stored: there is one, and they
/// are not registered in that chat yet.
pub open spec fn is_new_sender(s: StoreView, message: Message) -> bool {
    message.from is Some && !is_registered(s.members, message.from->0.id, message.chat_id)
}

/// What registering the sender of `message` under the fresh identity `id`
/// answers: the store refuses only a new sender whose identity is taken.
pub open spec fn register_result(s: StoreView, message: Message, id: u128) -> Result<
    (),
    LeditError,
> {
    if is_new_sender(s, message) && has_member_id(s.members, id) {
        Err(LeditError::Store(StoreFault::UniqueViolation))
    } else {
        Ok(())
    }
}

/// The store after registering the sender of `message` under the fresh
/// identity `id`: one member longer for a new sender, else unchanged.
pub open spec fn register_store(s: StoreView, message: Message, id: u128) -> StoreView {
    if is_new_sender(s, message) && !has_member_id(s.members, id) {
        StoreView {
            members: s.members.push(member_row(message.from->0, message.chat_id, id)),
            todos: s.todos,
        }
    } else {
        s
    }
}

/// Registers the sender of `message` in its chat under the identity `id`,
/// unless they are registered there already or the message has no sender.
pub fn register_chat_member_as(message: &Message, store: &mut Store, id: u128) -> (r: Result<
    (),
    LeditError,
>)
    requires
        old(store).wf(),
    ensures
        final(store).wf(),
        r == register_result(old(store)@, *message, id),
        final(store)@ == register_store(old(store)@, *message, id),
{
    match &message.from {
        None => Ok(()),
        Some(user) => {
            if store.find_member(user.id, message.chat_id).is_some() {
                return Ok(());
            }
            let username = match &user.username {
                Some(name) => name.clone(),
                None => user.first_name.clone(),
            };
            let member = ChatMember {
                id: id,
                telegram_user_id: user.id,
                chat_id: message.chat_id,
                username: username,
            };
            assert(member@ == member_row(*user, message.chat_id, id));
            match store.add_member(member) {
                Ok(()) => Ok(()),
                Err(e) => Err(e),
            }
        },
    }
}

/// The store `after` is the store `before` with the sender of `message`
/// registered under an identity that no member had.
pub open spec fn registered(before: StoreView, after: StoreView, message: Message) -> bool {
    exists|id: u128|
        #![trigger register_store(before, message, id)]
        !has_member_id(before.members, id) && after == register_store(before, message, id)
}

/// Registers the sender of `message` in its chat under a fresh identity,
/// unless they are registered there already or the message has no sender.
/// The identity is drawn at random; where the draw is taken, the smallest
/// free number stands in, so that registering always succeeds.
pub fn register_chat_member(message: &Message, store: &mut Store) -> (r: Result<(), LeditError>)
    requires
        old(store).wf(),
    ensures
        final(store).wf(),
        r is Ok,
        registered(old(store)@, final(store)@, *message),
        !is_new_sender(old(store)@, *message) ==> final(store)@ == old(store)@,
{
    let id = store.fresh_member_id(new_id());
    let r = register_chat_member_as(message, store, id);
    assert(store@ == register_store(old(store)@, *message, id));
    r
}

/// The member of the chat `chat_id` at place `n` of its members, in the
/// order in which they were registered.
pub fn chat_member_at(chat_id: i64, store: &Store, n: usize) -> (r: Option<u128>)
    ensures
        r == if n < member_ids(store@.members, chat_id).len() {
            Some(member_ids(store@.members, chat_id)[n as int])
        } else {
            None
        },
{
    let ids = store.chat_member_ids(chat_id);
    if n < ids.len() {
        Some(ids[n])
    } else {
        None
    }
}

/// Draws a member of the chat `chat_id` uniformly at random. Fails where the
/// chat has no member.
pub fn get_random_chat_member(chat_id: i64, store: &Store) -> (r: Result<u128, LeditError>)
    ensures
        r is Err <==> member_ids(store@.members, chat_id).len() == 0,
        r matches Err(e) ==> e == LeditError::RndUser,
        r matches Ok(id) ==> member_ids(store@.members, chat_id).contains(id) && has_member(
            store@.members,
            id,
            chat_id,
        ),
{
    let ids = store.chat_member_ids(chat_id);
    if ids.len() == 0 {
        return Err(LeditError::RndUser);
    }
    let n = random_index(ids.len());
    proof {
        lemma_member_ids(store@.members, chat_id);
        assert(ids@.contains(ids@[n as int]));
    }
    Ok(ids[n])
}

} // verus!
