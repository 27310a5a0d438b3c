//! The two informational answers: the greeting and the help.

use vstd::prelude::*;
use crate::message::{Message, Reply, ReplyView};

verus! {

/// The informational texts, as far as they could be loaded.
#[derive(Clone, Debug, PartialEq, Eq)]
pub struct InfoTexts {
    pub help: Option<String>,
    pub start: Option<String>,
}

/// An informational text as it is sent: the text where it could be loaded,
/// an apology where it could not.
pub open spec fn info_text(loaded: Option<String>) -> Seq<char> {
    match loaded {
        Some(text) => text@,
        None => "Information not available. Sorry 😔"@,
    }
}

fn info_reply(message: &Message, loaded: &Option<String>) -> (r: Reply)
    ensures
        r@ == (ReplyView { chat_id: message.chat_id, text: info_text(*loaded) }),
{
    let text = match loaded {
        Some(text) => text.clone(),
        None => String::from_str("Information not available. Sorry 😔"),
    };
    Reply { chat_id: message.chat_id, text: text }
}

/// Answers a request for help with the help text.
pub fn handle_help(message: &Message, texts: &InfoTexts) -> (r: Reply)
    ensures
        r@ == (ReplyView { chat_id: message.chat_id, text: info_text(texts.help) }),
{
    info_reply(message, &texts.help)
}

/// Answers the start of a conversation with the greeting.
pub fn handle_start(message: &Message, texts: &InfoTexts) -> (r: Reply)
    ensures
        r@ == (ReplyView { chat_id: message.chat_id, text: info_text(texts.start) }),
{
    info_reply(message, &texts.start)
}

} // verus!
