//! The actions of the chat: how a message is read as one, and how it is
//! carried out.

use vstd::prelude::*;
use crate::error::LeditError;
use crate::handler::info::{handle_help, handle_start, info_text, InfoTexts};
use crate::handler::todo::{
    add_handled,
    check_reply,
    check_store,
    delete_handled,
    delete_store,
    handle_add_todo,
    handle_check_todo,
    handle_delete_todo,
    handle_list_todos,
    list_handled,
    result_view,
};
use crate::message::{Message, Reply, ReplyView};
use crate::store::{Store, StoreView};
use crate::handler::todo::description_ok;
use crate::text::{int_text, is_control, is_control_char, parse_i64, parsed_i64, push_int};

verus! {

/// What a chat message asks for.
#[derive(Debug)]
pub enum Action<'a> {
    UnknownMessage,
    Start(&'a Message),
    Help(&'a Message),
    AddTodo { title: String, interval_days: Option<i64>, message: &'a Message },
    ListTodos(&'a Message),
    DeleteTodo { num: i64, message: &'a Message },
    CheckTodo { num: i64, message: &'a Message },
}

/// An `Action` as plain values, without the message that it came from.
pub enum ActionView {
    UnknownMessage,
    Start,
    Help,
    AddTodo { title: Seq<char>, interval_days: Option<i64> },
    ListTodos,
    DeleteTodo { num: i64 },
    CheckTodo { num: i64 },
}

impl<'a> View for Action<'a> {
    type V = ActionView;

    open spec fn view(&self) -> ActionView {
        match *self {
            Action::UnknownMessage => ActionView::UnknownMessage,
            Action::Start(_) => ActionView::Start,
            Action::Help(_) => ActionView::Help,
            Action::AddTodo { title, interval_days, message } => ActionView::AddTodo {
                title: title@,
                interval_days: interval_days,
            },
            Action::ListTodos(_) => ActionView::ListTodos,
            Action::DeleteTodo { num, message } => ActionView::DeleteTodo { num: num },
            Action::CheckTodo { num, message } => ActionView::CheckTodo { num: num },
        }
    }
}

/// A text that starts a conversation: `/start` at its beginning, in upper
/// or lower case.
pub const START_PATTERN: &'static str = r"\A((?i)/start(?-i))";

/// A text that asks for help: `/help` at its beginning.
pub const HELP_PATTERN: &'static str = r"\A((?i)/help(?-i))";

/// A text that adds a recurring todo, as in `/add every 7 days: title`.
/// Group 3 holds the digits of the interval, group 6 the title: one
/// character of a plain set and up to 64 more of any kind but a line break.
pub const ADD_EVERY_PATTERN: &'static str =
    r"\A((?i)/add(?-i))[ ]+((?i)every(?i))[ ]+([0-9]+)[ ]+((?i)day(?i))(s){0,1}:[ ]+([a-zA-Z0-9\-_:,. ].{0,64})";

/// A text that adds a one-time todo, as in `/add title`. Group 3 holds the
/// title.
pub const ADD_PATTERN: &'static str = r"\A((?i)/add(?-i)([ ]+)([a-zA-Z0-9\-_:,. ].{0,64}))";

/// A text that asks for the list: `/todos` at its beginning.
pub const TODOS_PATTERN: &'static str = r"\A((?i)/todos(?-i))";

/// A text that deletes a todo, as in `/delete 3`, anywhere in the text.
/// Group 2 holds the digits of the position.
pub const DELETE_PATTERN: &'static str = r"((?i)/delete(?-i))[ ]+([0-9]+)";

/// A text that checks a todo, as in `/check 3`, anywhere in the text. Group
/// 2 holds the digits of the position.
pub const CHECK_PATTERN: &'static str = r"((?i)/check(?-i))[ ]+([0-9]+)";

/// The text that capture group `i` of the regular expression `pattern` holds
/// in its leftmost match in `text`: none where `pattern` is no regular
/// expression, where it matches nowhere in `text`, or where the group took no
/// part in the match. Group 0 is the whole match.
pub uninterp spec fn regex_group(pattern: Seq<char>, text: Seq<char>, i: nat) -> Option<Seq<char>>;

/// Compiles `pattern` with `regex::Regex::new`, searches `text` with
/// `Regex::captures` and reads group `i` with `Captures::get` and
/// `Match::as_str`. The three cases without a text are told apart by nothing:
/// each yields `None`. The result is the one that `regex_group` names.
#[verifier::external_body]
fn capture_group(pattern: &str, text: &str, i: usize) -> (r: Option<String>)
    ensures
        r is Some <==> regex_group(pattern@, text@, i as nat) is Some,
        r matches Some(g) ==> g@ == regex_group(pattern@, text@, i as nat)->0,
{
    let re = regex::Regex::new(pattern).ok()?;
    let caps = re.captures(text)?;
    caps.get(i).map(|m| m.as_str().to_string())
}

/// What the patterns of the chat commands find in a text.
#[derive(Clone, Debug, PartialEq, Eq)]
pub struct Findings {
    /// The text starts a conversation.
    pub start: bool,
    /// The text asks for help.
    pub help: bool,
    /// The text adds a recurring todo: the digits of the interval, and the title.
    pub add_every: Option<(String, String)>,
    /// The text adds a todo: the title.
    pub add: Option<String>,
    /// The text asks for the list.
    pub todos: bool,
    /// The text deletes a todo: the digits of its position.
    pub delete: Option<String>,
    /// The text checks a todo: the digits of its position.
    pub check: Option<String>,
}

/// `Findings` as plain values.
pub struct FindingsView {
    pub start: bool,
    pub help: bool,
    pub add_every: Option<(Seq<char>, Seq<char>)>,
    pub add: Option<Seq<char>>,
    pub todos: bool,
    pub delete: Option<Seq<char>>,
    pub check: Option<Seq<char>>,
}

/// An optional string as plain values.
pub open spec fn text_view(t: Option<String>) -> Option<Seq<char>> {
    match t {
        Some(s) => Some(s@),
        None => None,
    }
}

impl View for Findings {
    type V = FindingsView;

    open spec fn view(&self) -> FindingsView {
        FindingsView {
            start: self.start,
            help: self.help,
            add_every: match self.add_every {
                Some((n, t)) => Some((n@, t@)),
                None => None,
            },
            add: text_view(self.add),
            todos: self.todos,
            delete: text_view(self.delete),
            check: text_view(self.check),
        }
    }
}

/// What the patterns of the chat commands find in `text`.
pub open spec fn findings(text: Seq<char>) -> FindingsView {
    FindingsView {
        start: regex_group(START_PATTERN@, text, 0) is Some,
        help: regex_group(HELP_PATTERN@, text, 0) is Some,
        add_every: match (
            regex_group(ADD_EVERY_PATTERN@, text, 3),
            regex_group(ADD_EVERY_PATTERN@, text, 6),
        ) {
            (Some(n), Some(t)) => Some((n, t)),
            _ => None,
        },
        add: regex_group(ADD_PATTERN@, text, 3),
        todos: regex_group(TODOS_PATTERN@, text, 0) is Some,
        delete: regex_group(DELETE_PATTERN@, text, 2),
        check: regex_group(CHECK_PATTERN@, text, 2),
    }
}

/// The position that the digits of a command stand for: their number. Digits
/// that stand for no number that can be held, as a number too large does,
/// name no todo: they are read as position 0, which no list has.
pub open spec fn parsed_position(digits: Seq<char>) -> i64 {
    match parsed_i64(digits) {
        Some(v) => v,
        None => 0,
    }
}

/// Where the title that was found is cut, counted from `i`: before the
/// first control character, and after 64 characters at the latest.
pub open spec fn cut_at(t: Seq<char>, i: int) -> int
    decreases t.len() - i,
{
    if 0 <= i < t.len() && i < 64 && !is_control(t[i]) {
        cut_at(t, i + 1)
    } else {
        i
    }
}

/// The title that is kept of the one that was found: its longest beginning
/// of at most 64 characters without a control character.
pub open spec fn title_cut(t: Seq<char>) -> Seq<char> {
    t.take(cut_at(t, 0))
}

/// The title of a todo that a found title yields: what is kept of it, unless
/// nothing is.
pub open spec fn usable_title(t: Seq<char>) -> Option<Seq<char>> {
    if title_cut(t).len() > 0 {
        Some(title_cut(t))
    } else {
        None
    }
}

/// The title of the recurring todo that the findings add, if they add one.
pub open spec fn every_title(f: FindingsView) -> Option<Seq<char>> {
    match f.add_every {
        Some((digits, title)) => usable_title(title),
        None => None,
    }
}

/// The digits of the interval of the recurring todo that the findings add.
pub open spec fn every_digits(f: FindingsView) -> Seq<char> {
    match f.add_every {
        Some((digits, title)) => digits,
        None => Seq::<char>::empty(),
    }
}

/// The title of the one-time todo that the findings add, if they add one.
pub open spec fn once_title(f: FindingsView) -> Option<Seq<char>> {
    match f.add {
        Some(title) => usable_title(title),
        None => None,
    }
}

/// What is kept of a title is its beginning, and is a description unless it
/// is empty; it ends where the title ends, after 64 characters, or before a
/// control character. A title that is a description is kept whole.
pub proof fn lemma_title_cut(t: Seq<char>)
    ensures
        0 <= cut_at(t, 0) <= t.len(),
        title_cut(t).len() > 0 ==> description_ok(title_cut(t)),
        cut_at(t, 0) == t.len() || cut_at(t, 0) == 64 || is_control(t[cut_at(t, 0)]),
        description_ok(t) ==> title_cut(t) == t,
{
    lemma_cut_at(t, 0);
    assert(description_ok(t) ==> title_cut(t) =~= t);
}

proof fn lemma_cut_at(t: Seq<char>, i: int)
    requires
        0 <= i <= t.len(),
        i <= 64,
    ensures
        i <= cut_at(t, i) <= t.len(),
        cut_at(t, i) <= 64,
        forall|j: int| i <= j < cut_at(t, i) ==> !is_control(#[trigger] t[j]),
        cut_at(t, i) == t.len() || cut_at(t, i) == 64 || is_control(t[cut_at(t, i)]),
    decreases t.len() - i,
{
    if i < t.len() && i < 64 && !is_control(t[i]) {
        lemma_cut_at(t, i + 1);
    }
}

/// The action that findings stand for. Where several patterns matched, the
/// first of them counts, in this order: start, help, adding a recurring
/// todo, adding a todo, the list, deleting, checking. A title is cut to a
/// description, and a finding whose title leaves nothing does not count. An
/// interval that is too large a number is dropped.
pub open spec fn classified(f: FindingsView) -> ActionView {
    if f.start {
        ActionView::Start
    } else if f.help {
        ActionView::Help
    } else if every_title(f) is Some {
        ActionView::AddTodo {
            title: every_title(f)->0,
            interval_days: parsed_i64(every_digits(f)),
        }
    } else if once_title(f) is Some {
        ActionView::AddTodo { title: once_title(f)->0, interval_days: None }
    } else if f.todos {
        ActionView::ListTodos
    } else if f.delete is Some {
        ActionView::DeleteTodo { num: parsed_position(f.delete->0) }
    } else if f.check is Some {
        ActionView::CheckTodo { num: parsed_position(f.check->0) }
    } else {
        ActionView::UnknownMessage
    }
}

/// An optional interval as it is written in the description of an action.
pub open spec fn interval_text(v: Option<i64>) -> Seq<char> {
    match v {
        Some(n) => "Some("@ + int_text(n as int) + ")"@,
        None => "None"@,
    }
}

/// An action in words, as it is written to a log.
pub open spec fn described(a: ActionView) -> Seq<char> {
    match a {
        ActionView::UnknownMessage => "UnknownMessage"@,
        ActionView::Start => "Start"@,
        ActionView::Help => "Help"@,
        ActionView::AddTodo { title, interval_days } => "AddTodo { title: "@ + title
            + ", interval_days: "@ + interval_text(interval_days) + " }"@,
        ActionView::ListTodos => "ListTodos"@,
        ActionView::DeleteTodo { num } => "DeleteTodo { num: "@ + int_text(num as int) + " }"@,
        ActionView::CheckTodo { num } => "CheckTodo: { num: "@ + int_text(num as int) + " }"@,
    }
}

/// What is sent for an error: a failed draw of an assignee says so, a fault
/// of the store shows as a database error without detail.
pub open spec fn failure_text(e: LeditError) -> Seq<char> {
    match e {
        LeditError::RndUser => "Failed to assign todo."@,
        LeditError::Store(_) => "Database error"@,
    }
}

/// The reply that an answer of a handler is sent as.
pub open spec fn answer(chat_id: i64, r: Result<ReplyView, LeditError>) -> ReplyView {
    match r {
        Ok(reply) => reply,
        Err(e) => ReplyView { chat_id: chat_id, text: failure_text(e) },
    }
}

/// Carrying out a request to add a todo led from the store `before` to the
/// store `after` with the reply `r`: the reply is the answer of the handler
/// as it is sent.
pub open spec fn add_executed(
    before: StoreView,
    after: StoreView,
    r: Option<ReplyView>,
    chat_id: i64,
    title: Seq<char>,
    interval_days: Option<i64>,
) -> bool {
    exists|res: Result<ReplyView, LeditError>|
        #![trigger add_handled(before, after, res, chat_id, title, interval_days)]
        add_handled(before, after, res, chat_id, title, interval_days) && r == Some(
            answer(chat_id, res),
        )
}

/// Carrying out `action`, which came from `message`, led from the store
/// `before` to the store `after` with the reply `r`.
pub open spec fn executed(
    action: ActionView,
    message: Message,
    texts: InfoTexts,
    before: StoreView,
    after: StoreView,
    r: Option<ReplyView>,
) -> bool {
    let chat_id = message.chat_id;
    match action {
        ActionView::UnknownMessage => r is None && after == before,
        ActionView::Start => after == before && r == Some(
            ReplyView { chat_id: chat_id, text: info_text(texts.start) },
        ),
        ActionView::Help => after == before && r == Some(
            ReplyView { chat_id: chat_id, text: info_text(texts.help) },
        ),
        ActionView::AddTodo { title, interval_days } => add_executed(
            before,
            after,
            r,
            chat_id,
            title,
            interval_days,
        ),
        ActionView::ListTodos => after == before && r is Some && list_handled(
            before,
            chat_id,
            r->0,
        ),
        ActionView::DeleteTodo { num } => after == delete_store(before, chat_id, num) && r is Some
            && delete_handled(before, chat_id, num, r->0),
        ActionView::CheckTodo { num } => after == check_store(before, message, num) && r == Some(
            answer(chat_id, check_reply(before, message, num)),
        ),
    }
}

fn failure_reply(chat_id: i64, e: LeditError) -> (r: Reply)
    ensures
        r@ == (ReplyView { chat_id: chat_id, text: failure_text(e) }),
{
    let text = match e {
        LeditError::RndUser => String::from_str("Failed to assign todo."),
        LeditError::Store(_) => String::from_str("Database error"),
    };
    Reply { chat_id: chat_id, text: text }
}

/// What is kept of a title that was found: its longest beginning of at most
/// 64 characters without a control character.
pub fn cut_title(title: &str) -> (r: String)
    ensures
        r@ == title_cut(title@),
{
    let n: usize = title.unicode_len();
    let mut i: usize = 0;
    while i < n && i < 64 && !is_control_char(title.get_char(i))
        invariant
            i <= n,
            i <= 64,
            n == title@.len(),
            cut_at(title@, 0) == cut_at(title@, i as int),
        decreases n - i,
    {
        i = i + 1;
    }
    String::from_str(title.substring_char(0, i))
}

fn position_of(digits: &str) -> (r: i64)
    ensures
        r == parsed_position(digits@),
{
    match parse_i64(digits) {
        Some(v) => v,
        None => 0,
    }
}

impl<'a> Action<'a> {
    /// The message that the action came from.
    pub open spec fn source(&self) -> Option<Message> {
        match *self {
            Action::UnknownMessage => None,
            Action::Start(m) => Some(*m),
            Action::Help(m) => Some(*m),
            Action::AddTodo { title, interval_days, message } => Some(*message),
            Action::ListTodos(m) => Some(*m),
            Action::DeleteTodo { num, message } => Some(*message),
            Action::CheckTodo { num, message } => Some(*message),
        }
    }

    /// The action in words, as it is written to a log.
    pub fn describe(&self) -> (r: String)
        ensures
            r@ == described(self@),
    {
        match self {
            Action::UnknownMessage => String::from_str("UnknownMessage"),
            Action::Start(_) => String::from_str("Start"),
            Action::Help(_) => String::from_str("Help"),
            Action::AddTodo { title, interval_days, message } => {
                let mut out = String::from_str("AddTodo { title: ");
                out.append(title.as_str());
                out.append(", interval_days: ");
                let ghost head = out@;
                match interval_days {
                    Some(n) => {
                        out.append("Some(");
                        push_int(&mut out, *n);
                        out.append(")");
                    },
                    None => {
                        out.append("None");
                    },
                }
                assert(out@ =~= head + interval_text(*interval_days));
                out.append(" }");
                out
            },
            Action::ListTodos(_) => String::from_str("ListTodos"),
            Action::DeleteTodo { num, message } => {
                let mut out = String::from_str("DeleteTodo { num: ");
                push_int(&mut out, *num);
                out.append(" }");
                out
            },
            Action::CheckTodo { num, message } => {
                let mut out = String::from_str("CheckTodo: { num: ");
                push_int(&mut out, *num);
                out.append(" }");
                out
            },
        }
    }

    /// The action that `found` stands for, for the message `message`.
    pub fn from_findings(message: &'a Message, found: Findings) -> (r: Action<'a>)
        ensures
            r@ == classified(found@),
            r.source() == if r@ is UnknownMessage {
                None
            } else {
                Some(*message)
            },
            r@ matches ActionView::AddTodo { title, .. } ==> description_ok(title),
    {
        if found.start {
            return Action::Start(message);
        }
        if found.help {
            return Action::Help(message);
        }
        if let Some((digits, title)) = found.add_every {
            let kept = cut_title(title.as_str());
            proof {
                lemma_title_cut(title@);
            }
            if kept.as_str().unicode_len() > 0 {
                let interval_days = parse_i64(digits.as_str());
                return Action::AddTodo {
                    title: kept,
                    interval_days: interval_days,
                    message: message,
                };
            }
        }
        if let Some(title) = found.add {
            let kept = cut_title(title.as_str());
            proof {
                lemma_title_cut(title@);
            }
            if kept.as_str().unicode_len() > 0 {
                return Action::AddTodo { title: kept, interval_days: None, message: message };
            }
        }
        if found.todos {
            return Action::ListTodos(message);
        }
        if let Some(digits) = found.delete {
            return Action::DeleteTodo { num: position_of(digits.as_str()), message: message };
        }
        if let Some(digits) = found.check {
            return Action::CheckTodo { num: position_of(digits.as_str()), message: message };
        }
        Action::UnknownMessage
    }

    /// Reads the text of `message` as an action.
    pub fn from_message(message: &'a Message) -> (r: Action<'a>)
        ensures
            r@ == classified(findings(message.body())),
            r.source() == if r@ is UnknownMessage {
                None
            } else {
                Some(*message)
            },
            r@ matches ActionView::AddTodo { title, .. } ==> description_ok(title),
    {
        let empty = String::new();
        let s: &str = match &message.text {
            Some(t) => t.as_str(),
            None => empty.as_str(),
        };
        let add_every = match capture_group(ADD_EVERY_PATTERN, s, 3) {
            Some(digits) => match capture_group(ADD_EVERY_PATTERN, s, 6) {
                Some(title) => Some((digits, title)),
                None => None,
            },
            None => None,
        };
        let found = Findings {
            start: capture_group(START_PATTERN, s, 0).is_some(),
            help: capture_group(HELP_PATTERN, s, 0).is_some(),
            add_every: add_every,
            add: capture_group(ADD_PATTERN, s, 3),
            todos: capture_group(TODOS_PATTERN, s, 0).is_some(),
            delete: capture_group(DELETE_PATTERN, s, 2),
            check: capture_group(CHECK_PATTERN, s, 2),
        };
        assert(found@ == findings(message.body()));
        Action::from_findings(message, found)
    }

    /// Carries the action out on the store and returns what is to be sent to
    /// the chat, if anything. An error of a handler is sent as a text too.
    pub fn execute(self, store: &mut Store, texts: &InfoTexts) -> (r: Option<Reply>)
        requires
            old(store).wf(),
        ensures
            final(store).wf(),
            self.source() is None ==> r is None && final(store)@ == old(store)@,
            self.source() matches Some(m) ==> executed(
                self@,
                m,
                *texts,
                old(store)@,
                final(store)@,
                match r {
                    Some(reply) => Some(reply@),
                    None => None,
                },
            ),
    {
        match self {
            Action::Help(message) => {
                let reply = handle_help(message, texts);
                assert(executed(self@, *message, *texts, old(store)@, store@, Some(reply@)));
                Some(reply)
            },
            Action::Start(message) => {
                let reply = handle_start(message, texts);
                assert(executed(self@, *message, *texts, old(store)@, store@, Some(reply@)));
                Some(reply)
            },
            Action::AddTodo { title, interval_days, message } => {
                let ghost shown = title@;
                let res = handle_add_todo(title, interval_days, message, store);
                let ghost seen = result_view(res);
                let reply = match res {
                    Ok(reply) => reply,
                    Err(e) => failure_reply(message.chat_id, e),
                };
                assert(add_handled(
                    old(store)@,
                    store@,
                    seen,
                    message.chat_id,
                    shown,
                    interval_days,
                ) && Some(reply@) == Some(answer(message.chat_id, seen)));
                assert(add_executed(
                    old(store)@,
                    store@,
                    Some(reply@),
                    message.chat_id,
                    shown,
                    interval_days,
                ));
                Some(reply)
            },
            Action::ListTodos(message) => {
                let reply = handle_list_todos(message, store);
                assert(executed(self@, *message, *texts, old(store)@, store@, Some(reply@)));
                Some(reply)
            },
            Action::DeleteTodo { num, message } => {
                let reply = handle_delete_todo(num, message, store);
                assert(executed(self@, *message, *texts, old(store)@, store@, Some(reply@)));
                Some(reply)
            },
            Action::CheckTodo { num, message } => {
                let res = handle_check_todo(num, message, store);
                let ghost seen = result_view(res);
                let reply = match res {
                    Ok(reply) => reply,
                    Err(e) => failure_reply(message.chat_id, e),
                };
                assert(reply@ == answer(message.chat_id, seen));
                assert(executed(self@, *message, *texts, old(store)@, store@, Some(reply@)));
                Some(reply)
            },
            Action::UnknownMessage => None,
        }
    }
}

} // verus!
