//! Todos: what they are, and the four chat operations on them.

use vstd::prelude::*;
use crate::order::{
    as_ints,
    key_views,
    lemma_sorted_order,
    sort_keys,
    sorted_order,
    SortKey,
    SortKeyView,
};
use crate::handler::chat_member::{get_random_chat_member, member_views, ChatMemberView};
use crate::error::{LeditError, StoreFault};
use crate::message::{Message, Reply, ReplyView};
use crate::store::{
    add_todo_result,
    add_todo_store,
    has_member,
    has_todo_id,
    is_member_row,
    is_registered,
    member_ids,
    remove_todo_store,
    set_done_by_result,
    set_done_by_store,
    todo_index,
    Store,
    StoreView,
};
use crate::text::{decimal, int_text, is_control, is_control_char, push_decimal, push_int};
use crate::util::{new_id, today};

verus! {

/// A chore of one chat: one-time, or recurring every `interval_days` days.
/// Dates are day numbers of the proleptic Gregorian calendar.
#[derive(Clone, Debug, PartialEq, Eq)]
pub struct Todo {
    pub id: u128,
    pub chat_id: i64,
    pub description: String,
    pub interval_days: Option<i64>,
    pub assigned_user: u128,
    pub scheduled_for: i32,
    pub done_by: Option<u128>,
}

/// A `Todo` as plain values.
pub struct TodoView {
    pub id: u128,
    pub chat_id: i64,
    pub description: Seq<char>,
    pub interval_days: Option<i64>,
    pub assigned_user: u128,
    pub scheduled_for: i32,
    pub done_by: Option<u128>,
}

impl View for Todo {
    type V = TodoView;

    open spec fn view(&self) -> TodoView {
        TodoView {
            id: self.id,
            chat_id: self.chat_id,
            description: self.description@,
            interval_days: self.interval_days,
            assigned_user: self.assigned_user,
            scheduled_for: self.scheduled_for,
            done_by: self.done_by,
        }
    }
}

/// The views of a sequence of todos, in the same order.
pub open spec fn todo_views(s: Seq<Todo>) -> Seq<TodoView> {
    s.map_values(|t: Todo| t@)
}

/// What a description has to be: 1 to 64 characters, none of them a control
/// character.
pub open spec fn description_ok(d: Seq<char>) -> bool {
    &&& 1 <= d.len() <= 64
    &&& forall|i: int| 0 <= i < d.len() ==> !is_control(#[trigger] d[i])
}

/// Whether `d` can be the description of a todo.
pub fn is_description_ok(d: &str) -> (r: bool)
    ensures
        r == description_ok(d@),
{
    let n: usize = d.unicode_len();
    if n < 1 || n > 64 {
        return false;
    }
    let mut i: usize = 0;
    while i < n
        invariant
            i <= n,
            n == d@.len(),
            forall|j: int| 0 <= j < i ==> !is_control(#[trigger] d@[j]),
        decreases n - i,
    {
        if is_control_char(d.get_char(i)) {
            return false;
        }
        i = i + 1;
    }
    true
}

/// The interval that is stored for a requested one: kept where it lies
/// between 1 and 999 days, absent otherwise.
pub open spec fn stored_interval(requested: Option<i64>) -> Option<i64> {
    match requested {
        Some(v) => if 1 <= v <= 999 {
            Some(v)
        } else {
            None
        },
        None => None,
    }
}

/// Computes the interval that is stored for a requested one.
pub fn clamp_interval(requested: Option<i64>) -> (r: Option<i64>)
    ensures
        r == stored_interval(requested),
{
    match requested {
        Some(v) => if 1 <= v && v <= 999 {
            Some(v)
        } else {
            None
        },
        None => None,
    }
}

/// The todos of the chat `chat_id`, in the order in which they were stored.
pub open spec fn chat_todos(todos: Seq<TodoView>, chat_id: i64) -> Seq<TodoView>
    decreases todos.len(),
{
    if todos.len() == 0 {
        Seq::<TodoView>::empty()
    } else {
        let rest = chat_todos(todos.drop_last(), chat_id);
        if todos.last().chat_id == chat_id {
            rest.push(todos.last())
        } else {
            rest
        }
    }
}

/// What a todo is listed by: one-time todos first, by description; then the
/// recurring ones, by interval and then by description.
pub open spec fn listing_key(t: TodoView) -> SortKeyView {
    SortKeyView {
        group: Seq::<char>::empty(),
        rank: if t.interval_days is Some {
            1
        } else {
            0
        },
        number: match t.interval_days {
            Some(v) => v,
            None => 0,
        },
        text: t.description,
    }
}

/// The listing keys of a sequence of todos.
pub open spec fn listing_keys(todos: Seq<TodoView>) -> Seq<SortKeyView> {
    todos.map_values(|t: TodoView| listing_key(t))
}

/// The items at the places that `order` names, in that order.
pub open spec fn arranged<T>(items: Seq<T>, order: Seq<int>) -> Seq<T> {
    Seq::new(order.len(), |k: int| items[order[k]])
}

/// The list of a chat: its todos in listing order. The place of a todo in
/// this list, counted from 1, is the position by which the chat names it.
pub open spec fn sorted_todos(s: StoreView, chat_id: i64) -> Seq<TodoView> {
    let mine = chat_todos(s.todos, chat_id);
    arranged(mine, sorted_order(listing_keys(mine)))
}

/// The todo at the position `num` of a list, counted from 1.
pub open spec fn todo_at(listed: Seq<TodoView>, num: i64) -> Option<TodoView> {
    if 1 <= num <= listed.len() {
        Some(listed[num - 1])
    } else {
        None
    }
}

fn todos_of_chat(chat_id: i64, store: &Store) -> (r: Vec<Todo>)
    ensures
        todo_views(r@) == chat_todos(store@.todos, chat_id),
{
    let todos = store.todos();
    let mut mine: Vec<Todo> = Vec::new();
    let mut i: usize = 0;
    assert(todo_views(mine@) =~= chat_todos(store@.todos.take(0), chat_id));
    while i < todos.len()
        invariant
            i <= todos.len(),
            todo_views(todos@) == store@.todos,
            todo_views(mine@) == chat_todos(store@.todos.take(i as int), chat_id),
        decreases todos.len() - i,
    {
        assert(store@.todos.take(i + 1).drop_last() =~= store@.todos.take(i as int));
        assert(store@.todos[i as int] == todos@[i as int]@);
        if todos[i].chat_id == chat_id {
            let ghost before = todo_views(mine@);
            let row = todos[i].duplicate();
            mine.push(row);
            assert(todo_views(mine@) =~= before.push(todos@[i as int]@));
        }
        i = i + 1;
    }
    assert(store@.todos.take(i as int) =~= store@.todos);
    mine
}

fn listing_key_of(t: &Todo) -> (r: SortKey)
    ensures
        r@ == listing_key(t@),
{
    SortKey {
        group: String::new(),
        rank: if t.interval_days.is_some() {
            1
        } else {
            0
        },
        number: match t.interval_days {
            Some(v) => v,
            None => 0,
        },
        text: t.description.clone(),
    }
}

/// The list of the chat `chat_id`: its todos in listing order.
pub fn get_sorted_todos(chat_id: i64, store: &Store) -> (r: Vec<Todo>)
    ensures
        todo_views(r@) == sorted_todos(store@, chat_id),
{
    let mine = todos_of_chat(chat_id, store);
    let mut keys: Vec<SortKey> = Vec::new();
    let mut i: usize = 0;
    while i < mine.len()
        invariant
            i <= mine.len(),
            key_views(keys@) =~= listing_keys(todo_views(mine@)).take(i as int),
        decreases mine.len() - i,
    {
        let ghost before = key_views(keys@);
        let key = listing_key_of(&mine[i]);
        keys.push(key);
        assert(key_views(keys@) =~= before.push(listing_key(mine@[i as int]@)));
        i = i + 1;
    }
    assert(key_views(keys@) =~= listing_keys(todo_views(mine@)));
    let order = sort_keys(&keys);
    let mut listed: Vec<Todo> = Vec::new();
    let mut k: usize = 0;
    while k < order.len()
        invariant
            k <= order.len(),
            order@.len() == mine@.len(),
            forall|i: int| 0 <= i < order@.len() ==> (#[trigger] order@[i]) < mine@.len(),
            todo_views(listed@) =~= arranged(todo_views(mine@), as_ints(order@)).take(k as int),
        decreases order.len() - k,
    {
        let ghost before = todo_views(listed@);
        let row = mine[order[k]].duplicate();
        listed.push(row);
        assert(todo_views(listed@) =~= before.push(mine@[order@[k as int] as int]@));
        k = k + 1;
    }
    assert(todo_views(listed@) =~= arranged(todo_views(mine@), as_ints(order@)));
    listed
}

/// The box in front of a todo in the list of all todos: done in the current
/// cycle, done in an earlier one, or open.
pub open spec fn list_glyph(t: TodoView, today: i32) -> Seq<char> {
    if t.done_by is Some {
        if t.scheduled_for == today {
            "✅"@
        } else {
            "🗓"@
        }
    } else {
        "☑️"@
    }
}

/// The note behind a recurring todo; empty for a one-time todo.
pub open spec fn recurring_note(t: TodoView) -> Seq<char> {
    match t.interval_days {
        Some(v) => "(every "@ + int_text(v as int) + " day"@ + (if v > 1 {
            "s"@
        } else {
            ""@
        }) + ")"@,
        None => ""@,
    }
}

/// The line of the todo at position `n` in the list of all todos.
pub open spec fn list_line(t: TodoView, n: int, today: i32) -> Seq<char> {
    "\n"@ + list_glyph(t, today) + " "@ + decimal(n as nat) + ". "@ + t.description + " "@
        + recurring_note(t) + " "@
}

/// The lines of the first `n` todos of a list.
pub open spec fn list_lines(listed: Seq<TodoView>, n: int, today: i32) -> Seq<char>
    decreases n,
{
    if n <= 0 {
        Seq::<char>::empty()
    } else {
        list_lines(listed, n - 1, today) + list_line(listed[n - 1], n, today)
    }
}

/// The list of all todos as text: a heading and one numbered line per todo,
/// or a notice where there is none.
pub open spec fn all_todos_text(listed: Seq<TodoView>, today: i32) -> Seq<char> {
    if listed.len() == 0 {
        "No todo found."@
    } else {
        "List of all todos:\n"@ + list_lines(listed, listed.len() as int, today)
    }
}

fn push_list_line(out: &mut String, t: &Todo, n: usize, today: i32)
    ensures
        final(out)@ == old(out)@ + list_line(t@, n as int, today),
{
    out.append("\n");
    if t.done_by.is_some() {
        if t.scheduled_for == today {
            out.append("✅");
        } else {
            out.append("🗓");
        }
    } else {
        out.append("☑️");
    }
    out.append(" ");
    push_decimal(out, n as u128);
    out.append(". ");
    out.append(t.description.as_str());
    out.append(" ");
    let ghost head = out@;
    match t.interval_days {
        Some(v) => {
            out.append("(every ");
            push_int(out, v);
            out.append(" day");
            if v > 1 {
                out.append("s");
            } else {
                out.append("");
            }
            out.append(")");
            assert(out@ =~= head + recurring_note(t@));
        },
        None => {
            out.append("");
            assert(out@ =~= head + recurring_note(t@));
        },
    }
    out.append(" ");
    assert(out@ =~= old(out)@ + list_line(t@, n as int, today));
}

/// Renders a list of todos, in the order given, for the day `today`.
pub fn render_all_todos(listed: &Vec<Todo>, today: i32) -> (r: String)
    ensures
        r@ == all_todos_text(todo_views(listed@), today),
{
    if listed.len() == 0 {
        return String::from_str("No todo found.");
    }
    let ghost shown = todo_views(listed@);
    let mut out = String::from_str("List of all todos:\n");
    let mut i: usize = 0;
    assert(out@ =~= "List of all todos:\n"@ + list_lines(shown, 0, today));
    while i < listed.len()
        invariant
            i <= listed.len(),
            shown == todo_views(listed@),
            out@ == "List of all todos:\n"@ + list_lines(shown, i as int, today),
        decreases listed.len() - i,
    {
        push_list_line(&mut out, &listed[i], i + 1, today);
        assert(out@ =~= "List of all todos:\n"@ + list_lines(shown, i + 1, today)) by {
            assert(shown[i as int] == listed@[i as int]@);
        }
        i = i + 1;
    }
    out
}

/// The list of all todos of the chat of `message`, rendered for the current
/// day.
pub fn get_all_todos_as_string(message: &Message, store: &Store) -> (r: String)
    ensures
        exists|day: i32| r@ == all_todos_text(sorted_todos(store@, message.chat_id), day),
{
    let listed = get_sorted_todos(message.chat_id, store);
    let day = today();
    render_all_todos(&listed, day)
}

/// A todo on the agenda of a chat, with the name of its assignee.
#[derive(Clone, Debug, PartialEq, Eq)]
pub struct AgendaItem {
    pub username: String,
    pub todo: Todo,
}

/// An `AgendaItem` as plain values.
pub struct AgendaItemView {
    pub username: Seq<char>,
    pub todo: TodoView,
}

impl View for AgendaItem {
    type V = AgendaItemView;

    open spec fn view(&self) -> AgendaItemView {
        AgendaItemView { username: self.username@, todo: self.todo@ }
    }
}

/// The views of a sequence of agenda items, in the same order.
pub open spec fn agenda_views(s: Seq<AgendaItem>) -> Seq<AgendaItemView> {
    s.map_values(|a: AgendaItem| a@)
}

/// A todo is to be worked on, or to be shown as done, on the day `today`: a
/// one-time todo from the day it is scheduled for; a recurring one from that
/// day while it is open, and on that day itself once it is done.
pub open spec fn actionable(t: TodoView, today: i32) -> bool {
    if t.interval_days is None {
        t.scheduled_for <= today
    } else {
        (t.scheduled_for <= today && t.done_by is None) || (t.scheduled_for == today
            && t.done_by is Some)
    }
}

/// The name of the member whom the todo is assigned to, where its chat has
/// that member.
pub open spec fn assignee_name(members: Seq<ChatMemberView>, t: TodoView) -> Option<Seq<char>>
    decreases members.len(),
{
    if members.len() == 0 {
        None
    } else {
        match assignee_name(members.drop_last(), t) {
            Some(name) => Some(name),
            None => if members.last().id == t.assigned_user && members.last().chat_id
                == t.chat_id {
                Some(members.last().username)
            } else {
                None
            },
        }
    }
}

/// The agenda items among the first `n` todos of the store: those of the
/// chat that are actionable, in the order in which they were stored.
pub open spec fn agenda_items(s: StoreView, chat_id: i64, today: i32, n: int) -> Seq<
    AgendaItemView,
>
    decreases n,
{
    if n <= 0 {
        Seq::<AgendaItemView>::empty()
    } else {
        let rest = agenda_items(s, chat_id, today, n - 1);
        let t = s.todos[n - 1];
        if t.chat_id == chat_id && actionable(t, today) && assignee_name(s.members, t) is Some {
            rest.push(AgendaItemView { username: assignee_name(s.members, t)->0, todo: t })
        } else {
            rest
        }
    }
}

/// What an agenda item is ordered by: the assignees by name, descending;
/// for each of them the open todos before the done ones; then by description.
pub open spec fn agenda_key(a: AgendaItemView) -> SortKeyView {
    SortKeyView {
        group: a.username,
        rank: if a.todo.done_by is Some {
            1
        } else {
            0
        },
        number: 0,
        text: a.todo.description,
    }
}

/// The agenda keys of a sequence of items.
pub open spec fn agenda_keys(items: Seq<AgendaItemView>) -> Seq<SortKeyView> {
    items.map_values(|a: AgendaItemView| agenda_key(a))
}

/// The agenda of a chat for the day `today`, in agenda order.
pub open spec fn agenda(s: StoreView, chat_id: i64, today: i32) -> Seq<AgendaItemView> {
    let items = agenda_items(s, chat_id, today, s.todos.len() as int);
    arranged(items, sorted_order(agenda_keys(items)))
}

/// The box in front of a todo on the agenda: done by its assignee, done by
/// someone else, or open.
pub open spec fn agenda_glyph(t: TodoView) -> Seq<char> {
    match t.done_by {
        Some(u) => if u == t.assigned_user {
            "✅"@
        } else {
            "✅ (delegated)"@
        },
        None => "☑️"@,
    }
}

/// The mark of an open todo that was scheduled for an earlier day.
pub open spec fn delay_mark(t: TodoView, today: i32) -> Seq<char> {
    if t.scheduled_for < today && t.done_by is None {
        "⏳"@
    } else {
        ""@
    }
}

/// What stands before the item at place `k`: the heading of its assignee
/// where the assignee changes, after a blank line where it is not the first.
pub open spec fn agenda_heading(items: Seq<AgendaItemView>, k: int) -> Seq<char> {
    if k == 0 {
        "Todos for "@ + items[k].username + ":\n"@
    } else if items[k].username != items[k - 1].username {
        "\n\n"@ + "Todos for "@ + items[k].username + ":\n"@
    } else {
        ""@
    }
}

/// The text of the item at place `k` of an agenda.
pub open spec fn agenda_entry(items: Seq<AgendaItemView>, k: int, today: i32) -> Seq<char> {
    agenda_heading(items, k) + "\n"@ + agenda_glyph(items[k].todo) + delay_mark(
        items[k].todo,
        today,
    ) + " "@ + items[k].todo.description
}

/// The text of the first `n` items of an agenda.
pub open spec fn agenda_entries(items: Seq<AgendaItemView>, n: int, today: i32) -> Seq<char>
    decreases n,
{
    if n <= 0 {
        Seq::<char>::empty()
    } else {
        agenda_entries(items, n - 1, today) + agenda_entry(items, n - 1, today)
    }
}

/// An agenda as text: one block per assignee, or a notice where it is empty.
pub open spec fn agenda_text(items: Seq<AgendaItemView>, today: i32) -> Seq<char> {
    if items.len() == 0 {
        "No todos for today."@
    } else {
        agenda_entries(items, items.len() as int, today)
    }
}

/// Whether a todo is actionable on the day `today`.
pub fn is_actionable(t: &Todo, today: i32) -> (r: bool)
    ensures
        r == actionable(t@, today),
{
    if t.interval_days.is_none() {
        t.scheduled_for <= today
    } else {
        (t.scheduled_for <= today && t.done_by.is_none()) || (t.scheduled_for == today
            && t.done_by.is_some())
    }
}

fn assignee_name_of(store: &Store, t: &Todo) -> (r: Option<String>)
    ensures
        r is Some <==> assignee_name(store@.members, t@) is Some,
        r matches Some(name) ==> name@ == assignee_name(store@.members, t@)->0,
{
    let members = store.members();
    let mut i: usize = 0;
    while i < members.len()
        invariant
            i <= members.len(),
            member_views(members@) == store@.members,
            assignee_name(store@.members.take(i as int), t@) is None,
        decreases members.len() - i,
    {
        assert(store@.members.take(i + 1).drop_last() =~= store@.members.take(i as int));
        assert(store@.members[i as int] == members@[i as int]@);
        if members[i].id == t.assigned_user && members[i].chat_id == t.chat_id {
            let name = members[i].username.clone();
            proof {
                lemma_assignee_name_prefix(store@.members, t@, i + 1);
            }
            return Some(name);
        }
        i = i + 1;
    }
    assert(store@.members.take(i as int) =~= store@.members);
    None
}

proof fn lemma_assignee_name_prefix(members: Seq<ChatMemberView>, t: TodoView, n: int)
    requires
        0 <= n <= members.len(),
        assignee_name(members.take(n), t) is Some,
    ensures
        assignee_name(members, t) == assignee_name(members.take(n), t),
    decreases members.len() - n,
{
    if n < members.len() {
        assert(members.take(n + 1).drop_last() =~= members.take(n));
        lemma_assignee_name_prefix(members, t, n + 1);
    } else {
        assert(members.take(n) =~= members);
    }
}

fn agenda_key_of(a: &AgendaItem) -> (r: SortKey)
    ensures
        r@ == agenda_key(a@),
{
    SortKey {
        group: a.username.clone(),
        rank: if a.todo.done_by.is_some() {
            1
        } else {
            0
        },
        number: 0,
        text: a.todo.description.clone(),
    }
}

/// The agenda of the chat `chat_id` for the day `today`, in agenda order.
pub fn get_agenda(chat_id: i64, store: &Store, today: i32) -> (r: Vec<AgendaItem>)
    ensures
        agenda_views(r@) == agenda(store@, chat_id, today),
{
    let todos = store.todos();
    let mut items: Vec<AgendaItem> = Vec::new();
    let mut i: usize = 0;
    assert(agenda_views(items@) =~= agenda_items(store@, chat_id, today, 0));
    while i < todos.len()
        invariant
            i <= todos.len(),
            todo_views(todos@) == store@.todos,
            agenda_views(items@) == agenda_items(store@, chat_id, today, i as int),
        decreases todos.len() - i,
    {
        assert(store@.todos[i as int] == todos@[i as int]@);
        if todos[i].chat_id == chat_id && is_actionable(&todos[i], today) {
            match assignee_name_of(store, &todos[i]) {
                Some(name) => {
                    let ghost before = agenda_views(items@);
                    let item = AgendaItem { username: name, todo: todos[i].duplicate() };
                    let ghost shown = item@;
                    items.push(item);
                    assert(agenda_views(items@) =~= before.push(shown));
                },
                None => {},
            }
        }
        i = i + 1;
    }
    let mut keys: Vec<SortKey> = Vec::new();
    let mut j: usize = 0;
    while j < items.len()
        invariant
            j <= items.len(),
            key_views(keys@) =~= agenda_keys(agenda_views(items@)).take(j as int),
        decreases items.len() - j,
    {
        let ghost before = key_views(keys@);
        let key = agenda_key_of(&items[j]);
        keys.push(key);
        assert(key_views(keys@) =~= before.push(agenda_key(items@[j as int]@)));
        j = j + 1;
    }
    assert(key_views(keys@) =~= agenda_keys(agenda_views(items@)));
    let order = sort_keys(&keys);
    let mut listed: Vec<AgendaItem> = Vec::new();
    let mut k: usize = 0;
    while k < order.len()
        invariant
            k <= order.len(),
            order@.len() == items@.len(),
            forall|i: int| 0 <= i < order@.len() ==> (#[trigger] order@[i]) < items@.len(),
            agenda_views(listed@) =~= arranged(agenda_views(items@), as_ints(order@)).take(
                k as int,
            ),
        decreases order.len() - k,
    {
        let ghost before = agenda_views(listed@);
        let src = &items[order[k]];
        let item = AgendaItem { username: src.username.clone(), todo: src.todo.duplicate() };
        let ghost shown = item@;
        listed.push(item);
        assert(agenda_views(listed@) =~= before.push(shown));
        k = k + 1;
    }
    assert(agenda_views(listed@) =~= arranged(agenda_views(items@), as_ints(order@)));
    listed
}

fn push_agenda_entry(out: &mut String, items: &Vec<AgendaItem>, k: usize, today: i32)
    requires
        k < items@.len(),
    ensures
        final(out)@ == old(out)@ + agenda_entry(agenda_views(items@), k as int, today),
{
    let ghost shown = agenda_views(items@);
    let item = &items[k];
    assert(shown[k as int] == item@);
    let new_group: bool = if k == 0 {
        true
    } else {
        assert(shown[k - 1] == items@[k - 1]@);
        items[k].username != items[k - 1].username
    };
    if new_group {
        if k > 0 {
            out.append("\n\n");
        }
        out.append("Todos for ");
        out.append(item.username.as_str());
        out.append(":\n");
    } else {
        out.append("");
    }
    assert(out@ =~= old(out)@ + agenda_heading(shown, k as int));
    out.append("\n");
    match item.todo.done_by {
        Some(u) => {
            if u == item.todo.assigned_user {
                out.append("✅");
            } else {
                out.append("✅ (delegated)");
            }
        },
        None => {
            out.append("☑️");
        },
    }
    if item.todo.scheduled_for < today && item.todo.done_by.is_none() {
        out.append("⏳");
    } else {
        out.append("");
    }
    out.append(" ");
    out.append(item.todo.description.as_str());
    assert(out@ =~= old(out)@ + agenda_entry(shown, k as int, today));
}

/// Renders an agenda, in the order given, for the day `today`.
pub fn render_agenda(items: &Vec<AgendaItem>, today: i32) -> (r: String)
    ensures
        r@ == agenda_text(agenda_views(items@), today),
{
    if items.len() == 0 {
        return String::from_str("No todos for today.");
    }
    let ghost shown = agenda_views(items@);
    let mut out = String::new();
    let mut k: usize = 0;
    assert(out@ =~= agenda_entries(shown, 0, today));
    while k < items.len()
        invariant
            k <= items.len(),
            shown == agenda_views(items@),
            out@ == agenda_entries(shown, k as int, today),
        decreases items.len() - k,
    {
        push_agenda_entry(&mut out, items, k, today);
        k = k + 1;
    }
    out
}

/// The agenda of the chat `chat_id`, rendered for the current day.
pub fn get_todos_by_username_as_string(chat_id: i64, store: &Store) -> (r: String)
    ensures
        exists|day: i32| r@ == agenda_text(agenda(store@, chat_id, day), day),
{
    let day = today();
    let items = get_agenda(chat_id, store, day);
    render_agenda(&items, day)
}

/// An answer of the engine with its reply as plain values.
pub open spec fn result_view(r: Result<Reply, LeditError>) -> Result<ReplyView, LeditError> {
    match r {
        Ok(reply) => Ok(reply@),
        Err(e) => Err(e),
    }
}

/// Every todo in the list of a chat is a todo of that chat in the store.
pub proof fn lemma_chat_todos(todos: Seq<TodoView>, chat_id: i64)
    ensures
        forall|k: int|
            0 <= k < chat_todos(todos, chat_id).len() ==> (#[trigger] chat_todos(
                todos,
                chat_id,
            )[k]).chat_id == chat_id && exists|i: int|
                0 <= i < todos.len() && #[trigger] todos[i] == chat_todos(todos, chat_id)[k],
        forall|i: int|
            0 <= i < todos.len() && (#[trigger] todos[i]).chat_id == chat_id ==> chat_todos(
                todos,
                chat_id,
            ).contains(todos[i]),
        chat_todos(todos, chat_id).len() <= todos.len(),
    decreases todos.len(),
{
    let mine = chat_todos(todos, chat_id);
    if todos.len() > 0 {
        let front = todos.drop_last();
        let rest = chat_todos(front, chat_id);
        lemma_chat_todos(front, chat_id);
        assert forall|k: int| 0 <= k < mine.len() implies (#[trigger] mine[k]).chat_id == chat_id
            && exists|i: int| 0 <= i < todos.len() && #[trigger] todos[i] == mine[k] by {
            if k < rest.len() {
                assert(mine[k] == rest[k]);
                let i = choose|i: int| 0 <= i < front.len() && #[trigger] front[i] == rest[k];
                assert(todos[i] == front[i]);
            } else {
                assert(todos[todos.len() - 1] == mine[k]);
            }
        }
        assert forall|i: int|
            0 <= i < todos.len() && (#[trigger] todos[i]).chat_id == chat_id implies mine.contains(
            todos[i],
        ) by {
            if i < front.len() {
                assert(front[i] == todos[i]);
                assert(rest.contains(front[i]));
                let k = choose|k: int| 0 <= k < rest.len() && rest[k] == front[i];
                assert(mine[k] == todos[i]);
            } else {
                assert(mine[mine.len() - 1] == todos[i]);
            }
        }
    }
}

/// The list of a chat holds exactly the todos of that chat in the store,
/// each once: as many as the chat has, each of them stored under its
/// identity with that chat.
pub proof fn lemma_sorted_todos(s: StoreView, chat_id: i64)
    requires
        s.wf(),
    ensures
        sorted_todos(s, chat_id).len() == chat_todos(s.todos, chat_id).len(),
        forall|k: int|
            0 <= k < sorted_todos(s, chat_id).len() ==> {
                let t = #[trigger] sorted_todos(s, chat_id)[k];
                &&& t.chat_id == chat_id
                &&& has_todo_id(s.todos, t.id)
                &&& s.todos[todo_index(s.todos, t.id)] == t
            },
{
    let mine = chat_todos(s.todos, chat_id);
    let order = sorted_order(listing_keys(mine));
    lemma_sorted_order(listing_keys(mine));
    lemma_chat_todos(s.todos, chat_id);
    let listed = sorted_todos(s, chat_id);
    assert forall|k: int| 0 <= k < listed.len() implies {
        let t = #[trigger] listed[k];
        &&& t.chat_id == chat_id
        &&& has_todo_id(s.todos, t.id)
        &&& s.todos[todo_index(s.todos, t.id)] == t
    } by {
        let t = listed[k];
        assert(t == mine[order[k]]);
        let i = choose|i: int| 0 <= i < s.todos.len() && #[trigger] s.todos[i] == mine[order[k]];
        assert(s.todos[i].id == t.id);
        let j = todo_index(s.todos, t.id);
        assert(0 <= j < s.todos.len() && s.todos[j].id == t.id);
        if i < j {
            assert(s.todos[i].id != s.todos[j].id);
        }
        if j < i {
            assert(s.todos[j].id != s.todos[i].id);
        }
    }
}

/// A new todo: open, with the interval as requested.
pub open spec fn new_todo(
    id: u128,
    chat_id: i64,
    title: Seq<char>,
    interval_days: Option<i64>,
    assigned_user: u128,
    today: i32,
) -> TodoView {
    TodoView {
        id: id,
        chat_id: chat_id,
        description: title,
        interval_days: interval_days,
        assigned_user: assigned_user,
        scheduled_for: today,
        done_by: None,
    }
}

/// The answer to adding the todo `t`: a confirmation with its description,
/// or the fault of the store.
pub open spec fn add_reply(s: StoreView, t: TodoView) -> Result<ReplyView, LeditError> {
    match add_todo_result(s, t) {
        Ok(_) => Ok(ReplyView { chat_id: t.chat_id, text: "Added: "@ + t.description }),
        Err(e) => Err(e),
    }
}

/// Adding the todo `t`, assigned to a member of its chat, led from the store
/// `before` to the store `after` with the answer `r`.
pub open spec fn add_outcome(
    before: StoreView,
    after: StoreView,
    r: Result<ReplyView, LeditError>,
    t: TodoView,
) -> bool {
    &&& has_member(before.members, t.assigned_user, t.chat_id)
    &&& !has_todo_id(before.todos, t.id)
    &&& after == add_todo_store(before, t)
    &&& r == add_reply(before, t)
}

/// Adds a todo to the chat of `message` under the identity `id`, assigned to
/// `assigned_user` and scheduled for `today`. An interval outside 1 to 999
/// days is dropped: the todo is then one-time.
pub fn add_todo_as(
    title: String,
    interval_days: Option<i64>,
    message: &Message,
    store: &mut Store,
    id: u128,
    assigned_user: u128,
    today: i32,
) -> (r: Result<Reply, LeditError>)
    requires
        old(store).wf(),
    ensures
        final(store).wf(),
        final(store)@ == add_todo_store(
            old(store)@,
            new_todo(id, message.chat_id, title@, interval_days, assigned_user, today),
        ),
        result_view(r) == add_reply(
            old(store)@,
            new_todo(id, message.chat_id, title@, interval_days, assigned_user, today),
        ),
{
    let mut text = String::from_str("Added: ");
    text.append(title.as_str());
    let todo = Todo {
        id: id,
        chat_id: message.chat_id,
        description: title,
        interval_days: interval_days,
        assigned_user: assigned_user,
        scheduled_for: today,
        done_by: None,
    };
    match store.add_todo(todo) {
        Ok(()) => Ok(Reply { chat_id: message.chat_id, text: text }),
        Err(e) => Err(e),
    }
}

/// A request to add a todo to the chat `chat_id` led from the store `before`
/// to the store `after` with the answer `r`: where the chat has no member,
/// nothing was stored and the answer is the error of the draw; where it has
/// one, the todo was added with some fresh identity, for some member of the
/// chat and some day.
pub open spec fn add_handled(
    before: StoreView,
    after: StoreView,
    r: Result<ReplyView, LeditError>,
    chat_id: i64,
    title: Seq<char>,
    interval_days: Option<i64>,
) -> bool {
    if member_ids(before.members, chat_id).len() == 0 {
        r == Err::<ReplyView, LeditError>(LeditError::RndUser) && after == before
    } else {
        exists|id: u128, assigned_user: u128, day: i32| #[trigger]
            add_outcome(
                before,
                after,
                r,
                new_todo(id, chat_id, title, interval_days, assigned_user, day),
            )
    }
}

/// The answer to a request for the list is the list of some day.
pub open spec fn list_handled(s: StoreView, chat_id: i64, r: ReplyView) -> bool {
    exists|day: i32| r == (ReplyView { chat_id: chat_id, text: #[trigger] list_text(s, chat_id, day) })
}

/// The answer to a request to delete position `num` is the one of some day.
pub open spec fn delete_handled(s: StoreView, chat_id: i64, num: i64, r: ReplyView) -> bool {
    exists|day: i32|
        r == (ReplyView { chat_id: chat_id, text: #[trigger] delete_text(s, chat_id, num, day) })
}

/// Adds a todo to the chat of `message`: assigned to a member of the chat
/// drawn at random, scheduled for the current day, under a fresh identity.
/// The identity is drawn at random; where the draw is taken, the smallest
/// free number stands in. So adding succeeds exactly where the chat has a
/// member and the title is a description; else nothing is stored.
pub fn handle_add_todo(
    title: String,
    interval_days: Option<i64>,
    message: &Message,
    store: &mut Store,
) -> (r: Result<Reply, LeditError>)
    requires
        old(store).wf(),
    ensures
        final(store).wf(),
        add_handled(
            old(store)@,
            final(store)@,
            result_view(r),
            message.chat_id,
            title@,
            interval_days,
        ),
        r is Ok <==> member_ids(old(store)@.members, message.chat_id).len() > 0 && description_ok(
            title@,
        ),
        r matches Err(e) ==> e == if member_ids(old(store)@.members, message.chat_id).len() == 0 {
            LeditError::RndUser
        } else {
            LeditError::Store(StoreFault::CheckViolation)
        },
        r is Ok ==> {
            let t = final(store)@.todos.last();
            &&& final(store)@.todos == old(store)@.todos.push(t)
            &&& final(store)@.members == old(store)@.members
            &&& t.chat_id == message.chat_id
            &&& t.description == title@
            &&& t.interval_days == stored_interval(interval_days)
            &&& t.done_by is None
            &&& has_member(old(store)@.members, t.assigned_user, message.chat_id)
        },
        r is Err ==> final(store)@ == old(store)@,
{
    let assigned_user = match get_random_chat_member(message.chat_id, store) {
        Ok(v) => v,
        Err(e) => {
            return Err(e);
        },
    };
    let id = store.fresh_todo_id(new_id());
    let day = today();
    let ghost t = new_todo(id, message.chat_id, title@, interval_days, assigned_user, day);
    let r = add_todo_as(title, interval_days, message, store, id, assigned_user, day);
    assert(add_outcome(old(store)@, store@, result_view(r), t));
    r
}

/// The answer to a request for the list: all todos of the chat, and below
/// them its agenda for the day.
pub open spec fn list_text(s: StoreView, chat_id: i64, today: i32) -> Seq<char> {
    all_todos_text(sorted_todos(s, chat_id), today) + "\n\n\n"@ + agenda_text(
        agenda(s, chat_id, today),
        today,
    )
}

/// Lists the todos of the chat of `message` for the day `today`.
pub fn list_todos_on(message: &Message, store: &Store, today: i32) -> (r: Reply)
    ensures
        r@ == (ReplyView {
            chat_id: message.chat_id,
            text: list_text(store@, message.chat_id, today),
        }),
{
    let listed = get_sorted_todos(message.chat_id, store);
    let mut text = render_all_todos(&listed, today);
    text.append("\n\n\n");
    let items = get_agenda(message.chat_id, store, today);
    let below = render_agenda(&items, today);
    text.append(below.as_str());
    Reply { chat_id: message.chat_id, text: text }
}

/// Lists the todos of the chat of `message` for the current day.
pub fn handle_list_todos(message: &Message, store: &Store) -> (r: Reply)
    ensures
        list_handled(store@, message.chat_id, r@),
{
    let day = today();
    list_todos_on(message, store, day)
}

/// An optional todo as plain values.
pub open spec fn found_view(t: Option<Todo>) -> Option<TodoView> {
    match t {
        Some(t) => Some(t@),
        None => None,
    }
}

/// The todo at the position `num` of the list of the chat `chat_id`, counted
/// from 1; none where the list has no such position.
pub fn get_todo_at(num: i64, chat_id: i64, store: &Store) -> (r: Option<Todo>)
    ensures
        found_view(r) == todo_at(sorted_todos(store@, chat_id), num),
{
    let mut listed = get_sorted_todos(chat_id, store);
    if num >= 1 && (num as u64) <= (listed.len() as u64) {
        let i: usize = (num - 1) as usize;
        assert(todo_views(listed@)[i as int] == listed@[i as int]@);
        Some(listed.swap_remove(i))
    } else {
        None
    }
}

/// The store after a request to delete the todo at position `num`: without
/// that todo, or unchanged where the list has no such position.
pub open spec fn delete_store(s: StoreView, chat_id: i64, num: i64) -> StoreView {
    match todo_at(sorted_todos(s, chat_id), num) {
        Some(t) => remove_todo_store(s, t.id),
        None => s,
    }
}

/// The answer to a request to delete the todo at position `num`: a
/// confirmation and the list as it is now, or a notice that the list has no
/// such position.
pub open spec fn delete_text(s: StoreView, chat_id: i64, num: i64, today: i32) -> Seq<char> {
    match todo_at(sorted_todos(s, chat_id), num) {
        Some(t) => "Deleted: "@ + t.description + "\n\n"@ + all_todos_text(
            sorted_todos(delete_store(s, chat_id, num), chat_id),
            today,
        ),
        None => "Todo not found."@,
    }
}

/// Deletes the todo at position `num` of the list of the chat of `message`,
/// and renders the answer for the day `today`.
pub fn delete_todo_on(num: i64, message: &Message, store: &mut Store, today: i32) -> (r: Reply)
    requires
        old(store).wf(),
    ensures
        final(store).wf(),
        final(store)@ == delete_store(old(store)@, message.chat_id, num),
        r@ == (ReplyView {
            chat_id: message.chat_id,
            text: delete_text(old(store)@, message.chat_id, num, today),
        }),
{
    match get_todo_at(num, message.chat_id, store) {
        Some(target) => {
            proof {
                lemma_sorted_todos(store@, message.chat_id);
            }
            store.remove_todo(target.id);
            let mut text = String::from_str("Deleted: ");
            text.append(target.description.as_str());
            text.append("\n\n");
            let now = get_sorted_todos(message.chat_id, store);
            let below = render_all_todos(&now, today);
            text.append(below.as_str());
            Reply { chat_id: message.chat_id, text: text }
        },
        None => Reply { chat_id: message.chat_id, text: String::from_str("Todo not found.") },
    }
}

/// Deletes the todo at position `num` of the list of the chat of `message`.
/// A position that the list does not have changes nothing.
pub fn handle_delete_todo(num: i64, message: &Message, store: &mut Store) -> (r: Reply)
    requires
        old(store).wf(),
    ensures
        final(store).wf(),
        final(store)@ == delete_store(old(store)@, message.chat_id, num),
        delete_handled(old(store)@, message.chat_id, num, r@),
{
    let day = today();
    delete_todo_on(num, message, store, day)
}

/// The identity under which the user `telegram_user_id` is registered in
/// the chat `chat_id`.
pub open spec fn registered_id(
    members: Seq<ChatMemberView>,
    telegram_user_id: i64,
    chat_id: i64,
) -> u128 {
    let i = choose|i: int|
        0 <= i < members.len() && (#[trigger] members[i]).telegram_user_id == telegram_user_id
            && members[i].chat_id == chat_id;
    members[i].id
}

/// Who has completed a todo after `actor` checks it: nobody where it was
/// done, `actor` where it was open.
pub open spec fn toggled(t: TodoView, actor: u128) -> Option<u128> {
    if t.done_by is Some {
        None
    } else {
        Some(actor)
    }
}

/// The todo that a check of position `num` by the sender of `message` acts
/// on: none where the sender is missing or not registered, or where the list
/// has no such position.
pub open spec fn check_target(s: StoreView, message: Message, num: i64) -> Option<TodoView> {
    if message.from is Some && is_registered(s.members, message.from->0.id, message.chat_id) {
        todo_at(sorted_todos(s, message.chat_id), num)
    } else {
        None
    }
}

/// The store after a check of position `num` by the sender of `message`.
pub open spec fn check_store(s: StoreView, message: Message, num: i64) -> StoreView {
    match check_target(s, message, num) {
        Some(t) => set_done_by_store(
            s,
            t.id,
            toggled(t, registered_id(s.members, message.from->0.id, message.chat_id)),
        ),
        None => s,
    }
}

/// The answer to a check of position `num` by the sender of `message`.
pub open spec fn check_reply(s: StoreView, message: Message, num: i64) -> Result<
    ReplyView,
    LeditError,
> {
    if message.from is None {
        Ok(ReplyView { chat_id: message.chat_id, text: "Unknown user."@ })
    } else if !is_registered(s.members, message.from->0.id, message.chat_id) {
        Err(LeditError::Store(StoreFault::RowNotFound))
    } else {
        match todo_at(sorted_todos(s, message.chat_id), num) {
            Some(t) => Ok(
                ReplyView {
                    chat_id: message.chat_id,
                    text: (if t.done_by is Some {
                        "☑️"@
                    } else {
                        "✅"@
                    }) + " "@ + t.description,
                },
            ),
            None => Ok(ReplyView { chat_id: message.chat_id, text: "Todo not found."@ }),
        }
    }
}

/// Checks the todo at position `num` of the list of the chat of `message`:
/// an open todo is completed by the sender, a completed one is opened again.
pub fn handle_check_todo(num: i64, message: &Message, store: &mut Store) -> (r: Result<
    Reply,
    LeditError,
>)
    requires
        old(store).wf(),
    ensures
        final(store).wf(),
        final(store)@ == check_store(old(store)@, *message, num),
        result_view(r) == check_reply(old(store)@, *message, num),
{
    let user = match &message.from {
        Some(user) => user,
        None => {
            return Ok(
                Reply { chat_id: message.chat_id, text: String::from_str("Unknown user.") },
            );
        },
    };
    let actor = match store.find_member(user.id, message.chat_id) {
        Some(id) => id,
        None => {
            return Err(LeditError::Store(StoreFault::RowNotFound));
        },
    };
    proof {
        lemma_registered_id(store@, actor, user.id, message.chat_id);
    }
    match get_todo_at(num, message.chat_id, store) {
        Some(target) => {
            proof {
                lemma_sorted_todos(store@, message.chat_id);
            }
            let done_by = if target.done_by.is_some() {
                None
            } else {
                Some(actor)
            };
            let mut text = if done_by.is_some() {
                String::from_str("✅")
            } else {
                String::from_str("☑️")
            };
            text.append(" ");
            text.append(target.description.as_str());
            assert(set_done_by_result(store@, target.id, done_by) is Ok);
            match store.set_done_by(target.id, done_by) {
                Ok(()) => Ok(Reply { chat_id: message.chat_id, text: text }),
                Err(e) => Err(e),
            }
        },
        None => Ok(
            Reply { chat_id: message.chat_id, text: String::from_str("Todo not found.") },
        ),
    }
}

/// The identity that a lookup of a registered user finds is the one they
/// are registered under, and names a member of that chat.
pub proof fn lemma_registered_id(s: StoreView, id: u128, telegram_user_id: i64, chat_id: i64)
    requires
        s.wf(),
        is_member_row(s.members, id, telegram_user_id, chat_id),
    ensures
        registered_id(s.members, telegram_user_id, chat_id) == id,
        has_member(s.members, id, chat_id),
{
    let a = choose|i: int|
        0 <= i < s.members.len() && (#[trigger] s.members[i]).id == id
            && s.members[i].telegram_user_id == telegram_user_id && s.members[i].chat_id
            == chat_id;
    let b = choose|i: int|
        0 <= i < s.members.len() && (#[trigger] s.members[i]).telegram_user_id
            == telegram_user_id && s.members[i].chat_id == chat_id;
    assert(s.members[a].telegram_user_id == telegram_user_id);
    if a < b {
        assert(s.members[a].id != s.members[b].id);
    }
    if b < a {
        assert(s.members[b].id != s.members[a].id);
    }
}

impl Todo {
    /// A copy of this todo.
    pub fn duplicate(&self) -> (r: Todo)
        ensures
            r@ == self@,
    {
        Todo {
            id: self.id,
            chat_id: self.chat_id,
            description: self.description.clone(),
            interval_days: self.interval_days,
            assigned_user: self.assigned_user,
            scheduled_for: self.scheduled_for,
            done_by: self.done_by,
        }
    }
}

} // verus!
