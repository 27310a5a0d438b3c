//! The scheduler: what a tick does to the store. Completed recurring todos
//! whose interval has passed start a new cycle, and completed one-time todos
//! are dropped after a day of grace.

use vstd::prelude::*;
use crate::handler::chat_member::{get_random_chat_member, ChatMemberView};
use crate::handler::todo::{Todo, TodoView};
use crate::message::{Reply, ReplyView};
use crate::store::{
    has_member,
    lemma_member_ids,
    lemma_todo_index,
    member_ids,
    new_cycle,
    Store,
    StoreView,
};
use crate::text::{parse_u64, parsed_u64};
use crate::util::today;

verus! {

/// The pause between two ticks in milliseconds where none is set, or where
/// what is set cannot be read.
pub const DEFAULT_SLEEP_MS: u64 = 10000;

/// The pause between two ticks, in milliseconds, for the setting `raw`: the
/// number that it holds, or the default where there is no setting or it
/// holds no number.
pub open spec fn sleep_setting(raw: Option<String>) -> u64 {
    match raw {
        Some(s) => match parsed_u64(s@) {
            Some(v) => v,
            None => DEFAULT_SLEEP_MS,
        },
        None => DEFAULT_SLEEP_MS,
    }
}

/// The pause between two ticks, in milliseconds, for the setting `raw`.
pub fn sleep_ms(raw: Option<String>) -> (r: u64)
    ensures
        r == sleep_setting(raw),
{
    match raw {
        Some(s) => match parse_u64(s.as_str()) {
            Some(v) => v,
            None => DEFAULT_SLEEP_MS,
        },
        None => DEFAULT_SLEEP_MS,
    }
}

/// A completed recurring todo whose interval has passed: it was scheduled
/// for a day more than `interval_days` days before `today`.
pub open spec fn due(t: TodoView, today: i32) -> bool {
    t.interval_days is Some && t.done_by is Some && t.scheduled_for < today - t.interval_days->0
}

/// A completed one-time todo whose day of grace has passed: it was scheduled
/// for a day more than one day before `today`.
pub open spec fn stale(t: TodoView, today: i32) -> bool {
    t.interval_days is None && t.done_by is Some && t.scheduled_for < today - 1
}

/// Whether a todo is due for a new cycle on the day `today`.
pub fn is_due(t: &Todo, today: i32) -> (r: bool)
    ensures
        r == due(t@, today),
{
    match t.interval_days {
        Some(n) => t.done_by.is_some() && (t.scheduled_for as i128) < (today as i128) - (
        n as i128),
        None => false,
    }
}

/// Whether a todo is to be dropped on the day `today`.
pub fn is_stale(t: &Todo, today: i32) -> (r: bool)
    ensures
        r == stale(t@, today),
{
    t.interval_days.is_none() && t.done_by.is_some() && (t.scheduled_for as i64) < (
    today as i64) - 1
}

/// What a pass of re-activation makes of one todo: a due todo starts a new
/// cycle with a member of its chat; any other todo stays as it is.
pub open spec fn reactivated(
    members: Seq<ChatMemberView>,
    before: TodoView,
    after: TodoView,
    today: i32,
) -> bool {
    if due(before, today) {
        exists|a: u128|
            #![trigger has_member(members, a, before.chat_id)]
            has_member(members, a, before.chat_id) && after == new_cycle(before, a, today)
    } else {
        after == before
    }
}

/// A pass of re-activation on the day `today` led from the store `before`
/// to the store `after`.
pub open spec fn reactivation_pass(before: StoreView, after: StoreView, today: i32) -> bool {
    &&& after.members == before.members
    &&& after.todos.len() == before.todos.len()
    &&& forall|i: int|
        0 <= i < before.todos.len() ==> reactivated(
            before.members,
            #[trigger] before.todos[i],
            after.todos[i],
            today,
        )
}

/// A tick on the day `day` led from the store `before` over the store
/// `between` to the store `after`, with the notices `notices`: the pass of
/// re-activation came first, the purge second.
pub open spec fn tick(
    before: StoreView,
    between: StoreView,
    after: StoreView,
    notices: Seq<ReplyView>,
    day: i32,
) -> bool {
    &&& reactivation_pass(before, between, day)
    &&& after.members == between.members
    &&& after.todos == without_stale(between.todos, day)
    &&& notices == purge_notices(between.todos, day)
}

/// The number of todos that are due on the day `today`.
pub open spec fn due_count(todos: Seq<TodoView>, today: i32) -> nat
    decreases todos.len(),
{
    if todos.len() == 0 {
        0
    } else {
        due_count(todos.drop_last(), today) + if due(todos.last(), today) {
            1nat
        } else {
            0nat
        }
    }
}

/// Starts a new cycle for every todo that is due on the day `today`, each
/// with a member of its chat drawn at random. Returns how many were due.
pub fn re_schedule_todos(store: &mut Store, today: i32) -> (r: usize)
    requires
        old(store).wf(),
    ensures
        final(store).wf(),
        reactivation_pass(old(store)@, final(store)@, today),
        r == due_count(old(store)@.todos, today),
{
    let ghost before = store@;
    let n: usize = store.todos().len();
    let mut count: usize = 0;
    let mut i: usize = 0;
    while i < n
        invariant
            i <= n,
            n == before.todos.len(),
            before.wf(),
            store.wf(),
            store@.members == before.members,
            store@.todos.len() == n,
            count == due_count(before.todos.take(i as int), today),
            count <= i,
            forall|j: int|
                0 <= j < i ==> reactivated(
                    before.members,
                    #[trigger] before.todos[j],
                    store@.todos[j],
                    today,
                ),
            forall|j: int| i <= j < n ==> store@.todos[j] == #[trigger] before.todos[j],
        decreases n - i,
    {
        let ghost now = store@;
        let todos = store.todos();
        assert(store@.todos[i as int] == todos@[i as int]@);
        assert(before.todos.take(i + 1).drop_last() =~= before.todos.take(i as int));
        if is_due(&todos[i], today) {
            let id = todos[i].id;
            let chat_id = todos[i].chat_id;
            proof {
                lemma_member_ids(now.members, chat_id);
                lemma_todo_index(now, i as int);
                assert(has_member(now.members, now.todos[i as int].assigned_user, chat_id));
                assert(member_ids(now.members, chat_id).contains(
                    now.todos[i as int].assigned_user,
                ));
            }
            // The assignee of the todo is a member of its chat, so the draw
            // finds one, and the store accepts the new cycle.
            if let Ok(a) = get_random_chat_member(chat_id, store) {
                if store.reschedule(id, a, today).is_ok() {
                    count = count + 1;
                }
                assert(store@.todos[i as int] == new_cycle(before.todos[i as int], a, today));
            }
        }
        i = i + 1;
    }
    assert(before.todos.take(n as int) =~= before.todos);
    count
}

/// The todos that a purge on the day `today` keeps, in their order.
pub open spec fn without_stale(todos: Seq<TodoView>, today: i32) -> Seq<TodoView>
    decreases todos.len(),
{
    if todos.len() == 0 {
        Seq::<TodoView>::empty()
    } else {
        let rest = without_stale(todos.drop_last(), today);
        if stale(todos.last(), today) {
            rest
        } else {
            rest.push(todos.last())
        }
    }
}

/// The notice that tells a chat that one of its todos was dropped.
pub open spec fn purge_notice(t: TodoView) -> ReplyView {
    ReplyView { chat_id: t.chat_id, text: "🗑 Deleting old & done todo: "@ + t.description }
}

/// The notices of a purge on the day `today`: one for each todo that it
/// drops, in their order.
pub open spec fn purge_notices(todos: Seq<TodoView>, today: i32) -> Seq<ReplyView>
    decreases todos.len(),
{
    if todos.len() == 0 {
        Seq::<ReplyView>::empty()
    } else {
        let rest = purge_notices(todos.drop_last(), today);
        if stale(todos.last(), today) {
            rest.push(purge_notice(todos.last()))
        } else {
            rest
        }
    }
}

/// The views of a sequence of replies, in the same order.
pub open spec fn reply_views(s: Seq<Reply>) -> Seq<ReplyView> {
    s.map_values(|r: Reply| r@)
}

/// Drops every completed one-time todo whose day of grace has passed on the
/// day `today`, and returns a notice for the chat of each.
pub fn delete_one_time_todos(store: &mut Store, today: i32) -> (r: Vec<Reply>)
    requires
        old(store).wf(),
    ensures
        final(store).wf(),
        final(store)@.members == old(store)@.members,
        final(store)@.todos == without_stale(old(store)@.todos, today),
        reply_views(r@) == purge_notices(old(store)@.todos, today),
{
    let ghost before = store@;
    let mut notices: Vec<Reply> = Vec::new();
    let mut i: usize = 0;
    let ghost mut k: int = 0;
    assert(store@.todos =~= without_stale(before.todos.take(0), today) + before.todos.skip(0));
    assert(reply_views(notices@) =~= purge_notices(before.todos.take(0), today));
    while i < store.todos().len()
        invariant
            store.wf(),
            store@.members == before.members,
            0 <= k <= before.todos.len(),
            i == without_stale(before.todos.take(k), today).len(),
            store@.todos == without_stale(before.todos.take(k), today) + before.todos.skip(k),
            reply_views(notices@) == purge_notices(before.todos.take(k), today),
        decreases before.todos.len() - k,
    {
        let ghost now = store@;
        let todos = store.todos();
        assert(store@.todos[i as int] == todos@[i as int]@);
        assert(now.todos[i as int] == before.todos[k]);
        assert(before.todos.take(k + 1).drop_last() =~= before.todos.take(k));
        if is_stale(&todos[i], today) {
            let id = todos[i].id;
            let chat_id = todos[i].chat_id;
            let mut text = String::from_str("🗑 Deleting old & done todo: ");
            text.append(todos[i].description.as_str());
            let ghost shown = reply_views(notices@);
            let notice = Reply { chat_id: chat_id, text: text };
            assert(notice@ == purge_notice(before.todos[k]));
            notices.push(notice);
            assert(reply_views(notices@) =~= shown.push(purge_notice(before.todos[k])));
            proof {
                lemma_todo_index(now, i as int);
            }
            store.remove_todo(id);
            assert(store@.todos =~= without_stale(before.todos.take(k + 1), today)
                + before.todos.skip(k + 1));
        } else {
            assert(store@.todos =~= without_stale(before.todos.take(k + 1), today)
                + before.todos.skip(k + 1));
            i = i + 1;
        }
        proof {
            k = k + 1;
        }
    }
    assert(before.todos.take(k) =~= before.todos);
    assert(store@.todos =~= without_stale(before.todos, today));
    notices
}

/// One tick of the scheduler on the current day: the pass of re-activation,
/// then the purge. Returns the notices of the purge.
pub fn interval_actions(store: &mut Store) -> (r: Vec<Reply>)
    requires
        old(store).wf(),
    ensures
        final(store).wf(),
        exists|day: i32, between: StoreView| #[trigger]
            tick(old(store)@, between, final(store)@, reply_views(r@), day),
{
    let day = today();
    re_schedule_todos(store, day);
    let ghost between = store@;
    let notices = delete_one_time_todos(store, day);
    assert(tick(old(store)@, between, store@, reply_views(notices@), day));
    notices
}

} // verus!
