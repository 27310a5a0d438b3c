//! What holds of the engine as a whole, stated over the same models that the
//! contracts of its functions use.

use vstd::prelude::*;
use crate::error::{LeditError, StoreFault};
use crate::action::{
    add_executed,
    answer,
    classified,
    failure_text,
    lemma_title_cut,
    parsed_position,
    ActionView,
    FindingsView,
};
use crate::handler::chat_member::{is_new_sender, register_result, register_store};
use crate::handler::todo::{
    actionable,
    add_handled,
    description_ok,
    agenda,
    agenda_items,
    agenda_key,
    agenda_keys,
    AgendaItemView,
    add_outcome,
    arranged,
    chat_todos,
    check_store,
    check_target,
    delete_store,
    delete_text,
    todo_at,
    lemma_sorted_todos,
    listing_key,
    listing_keys,
    new_todo,
    registered_id,
    sorted_todos,
    stored_interval,
    toggled,
    TodoView,
};
use crate::interval::{
    due,
    purge_notices,
    reactivated,
    reactivation_pass,
    stale,
    without_stale,
};
use crate::message::ReplyView;
use crate::message::Message;
use crate::order::{
    is_arrangement,
    keeps_ties,
    key_lt,
    lemma_key_irreflexive,
    lemma_sorted_order,
    sorted_order,
};
use crate::store::{
    has_member,
    has_todo_id,
    is_registered,
    lemma_todo_index,
    member_ids,
    set_done_by_result,
    set_done_by_store,
    todo_index,
    todo_ok,
    with_done_by,
    StoreView,
};
use crate::text::{lex_lt, parsed_i64};

verus! {

/// In a chat with at least one member, adding a todo whose title is a
/// description always succeeds: it stores exactly one new todo, under an
/// identity that no todo had, which belongs to the chat, is open, has the
/// interval that is kept of the one asked for, and is assigned to a member
/// of that chat. A title that is no description is refused, and the store
/// stays as it was.
pub proof fn law_add_assigns_member_of_chat(
    before: StoreView,
    after: StoreView,
    r: Result<ReplyView, LeditError>,
    chat_id: i64,
    title: Seq<char>,
    interval_days: Option<i64>,
)
    requires
        before.wf(),
        member_ids(before.members, chat_id).len() > 0,
        add_handled(before, after, r, chat_id, title, interval_days),
    ensures
        r is Ok <==> description_ok(title),
        r is Ok ==> {
            let t = after.todos.last();
            &&& after.wf()
            &&& after.members == before.members
            &&& after.todos == before.todos.push(t)
            &&& !has_todo_id(before.todos, t.id)
            &&& t.chat_id == chat_id
            &&& t.description == title
            &&& t.interval_days == stored_interval(interval_days)
            &&& t.done_by is None
            &&& has_member(after.members, t.assigned_user, chat_id)
            &&& r->Ok_0 == (ReplyView { chat_id: chat_id, text: "Added: "@ + title })
        },
        r matches Err(e) ==> e == LeditError::Store(StoreFault::CheckViolation) && after
            == before,
{
    let (id, assigned_user, day) = choose|id: u128, assigned_user: u128, day: i32| #[trigger]
        add_outcome(
            before,
            after,
            r,
            new_todo(id, chat_id, title, interval_days, assigned_user, day),
        );
    let t = new_todo(id, chat_id, title, interval_days, assigned_user, day);
    assert(add_outcome(before, after, r, t));
    if r is Ok {
        let stored = after.todos.last();
        assert forall|a: int, b: int| 0 <= a < b < after.todos.len() implies (
        #[trigger] after.todos[a]).id != (#[trigger] after.todos[b]).id by {
            if b < before.todos.len() {
                assert(before.todos[a].id != before.todos[b].id);
            } else {
                assert(after.todos[a] == before.todos[a]);
            }
        }
        assert forall|a: int| 0 <= a < after.todos.len() implies todo_ok(
            after.members,
            #[trigger] after.todos[a],
        ) by {
            if a < before.todos.len() {
                assert(todo_ok(before.members, before.todos[a]));
            }
        }
    }
}

/// In a chat without members, adding a todo stores nothing and answers with
/// the error of the failed draw.
pub proof fn law_add_needs_a_member(
    before: StoreView,
    after: StoreView,
    r: Result<ReplyView, LeditError>,
    chat_id: i64,
    title: Seq<char>,
    interval_days: Option<i64>,
)
    requires
        member_ids(before.members, chat_id).len() == 0,
        add_handled(before, after, r, chat_id, title, interval_days),
    ensures
        after == before,
        r == Err::<ReplyView, LeditError>(LeditError::RndUser),
{
}

/// An interval outside 1 to 999 days does not keep a todo from being added:
/// in a chat with at least one member, a todo whose title is a description
/// is stored whatever interval was asked for, with that interval where it
/// lies between 1 and 999 days and with none otherwise.
pub proof fn law_interval_outside_range_is_absent(
    before: StoreView,
    after: StoreView,
    r: Result<ReplyView, LeditError>,
    chat_id: i64,
    title: Seq<char>,
    interval_days: Option<i64>,
)
    requires
        before.wf(),
        member_ids(before.members, chat_id).len() > 0,
        description_ok(title),
        add_handled(before, after, r, chat_id, title, interval_days),
    ensures
        r is Ok,
        after.todos == before.todos.push(after.todos.last()),
        after.todos.last().interval_days == stored_interval(interval_days),
        interval_days matches Some(v) && !(1 <= v <= 999) ==> after.todos.last().interval_days
            is None,
{
    law_add_assigns_member_of_chat(before, after, r, chat_id, title, interval_days);
}

/// Every interval in a store that keeps its constraints lies between 1 and
/// 999 days.
pub proof fn law_stored_intervals_in_range(s: StoreView, i: int)
    requires
        s.wf(),
        0 <= i < s.todos.len(),
    ensures
        s.todos[i].interval_days matches Some(v) ==> 1 <= v <= 999,
{
}

/// A completed recurring todo with an interval of `n` days stays as it is in
/// a pass of re-activation while the day is not past `scheduled_for + n`;
/// once the day is past it, the pass opens the todo again, schedules it for
/// the day of the pass and assigns it to a member of its chat.
pub proof fn law_reactivation(before: StoreView, after: StoreView, today: i32, i: int)
    requires
        reactivation_pass(before, after, today),
        0 <= i < before.todos.len(),
        before.todos[i].interval_days is Some,
        before.todos[i].done_by is Some,
    ensures
        today <= before.todos[i].scheduled_for + before.todos[i].interval_days->0
            ==> after.todos[i] == before.todos[i],
        today > before.todos[i].scheduled_for + before.todos[i].interval_days->0 ==> {
            let t = after.todos[i];
            &&& t.done_by is None
            &&& t.scheduled_for == today
            &&& has_member(before.members, t.assigned_user, t.chat_id)
            &&& t.id == before.todos[i].id
            &&& t.chat_id == before.todos[i].chat_id
            &&& t.description == before.todos[i].description
            &&& t.interval_days == before.todos[i].interval_days
        },
{
    assert(reactivated(before.members, before.todos[i], after.todos[i], today));
}

/// A pass of re-activation touches nothing but the todos that are due: a
/// todo that is open, or one-time, stays as it is.
pub proof fn law_reactivation_spares_the_rest(
    before: StoreView,
    after: StoreView,
    today: i32,
    i: int,
)
    requires
        reactivation_pass(before, after, today),
        0 <= i < before.todos.len(),
        before.todos[i].interval_days is None || before.todos[i].done_by is None,
    ensures
        after.todos[i] == before.todos[i],
{
    assert(reactivated(before.members, before.todos[i], after.todos[i], today));
}

/// After a pass of re-activation no todo is due on that day: a second pass
/// on the same day changes nothing.
pub proof fn law_reactivation_settles(
    before: StoreView,
    after: StoreView,
    again: StoreView,
    today: i32,
)
    requires
        reactivation_pass(before, after, today),
        reactivation_pass(after, again, today),
    ensures
        again == after,
{
    assert forall|i: int| 0 <= i < after.todos.len() implies again.todos[i] == after.todos[i] by {
        assert(reactivated(before.members, before.todos[i], after.todos[i], today));
        assert(reactivated(after.members, after.todos[i], again.todos[i], today));
        assert(!due(after.todos[i], today));
    }
    assert(again.todos =~= after.todos);
}

/// A completed one-time todo is kept by a purge up to the day after the one
/// it was scheduled for, and dropped by a purge on any later day. Any other
/// todo is kept.
pub proof fn law_purge(todos: Seq<TodoView>, today: i32, i: int)
    requires
        0 <= i < todos.len(),
    ensures
        todos[i].interval_days is None && todos[i].done_by is Some ==> (stale(todos[i], today)
            <==> today > todos[i].scheduled_for + 1),
        !stale(todos[i], today) ==> without_stale(todos, today).contains(todos[i]),
        forall|k: int|
            0 <= k < without_stale(todos, today).len() ==> !stale(
                #[trigger] without_stale(todos, today)[k],
                today,
            ) && todos.contains(without_stale(todos, today)[k]),
    decreases todos.len(),
{
    let kept = without_stale(todos, today);
    let front = todos.drop_last();
    let rest = without_stale(front, today);
    if i < todos.len() - 1 {
        law_purge(front, today, i);
        assert(front[i] == todos[i]);
        if !stale(todos[i], today) {
            let k = choose|k: int| 0 <= k < rest.len() && rest[k] == front[i];
            assert(kept[k] == todos[i]);
        }
    } else {
        if todos.len() > 1 {
            law_purge(front, today, 0);
        }
        if !stale(todos[i], today) {
            assert(kept[kept.len() - 1] == todos[i]);
        }
    }
    assert forall|k: int| 0 <= k < kept.len() implies !stale(#[trigger] kept[k], today)
        && todos.contains(kept[k]) by {
        if k < rest.len() {
            assert(kept[k] == rest[k]);
            let j = choose|j: int| 0 <= j < front.len() && front[j] == rest[k];
            assert(todos[j] == kept[k]);
        } else {
            assert(todos[todos.len() - 1] == kept[k]);
        }
    }
}

/// After a purge no todo is stale on that day: a second purge on the same
/// day drops nothing and sends no notice.
pub proof fn law_purge_settles(todos: Seq<TodoView>, today: i32)
    ensures
        without_stale(without_stale(todos, today), today) == without_stale(todos, today),
        purge_notices(without_stale(todos, today), today).len() == 0,
    decreases todos.len(),
{
    if todos.len() > 0 {
        law_purge_settles(todos.drop_last(), today);
        if !stale(todos.last(), today) {
            let rest = without_stale(todos.drop_last(), today);
            assert(rest.push(todos.last()).drop_last() =~= rest);
        }
    }
}

/// What the listing order means for two todos: a one-time todo comes before
/// a recurring one; two one-time todos go by description; two recurring ones
/// go by interval, the shorter first, and then by description.
pub proof fn law_listing_order(a: TodoView, b: TodoView)
    ensures
        key_lt(listing_key(a), listing_key(b)) <==> match (a.interval_days, b.interval_days) {
            (None, None) => lex_lt(a.description, b.description),
            (None, Some(_)) => true,
            (Some(_), None) => false,
            (Some(x), Some(y)) => x < y || (x == y && lex_lt(a.description, b.description)),
        },
{
}

/// The list of a chat holds the todos of the chat, each once, in ascending
/// listing order; todos that the order does not tell apart are listed in the
/// order in which they were stored. So the list, and with it the position of
/// every todo, is a function of the stored todos alone.
pub proof fn law_list_is_ordered(s: StoreView, chat_id: i64)
    ensures
        sorted_todos(s, chat_id) == arranged(
            chat_todos(s.todos, chat_id),
            sorted_order(listing_keys(chat_todos(s.todos, chat_id))),
        ),
        is_arrangement(
            sorted_order(listing_keys(chat_todos(s.todos, chat_id))),
            chat_todos(s.todos, chat_id).len() as int,
        ),
        keeps_ties(
            sorted_order(listing_keys(chat_todos(s.todos, chat_id))),
            listing_keys(chat_todos(s.todos, chat_id)),
        ),
        forall|i: int, j: int|
            0 <= i < j < sorted_todos(s, chat_id).len() ==> !key_lt(
                listing_key(#[trigger] sorted_todos(s, chat_id)[j]),
                listing_key(#[trigger] sorted_todos(s, chat_id)[i]),
            ),
{
    let mine = chat_todos(s.todos, chat_id);
    let keys = listing_keys(mine);
    let order = sorted_order(keys);
    lemma_sorted_order(keys);
    let listed = sorted_todos(s, chat_id);
    assert forall|i: int, j: int| 0 <= i < j < listed.len() implies !key_lt(
        listing_key(#[trigger] listed[j]),
        listing_key(#[trigger] listed[i]),
    ) by {
        assert(listing_key(listed[i]) == keys[order[i]]);
        assert(listing_key(listed[j]) == keys[order[j]]);
    }
}

/// In the list of a chat a todo that the listing order puts before another
/// stands before it, whatever their identities, their assignees and the
/// order in which they were stored. Only todos that the order does not tell
/// apart, which have the same interval and the same description, go by the
/// order in which they were stored.
pub proof fn law_list_goes_by_key(s: StoreView, chat_id: i64, i: int, j: int)
    requires
        0 <= i < sorted_todos(s, chat_id).len(),
        0 <= j < sorted_todos(s, chat_id).len(),
        key_lt(
            listing_key(sorted_todos(s, chat_id)[i]),
            listing_key(sorted_todos(s, chat_id)[j]),
        ),
    ensures
        i < j,
{
    law_list_is_ordered(s, chat_id);
    lemma_key_irreflexive(listing_key(sorted_todos(s, chat_id)[i]));
    if j < i {
        assert(!key_lt(
            listing_key(sorted_todos(s, chat_id)[i]),
            listing_key(sorted_todos(s, chat_id)[j]),
        ));
    }
}

/// Two todos agree in what they are listed by: their chat, their
/// description and their interval. Their identity, who completed them, whom
/// they are assigned to and when they are scheduled may differ.
pub open spec fn same_listing(a: TodoView, b: TodoView) -> bool {
    &&& a.chat_id == b.chat_id
    &&& a.description == b.description
    &&& a.interval_days == b.interval_days
}

/// The places in `todos` of the todos of the chat `chat_id`, ascending.
pub open spec fn chat_places(todos: Seq<TodoView>, chat_id: i64) -> Seq<int>
    decreases todos.len(),
{
    if todos.len() == 0 {
        Seq::<int>::empty()
    } else {
        let rest = chat_places(todos.drop_last(), chat_id);
        if todos.last().chat_id == chat_id {
            rest.push(todos.len() - 1)
        } else {
            rest
        }
    }
}

proof fn lemma_chat_places(todos: Seq<TodoView>, chat_id: i64)
    ensures
        chat_places(todos, chat_id).len() == chat_todos(todos, chat_id).len(),
        forall|k: int|
            0 <= k < chat_places(todos, chat_id).len() ==> 0 <= (#[trigger] chat_places(
                todos,
                chat_id,
            )[k]) < todos.len() && chat_todos(todos, chat_id)[k] == todos[chat_places(
                todos,
                chat_id,
            )[k]],
    decreases todos.len(),
{
    if todos.len() > 0 {
        let front = todos.drop_last();
        lemma_chat_places(front, chat_id);
        let places = chat_places(todos, chat_id);
        let rest = chat_places(front, chat_id);
        assert forall|k: int| 0 <= k < places.len() implies 0 <= (#[trigger] places[k])
            < todos.len() && chat_todos(todos, chat_id)[k] == todos[places[k]] by {
            if k < rest.len() {
                assert(places[k] == rest[k]);
                assert(front[rest[k]] == todos[rest[k]]);
            }
        }
    }
}

proof fn lemma_chat_places_agree(a: Seq<TodoView>, b: Seq<TodoView>, chat_id: i64)
    requires
        a.len() == b.len(),
        forall|i: int| 0 <= i < a.len() ==> same_listing(#[trigger] a[i], b[i]),
    ensures
        chat_places(a, chat_id) == chat_places(b, chat_id),
    decreases a.len(),
{
    if a.len() > 0 {
        assert(same_listing(a[a.len() - 1], b[a.len() - 1]));
        assert forall|i: int| 0 <= i < a.drop_last().len() implies same_listing(
            #[trigger] a.drop_last()[i],
            b.drop_last()[i],
        ) by {
            assert(same_listing(a[i], b[i]));
        }
        lemma_chat_places_agree(a.drop_last(), b.drop_last(), chat_id);
    }
}

/// Position `k + 1` of the list of the chat names the todo at the same place
/// of the stores `a` and `b`.
pub open spec fn same_place(a: StoreView, b: StoreView, chat_id: i64, k: int) -> bool {
    exists|i: int|
        0 <= i < a.todos.len() && #[trigger] a.todos[i] == sorted_todos(a, chat_id)[k]
            && b.todos[i] == sorted_todos(b, chat_id)[k]
}

/// The list of a chat depends on the chat, the description and the interval
/// of the stored todos and on nothing else about them: not on their
/// identity, not on who completed a todo, whom it is assigned to or when it
/// is scheduled. Where two stores differ in nothing else, every position of
/// the list names the todo at the same place of both stores.
pub proof fn law_positions_ignore_the_cycle(a: StoreView, b: StoreView, chat_id: i64)
    requires
        a.todos.len() == b.todos.len(),
        forall|i: int| 0 <= i < a.todos.len() ==> same_listing(#[trigger] a.todos[i], b.todos[i]),
    ensures
        sorted_todos(a, chat_id).len() == sorted_todos(b, chat_id).len(),
        forall|k: int|
            0 <= k < sorted_todos(a, chat_id).len() ==> #[trigger] same_place(a, b, chat_id, k),
{
    let ma = chat_todos(a.todos, chat_id);
    let mb = chat_todos(b.todos, chat_id);
    let places = chat_places(a.todos, chat_id);
    lemma_chat_places(a.todos, chat_id);
    lemma_chat_places(b.todos, chat_id);
    lemma_chat_places_agree(a.todos, b.todos, chat_id);
    assert forall|k: int| 0 <= k < ma.len() implies listing_keys(ma)[k] == listing_keys(mb)[k] by {
        assert(same_listing(a.todos[places[k]], b.todos[places[k]]));
    }
    assert(listing_keys(ma) =~= listing_keys(mb));
    let order = sorted_order(listing_keys(ma));
    lemma_sorted_order(listing_keys(ma));
    assert forall|k: int| 0 <= k < sorted_todos(a, chat_id).len() implies #[trigger] same_place(
        a,
        b,
        chat_id,
        k,
    ) by {
        let i = places[order[k]];
        assert(a.todos[i] == sorted_todos(a, chat_id)[k]);
        assert(b.todos[i] == sorted_todos(b, chat_id)[k]);
    }
}

/// Setting who completed a todo keeps the constraints of the store.
pub proof fn lemma_set_done_by_keeps_wf(s: StoreView, id: u128, done_by: Option<u128>)
    requires
        s.wf(),
    ensures
        set_done_by_store(s, id, done_by).wf(),
{
    if set_done_by_result(s, id, done_by) is Ok {
        let i = todo_index(s.todos, id);
        let after = set_done_by_store(s, id, done_by);
        assert forall|a: int, b: int| 0 <= a < b < after.todos.len() implies (
        #[trigger] after.todos[a]).id != (#[trigger] after.todos[b]).id by {
            assert(s.todos[a].id != s.todos[b].id);
        }
        assert forall|a: int| 0 <= a < after.todos.len() implies todo_ok(
            after.members,
            #[trigger] after.todos[a],
        ) by {
            assert(todo_ok(s.members, s.todos[a]));
        }
    }
}

/// Checking the same position twice, by the same sender and with nothing in
/// between, leaves every todo completed or open as it was, and changes
/// nothing else about it. Where the todo was open, or completed by that
/// sender, the store is back as it was.
pub proof fn law_check_twice(s: StoreView, message: Message, num: i64)
    requires
        s.wf(),
    ensures
        ({
            let twice = check_store(check_store(s, message, num), message, num);
            &&& twice.members == s.members
            &&& twice.todos.len() == s.todos.len()
            &&& forall|i: int|
                0 <= i < s.todos.len() ==> same_listing(#[trigger] twice.todos[i], s.todos[i])
                    && twice.todos[i].id == s.todos[i].id && twice.todos[i].assigned_user
                    == s.todos[i].assigned_user
                    && twice.todos[i].scheduled_for == s.todos[i].scheduled_for && (
                twice.todos[i].done_by is Some <==> s.todos[i].done_by is Some)
            &&& (check_target(s, message, num) matches Some(t) ==> (t.done_by is None
                || t.done_by == Some(
                registered_id(s.members, message.from->0.id, message.chat_id),
            )) ==> twice == s)
            &&& (check_target(s, message, num) is None ==> twice == s)
        }),
{
    let chat_id = message.chat_id;
    let once = check_store(s, message, num);
    let twice = check_store(once, message, num);
    match check_target(s, message, num) {
        None => {},
        Some(t) => {
            let actor = registered_id(s.members, message.from->0.id, chat_id);
            lemma_sorted_todos(s, chat_id);
            let listed = sorted_todos(s, chat_id);
            assert(listed[num - 1] == t);
            let i = todo_index(s.todos, t.id);
            assert(s.todos[i] == t);
            let m = choose|m: int|
                0 <= m < s.members.len() && (#[trigger] s.members[m]).telegram_user_id
                    == message.from->0.id && s.members[m].chat_id == chat_id;
            assert(s.members[m].id == actor);
            assert(has_member(s.members, actor, chat_id));
            let d1 = toggled(t, actor);
            assert(set_done_by_result(s, t.id, d1) is Ok);
            assert(once.todos == s.todos.update(i, with_done_by(t, d1)));
            lemma_set_done_by_keeps_wf(s, t.id, d1);
            assert(once.wf());
            assert forall|j: int| 0 <= j < s.todos.len() implies same_listing(
                #[trigger] s.todos[j],
                once.todos[j],
            ) by {}
            law_positions_ignore_the_cycle(s, once, chat_id);
            assert(same_place(s, once, chat_id, num - 1));
            let j = choose|j: int|
                0 <= j < s.todos.len() && #[trigger] s.todos[j] == sorted_todos(s, chat_id)[num - 1]
                    && once.todos[j] == sorted_todos(once, chat_id)[num - 1];
            lemma_todo_index(s, j);
            assert(j == i);
            let t1 = with_done_by(t, d1);
            assert(check_target(once, message, num) == Some(t1));
            lemma_todo_index(once, i);
            let d2 = toggled(t1, actor);
            assert(set_done_by_result(once, t.id, d2) is Ok);
            assert(twice.todos == once.todos.update(i, with_done_by(t1, d2)));
            assert(twice.todos =~= s.todos.update(i, with_done_by(t, d2)));
            if t.done_by is None || t.done_by == Some(actor) {
                assert(twice.todos =~= s.todos);
            }
        },
    }
}

/// Carried out as an action in a chat without members, adding a todo stores
/// nothing and tells the chat that the todo could not be assigned.
pub proof fn law_add_without_members_is_answered(
    before: StoreView,
    after: StoreView,
    r: Option<ReplyView>,
    chat_id: i64,
    title: Seq<char>,
    interval_days: Option<i64>,
)
    requires
        member_ids(before.members, chat_id).len() == 0,
        add_executed(before, after, r, chat_id, title, interval_days),
    ensures
        after == before,
        r == Some(ReplyView { chat_id: chat_id, text: "Failed to assign todo."@ }),
{
    let res = choose|res: Result<ReplyView, LeditError>|
        #![trigger add_handled(before, after, res, chat_id, title, interval_days)]
        add_handled(before, after, res, chat_id, title, interval_days) && r == Some(
            answer(chat_id, res),
        );
    assert(failure_text(LeditError::RndUser) == "Failed to assign todo."@);
}

/// A request to delete a position that the list of the chat does not have,
/// zero and negative positions among them, leaves the store as it is and
/// says that the todo was not found.
pub proof fn law_delete_of_missing_position(s: StoreView, chat_id: i64, num: i64, today: i32)
    requires
        !(1 <= num <= sorted_todos(s, chat_id).len()),
    ensures
        delete_store(s, chat_id, num) == s,
        delete_text(s, chat_id, num, today) == "Todo not found."@,
{
}

/// A title that was read from a message is a description: 1 to 64
/// characters, none of them a control character.
pub proof fn law_read_titles_are_descriptions(f: FindingsView)
    ensures
        classified(f) matches ActionView::AddTodo { title, .. } ==> description_ok(title),
{
    match f.add_every {
        Some((digits, title)) => {
            lemma_title_cut(title);
        },
        None => {},
    }
    match f.add {
        Some(title) => {
            lemma_title_cut(title);
        },
        None => {},
    }
}

/// Carried out as an action in a chat with at least one member, adding a
/// todo whose title is a description stores one todo and confirms it.
pub proof fn law_add_with_members_is_confirmed(
    before: StoreView,
    after: StoreView,
    r: Option<ReplyView>,
    chat_id: i64,
    title: Seq<char>,
    interval_days: Option<i64>,
)
    requires
        before.wf(),
        member_ids(before.members, chat_id).len() > 0,
        description_ok(title),
        add_executed(before, after, r, chat_id, title, interval_days),
    ensures
        r == Some(ReplyView { chat_id: chat_id, text: "Added: "@ + title }),
        after.todos.len() == before.todos.len() + 1,
        after.todos.last().chat_id == chat_id,
        has_member(after.members, after.todos.last().assigned_user, chat_id),
{
    let res = choose|res: Result<ReplyView, LeditError>|
        #![trigger add_handled(before, after, res, chat_id, title, interval_days)]
        add_handled(before, after, res, chat_id, title, interval_days) && r == Some(
            answer(chat_id, res),
        );
    law_add_assigns_member_of_chat(before, after, res, chat_id, title, interval_days);
}

/// Digits that cannot be read as a number, as those of a number too large,
/// name no todo: a request to delete or to check the position that they
/// stand for changes nothing, and a request to delete says that the todo was
/// not found.
pub proof fn law_unreadable_position_names_no_todo(
    s: StoreView,
    message: Message,
    digits: Seq<char>,
    today: i32,
)
    requires
        parsed_i64(digits) is None,
    ensures
        delete_store(s, message.chat_id, parsed_position(digits)) == s,
        delete_text(s, message.chat_id, parsed_position(digits), today) == "Todo not found."@,
        check_store(s, message, parsed_position(digits)) == s,
        check_target(s, message, parsed_position(digits)) is None,
{
}

/// A request to delete a position that the list of the chat has removes
/// exactly the todo at that position: the members and all other todos stay,
/// in their order, and the list of every other chat stays as it is; the todo
/// itself is no longer stored.
pub proof fn law_delete_removes_one(s: StoreView, chat_id: i64, num: i64)
    requires
        s.wf(),
        1 <= num <= sorted_todos(s, chat_id).len(),
    ensures
        ({
            let t = sorted_todos(s, chat_id)[num - 1];
            let i = todo_index(s.todos, t.id);
            let after = delete_store(s, chat_id, num);
            &&& 0 <= i < s.todos.len()
            &&& s.todos[i] == t
            &&& t.chat_id == chat_id
            &&& after.members == s.members
            &&& after.todos == s.todos.remove(i)
            &&& !has_todo_id(after.todos, t.id)
        }),
{
    lemma_sorted_todos(s, chat_id);
    let t = sorted_todos(s, chat_id)[num - 1];
    let i = todo_index(s.todos, t.id);
    let after = delete_store(s, chat_id, num);
    assert(todo_at(sorted_todos(s, chat_id), num) == Some(t));
    assert(after.todos == s.todos.remove(i));
    if has_todo_id(after.todos, t.id) {
        let k = choose|k: int| 0 <= k < after.todos.len() && (#[trigger] after.todos[k]).id == t.id;
        if k < i {
            assert(after.todos[k] == s.todos[k]);
            assert(s.todos[k].id != s.todos[i].id);
        } else {
            assert(after.todos[k] == s.todos[k + 1]);
            assert(s.todos[i].id != s.todos[k + 1].id);
        }
    }
}

/// Registering is a no-op for a sender who is registered: once a sender was
/// stored, registering them again in that chat, under whatever fresh
/// identity, changes nothing and succeeds.
pub proof fn law_register_twice(s: StoreView, message: Message, first: u128, second: u128)
    requires
        register_result(s, message, first) is Ok,
    ensures
        !is_new_sender(register_store(s, message, first), message),
        register_result(register_store(s, message, first), message, second) is Ok,
        register_store(register_store(s, message, first), message, second) == register_store(
            s,
            message,
            first,
        ),
{
    let after = register_store(s, message, first);
    if message.from is Some {
        if is_new_sender(s, message) {
            assert(after.members[after.members.len() - 1].telegram_user_id == message.from->0.id);
            assert(is_registered(after.members, message.from->0.id, message.chat_id));
        }
    }
}

/// What the agenda order means for two items: the assignee whose name is
/// later in the alphabet comes first; for one assignee the open todos come
/// before the done ones; and todos of the same state go by description.
pub proof fn law_agenda_order(a: AgendaItemView, b: AgendaItemView)
    ensures
        key_lt(agenda_key(a), agenda_key(b)) <==> if a.username != b.username {
            lex_lt(b.username, a.username)
        } else if (a.todo.done_by is Some) != (b.todo.done_by is Some) {
            a.todo.done_by is None
        } else {
            lex_lt(a.todo.description, b.todo.description)
        },
{
}

/// The agenda of a chat holds todos of that chat that are actionable on the
/// day, each with the name of its assignee, in ascending agenda order: so
/// the items of one assignee stand together.
pub proof fn law_agenda_is_ordered(s: StoreView, chat_id: i64, today: i32)
    ensures
        forall|k: int|
            0 <= k < agenda(s, chat_id, today).len() ==> {
                let a = #[trigger] agenda(s, chat_id, today)[k];
                a.todo.chat_id == chat_id && actionable(a.todo, today)
            },
        forall|i: int, j: int|
            0 <= i < j < agenda(s, chat_id, today).len() ==> !key_lt(
                agenda_key(#[trigger] agenda(s, chat_id, today)[j]),
                agenda_key(#[trigger] agenda(s, chat_id, today)[i]),
            ),
{
    let items = agenda_items(s, chat_id, today, s.todos.len() as int);
    let keys = agenda_keys(items);
    let order = sorted_order(keys);
    lemma_sorted_order(keys);
    lemma_agenda_items(s, chat_id, today, s.todos.len() as int);
    let listed = agenda(s, chat_id, today);
    assert forall|k: int| 0 <= k < listed.len() implies {
        let a = #[trigger] listed[k];
        a.todo.chat_id == chat_id && actionable(a.todo, today)
    } by {
        assert(listed[k] == items[order[k]]);
    }
    assert forall|i: int, j: int| 0 <= i < j < listed.len() implies !key_lt(
        agenda_key(#[trigger] listed[j]),
        agenda_key(#[trigger] listed[i]),
    ) by {
        assert(agenda_key(listed[i]) == keys[order[i]]);
        assert(agenda_key(listed[j]) == keys[order[j]]);
    }
}

proof fn lemma_agenda_items(s: StoreView, chat_id: i64, today: i32, n: int)
    requires
        0 <= n <= s.todos.len(),
    ensures
        forall|k: int|
            0 <= k < agenda_items(s, chat_id, today, n).len() ==> {
                let a = #[trigger] agenda_items(s, chat_id, today, n)[k];
                a.todo.chat_id == chat_id && actionable(a.todo, today)
            },
    decreases n,
{
    if n > 0 {
        lemma_agenda_items(s, chat_id, today, n - 1);
        let rest = agenda_items(s, chat_id, today, n - 1);
        let items = agenda_items(s, chat_id, today, n);
        assert forall|k: int| 0 <= k < items.len() implies {
            let a = #[trigger] items[k];
            a.todo.chat_id == chat_id && actionable(a.todo, today)
        } by {
            if k < rest.len() {
                assert(items[k] == rest[k]);
            }
        }
    }
}

} // verus!
