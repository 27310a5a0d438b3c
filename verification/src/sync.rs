//! What has to be written to a stored copy of the store to bring it up to
//! date: the rows to delete, to insert and to update.

use vstd::prelude::*;
use crate::handler::chat_member::{member_views, ChatMember, ChatMemberView};
use crate::handler::todo::{todo_views, Todo, TodoView};
use crate::store::{
    has_member_id,
    has_todo_id,
    lemma_todo_index,
    remove_todo_store,
    todo_index,
    Store,
    StoreView,
};

verus! {

/// One write to a stored copy.
#[derive(Clone, Debug, PartialEq, Eq)]
pub enum Change {
    /// Delete the todo with this identity.
    DeleteTodo(u128),
    /// Insert this member.
    InsertMember(ChatMember),
    /// Insert this todo.
    InsertTodo(Todo),
    /// Set the todo with the identity of this one to what this one holds.
    UpdateTodo(Todo),
}

/// A `Change` as plain values.
pub enum ChangeView {
    DeleteTodo(u128),
    InsertMember(ChatMemberView),
    InsertTodo(TodoView),
    UpdateTodo(TodoView),
}

impl View for Change {
    type V = ChangeView;

    open spec fn view(&self) -> ChangeView {
        match *self {
            Change::DeleteTodo(id) => ChangeView::DeleteTodo(id),
            Change::InsertMember(m) => ChangeView::InsertMember(m@),
            Change::InsertTodo(t) => ChangeView::InsertTodo(t@),
            Change::UpdateTodo(t) => ChangeView::UpdateTodo(t@),
        }
    }
}

/// The views of a sequence of changes, in the same order.
pub open spec fn change_views(s: Seq<Change>) -> Seq<ChangeView> {
    s.map_values(|c: Change| c@)
}

/// The deletions among the first `n` todos of `before`: one for each todo
/// whose identity `after` does not have.
pub open spec fn deletions(before: StoreView, after: StoreView, n: int) -> Seq<ChangeView>
    decreases n,
{
    if n <= 0 {
        Seq::<ChangeView>::empty()
    } else {
        let rest = deletions(before, after, n - 1);
        if has_todo_id(after.todos, before.todos[n - 1].id) {
            rest
        } else {
            rest.push(ChangeView::DeleteTodo(before.todos[n - 1].id))
        }
    }
}

/// The member insertions among the first `n` members of `after`: one for
/// each member whose identity `before` does not have.
pub open spec fn member_insertions(before: StoreView, after: StoreView, n: int) -> Seq<
    ChangeView,
>
    decreases n,
{
    if n <= 0 {
        Seq::<ChangeView>::empty()
    } else {
        let rest = member_insertions(before, after, n - 1);
        if has_member_id(before.members, after.members[n - 1].id) {
            rest
        } else {
            rest.push(ChangeView::InsertMember(after.members[n - 1]))
        }
    }
}

/// What is written for the todo `t` of `after`: an insertion where `before`
/// does not have its identity, an update where it has the identity with
/// other contents, and nothing where it has the same todo.
pub open spec fn todo_write(before: StoreView, t: TodoView) -> Option<ChangeView> {
    if !has_todo_id(before.todos, t.id) {
        Some(ChangeView::InsertTodo(t))
    } else if before.todos[todo_index(before.todos, t.id)] != t {
        Some(ChangeView::UpdateTodo(t))
    } else {
        None
    }
}

/// The todo writes among the first `n` todos of `after`.
pub open spec fn todo_writes(before: StoreView, after: StoreView, n: int) -> Seq<ChangeView>
    decreases n,
{
    if n <= 0 {
        Seq::<ChangeView>::empty()
    } else {
        let rest = todo_writes(before, after, n - 1);
        match todo_write(before, after.todos[n - 1]) {
            Some(c) => rest.push(c),
            None => rest,
        }
    }
}

/// The writes that bring a copy of `before` up to `after`: the deletions,
/// then the new members, then the new and the changed todos.
pub open spec fn change_list(before: StoreView, after: StoreView) -> Seq<ChangeView> {
    deletions(before, after, before.todos.len() as int) + member_insertions(
        before,
        after,
        after.members.len() as int,
    ) + todo_writes(before, after, after.todos.len() as int)
}

/// The deletions are exactly the identities that `before` has among its
/// first `n` todos and `after` does not have.
pub proof fn lemma_deletions(before: StoreView, after: StoreView, n: int)
    requires
        0 <= n <= before.todos.len(),
    ensures
        forall|c: ChangeView| #[trigger]
            deletions(before, after, n).contains(c) <==> exists|i: int|
                0 <= i < n && c == ChangeView::DeleteTodo((#[trigger] before.todos[i]).id)
                    && !has_todo_id(after.todos, before.todos[i].id),
    decreases n,
{
    let all = deletions(before, after, n);
    if n > 0 {
        lemma_deletions(before, after, n - 1);
        let rest = deletions(before, after, n - 1);
        let last = ChangeView::DeleteTodo(before.todos[n - 1].id);
        let dropped = !has_todo_id(after.todos, before.todos[n - 1].id);
        assert forall|c: ChangeView| #[trigger] all.contains(c) <==> exists|i: int|
            0 <= i < n && c == ChangeView::DeleteTodo((#[trigger] before.todos[i]).id)
                && !has_todo_id(after.todos, before.todos[i].id) by {
            if all.contains(c) {
                let k = choose|k: int| 0 <= k < all.len() && all[k] == c;
                if k < rest.len() {
                    assert(rest[k] == c);
                    assert(rest.contains(c));
                } else {
                    assert(c == last && dropped);
                    assert(before.todos[n - 1].id == before.todos[n - 1].id);
                }
            }
            if exists|i: int|
                0 <= i < n && c == ChangeView::DeleteTodo((#[trigger] before.todos[i]).id)
                    && !has_todo_id(after.todos, before.todos[i].id) {
                let i = choose|i: int|
                    0 <= i < n && c == ChangeView::DeleteTodo((#[trigger] before.todos[i]).id)
                        && !has_todo_id(after.todos, before.todos[i].id);
                if i < n - 1 {
                    assert(rest.contains(c));
                    let k = choose|k: int| 0 <= k < rest.len() && rest[k] == c;
                    assert(all[k] == c);
                } else {
                    assert(all[all.len() - 1] == c);
                }
            }
        }
    }
}

/// The member insertions are exactly the members that `after` has among its
/// first `n` and whose identity `before` does not have.
pub proof fn lemma_member_insertions(before: StoreView, after: StoreView, n: int)
    requires
        0 <= n <= after.members.len(),
    ensures
        forall|c: ChangeView| #[trigger]
            member_insertions(before, after, n).contains(c) <==> exists|i: int|
                0 <= i < n && c == ChangeView::InsertMember(#[trigger] after.members[i])
                    && !has_member_id(before.members, after.members[i].id),
    decreases n,
{
    let all = member_insertions(before, after, n);
    if n > 0 {
        lemma_member_insertions(before, after, n - 1);
        let rest = member_insertions(before, after, n - 1);
        assert forall|c: ChangeView| #[trigger] all.contains(c) <==> exists|i: int|
            0 <= i < n && c == ChangeView::InsertMember(#[trigger] after.members[i])
                && !has_member_id(before.members, after.members[i].id) by {
            if all.contains(c) {
                let k = choose|k: int| 0 <= k < all.len() && all[k] == c;
                if k < rest.len() {
                    assert(rest[k] == c);
                    assert(rest.contains(c));
                } else {
                    assert(c == ChangeView::InsertMember(after.members[n - 1]));
                }
            }
            if exists|i: int|
                0 <= i < n && c == ChangeView::InsertMember(#[trigger] after.members[i])
                    && !has_member_id(before.members, after.members[i].id) {
                let i = choose|i: int|
                    0 <= i < n && c == ChangeView::InsertMember(#[trigger] after.members[i])
                        && !has_member_id(before.members, after.members[i].id);
                if i < n - 1 {
                    assert(rest.contains(c));
                    let k = choose|k: int| 0 <= k < rest.len() && rest[k] == c;
                    assert(all[k] == c);
                } else {
                    assert(all[all.len() - 1] == c);
                }
            }
        }
    }
}

/// The todo writes are exactly what is written for the first `n` todos of
/// `after`.
pub proof fn lemma_todo_writes(before: StoreView, after: StoreView, n: int)
    requires
        0 <= n <= after.todos.len(),
    ensures
        forall|c: ChangeView| #[trigger]
            todo_writes(before, after, n).contains(c) <==> exists|i: int|
                0 <= i < n && todo_write(before, #[trigger] after.todos[i]) == Some(c),
    decreases n,
{
    let all = todo_writes(before, after, n);
    if n > 0 {
        lemma_todo_writes(before, after, n - 1);
        let rest = todo_writes(before, after, n - 1);
        assert forall|c: ChangeView| #[trigger] all.contains(c) <==> exists|i: int|
            0 <= i < n && todo_write(before, #[trigger] after.todos[i]) == Some(c) by {
            if all.contains(c) {
                let k = choose|k: int| 0 <= k < all.len() && all[k] == c;
                if k < rest.len() {
                    assert(rest[k] == c);
                    assert(rest.contains(c));
                } else {
                    assert(todo_write(before, after.todos[n - 1]) == Some(c));
                }
            }
            if exists|i: int|
                0 <= i < n && todo_write(before, #[trigger] after.todos[i]) == Some(c) {
                let i = choose|i: int|
                    0 <= i < n && todo_write(before, #[trigger] after.todos[i]) == Some(c);
                if i < n - 1 {
                    assert(rest.contains(c));
                    let k = choose|k: int| 0 <= k < rest.len() && rest[k] == c;
                    assert(all[k] == c);
                } else {
                    assert(all[all.len() - 1] == c);
                }
            }
        }
    }
}

/// The writes cover every difference between the two stores and nothing
/// else. A todo is deleted exactly if `before` has its identity and `after`
/// does not; a member is inserted exactly if `after` has it and `before` not
/// its identity; a todo of `after` is inserted exactly if `before` does not
/// have its identity, and updated exactly if `before` has the identity with
/// other contents.
pub proof fn law_changes_cover_the_difference(before: StoreView, after: StoreView)
    ensures
        forall|id: u128| #[trigger]
            change_list(before, after).contains(ChangeView::DeleteTodo(id)) <==> has_todo_id(
                before.todos,
                id,
            ) && !has_todo_id(after.todos, id),
        forall|m: ChatMemberView| #[trigger]
            change_list(before, after).contains(ChangeView::InsertMember(m))
                <==> after.members.contains(m) && !has_member_id(before.members, m.id),
        forall|t: TodoView| #[trigger]
            change_list(before, after).contains(ChangeView::InsertTodo(t)) <==> after.todos.contains(
                t,
            ) && !has_todo_id(before.todos, t.id),
        forall|t: TodoView| #[trigger]
            change_list(before, after).contains(ChangeView::UpdateTodo(t)) <==> after.todos.contains(
                t,
            ) && has_todo_id(before.todos, t.id) && before.todos[todo_index(before.todos, t.id)]
                != t,
{
    let d = deletions(before, after, before.todos.len() as int);
    let m = member_insertions(before, after, after.members.len() as int);
    let w = todo_writes(before, after, after.todos.len() as int);
    let all = change_list(before, after);
    lemma_deletions(before, after, before.todos.len() as int);
    lemma_member_insertions(before, after, after.members.len() as int);
    lemma_todo_writes(before, after, after.todos.len() as int);
    assert forall|c: ChangeView| #[trigger] all.contains(c) <==> d.contains(c) || m.contains(c)
        || w.contains(c) by {
        if all.contains(c) {
            let k = choose|k: int| 0 <= k < all.len() && all[k] == c;
            if k < d.len() {
                assert(d[k] == c);
            } else if k < d.len() + m.len() {
                assert(m[k - d.len()] == c);
            } else {
                assert(w[k - d.len() - m.len()] == c);
            }
        }
        if d.contains(c) {
            let k = choose|k: int| 0 <= k < d.len() && d[k] == c;
            assert(all[k] == c);
        }
        if m.contains(c) {
            let k = choose|k: int| 0 <= k < m.len() && m[k] == c;
            assert(all[d.len() + k] == c);
        }
        if w.contains(c) {
            let k = choose|k: int| 0 <= k < w.len() && w[k] == c;
            assert(all[d.len() + m.len() + k] == c);
        }
    }
    assert forall|id: u128| #[trigger]
        all.contains(ChangeView::DeleteTodo(id)) <==> has_todo_id(before.todos, id)
            && !has_todo_id(after.todos, id) by {
        let c = ChangeView::DeleteTodo(id);
        assert(all.contains(c) <==> d.contains(c) || m.contains(c) || w.contains(c));
        if has_todo_id(before.todos, id) && !has_todo_id(after.todos, id) {
            let i = choose|i: int| 0 <= i < before.todos.len() && (#[trigger] before.todos[i]).id == id;
            assert(c == ChangeView::DeleteTodo(before.todos[i].id));
        }
    }
    assert forall|x: ChatMemberView| #[trigger]
        all.contains(ChangeView::InsertMember(x)) <==> after.members.contains(x) && !has_member_id(
            before.members,
            x.id,
        ) by {
        let c = ChangeView::InsertMember(x);
        assert(all.contains(c) <==> d.contains(c) || m.contains(c) || w.contains(c));
        if after.members.contains(x) && !has_member_id(before.members, x.id) {
            let i = choose|i: int| 0 <= i < after.members.len() && after.members[i] == x;
            assert(c == ChangeView::InsertMember(after.members[i]));
        }
    }
    assert forall|t: TodoView| #[trigger]
        all.contains(ChangeView::InsertTodo(t)) <==> after.todos.contains(t) && !has_todo_id(
            before.todos,
            t.id,
        ) by {
        let c = ChangeView::InsertTodo(t);
        assert(all.contains(c) <==> d.contains(c) || m.contains(c) || w.contains(c));
        if after.todos.contains(t) && !has_todo_id(before.todos, t.id) {
            let i = choose|i: int| 0 <= i < after.todos.len() && after.todos[i] == t;
            assert(todo_write(before, after.todos[i]) == Some(c));
        }
    }
    assert forall|t: TodoView| #[trigger]
        all.contains(ChangeView::UpdateTodo(t)) <==> after.todos.contains(t) && has_todo_id(
            before.todos,
            t.id,
        ) && before.todos[todo_index(before.todos, t.id)] != t by {
        let c = ChangeView::UpdateTodo(t);
        assert(all.contains(c) <==> d.contains(c) || m.contains(c) || w.contains(c));
        if after.todos.contains(t) && has_todo_id(before.todos, t.id) && before.todos[todo_index(
            before.todos,
            t.id,
        )] != t {
            let i = choose|i: int| 0 <= i < after.todos.len() && after.todos[i] == t;
            assert(todo_write(before, after.todos[i]) == Some(c));
        }
    }
}

/// The store after one write.
pub open spec fn applied(s: StoreView, c: ChangeView) -> StoreView {
    match c {
        ChangeView::DeleteTodo(id) => remove_todo_store(s, id),
        ChangeView::InsertMember(m) => StoreView { members: s.members.push(m), todos: s.todos },
        ChangeView::InsertTodo(t) => StoreView { members: s.members, todos: s.todos.push(t) },
        ChangeView::UpdateTodo(t) => if has_todo_id(s.todos, t.id) {
            StoreView {
                members: s.members,
                todos: s.todos.update(todo_index(s.todos, t.id), t),
            }
        } else {
            s
        },
    }
}

/// The store after a sequence of writes, one after the other.
pub open spec fn applied_all(s: StoreView, cs: Seq<ChangeView>) -> StoreView
    decreases cs.len(),
{
    if cs.len() == 0 {
        s
    } else {
        applied(applied_all(s, cs.drop_last()), cs.last())
    }
}

/// No two todos of the sequence have the same identity.
pub open spec fn distinct_ids(todos: Seq<TodoView>) -> bool {
    forall|i: int, j: int|
        0 <= i < j < todos.len() ==> (#[trigger] todos[i]).id != (#[trigger] todos[j]).id
}

proof fn lemma_applied_in_turn(s: StoreView, a: Seq<ChangeView>, b: Seq<ChangeView>)
    ensures
        applied_all(s, a + b) == applied_all(applied_all(s, a), b),
    decreases b.len(),
{
    if b.len() == 0 {
        assert(a + b =~= a);
    } else {
        assert((a + b).drop_last() =~= a + b.drop_last());
        lemma_applied_in_turn(s, a, b.drop_last());
    }
}

proof fn lemma_place_of(todos: Seq<TodoView>, k: int)
    requires
        distinct_ids(todos),
        0 <= k < todos.len(),
    ensures
        has_todo_id(todos, todos[k].id),
        todo_index(todos, todos[k].id) == k,
{
    let j = todo_index(todos, todos[k].id);
    assert(0 <= j < todos.len() && todos[j].id == todos[k].id);
    if j < k {
        assert(todos[j].id != todos[k].id);
    }
    if k < j {
        assert(todos[k].id != todos[j].id);
    }
}

proof fn lemma_row_removed(todos: Seq<TodoView>, k: int)
    requires
        distinct_ids(todos),
        0 <= k < todos.len(),
    ensures
        distinct_ids(todos.remove(k)),
        forall|t: TodoView| #[trigger]
            todos.remove(k).contains(t) <==> todos.contains(t) && t != todos[k],
{
    let rest = todos.remove(k);
    assert forall|i: int, j: int| 0 <= i < j < rest.len() implies (#[trigger] rest[i]).id != (
    #[trigger] rest[j]).id by {
        let oi = if i < k { i } else { i + 1 };
        let oj = if j < k { j } else { j + 1 };
        assert(rest[i] == todos[oi] && rest[j] == todos[oj]);
    }
    assert forall|t: TodoView| #[trigger] rest.contains(t) <==> todos.contains(t) && t
        != todos[k] by {
        if rest.contains(t) {
            let i = choose|i: int| 0 <= i < rest.len() && rest[i] == t;
            let oi = if i < k { i } else { i + 1 };
            assert(todos[oi] == t);
            if oi < k {
                assert(todos[oi].id != todos[k].id);
            } else {
                assert(todos[k].id != todos[oi].id);
            }
        }
        if todos.contains(t) && t != todos[k] {
            let i = choose|i: int| 0 <= i < todos.len() && todos[i] == t;
            if i < k {
                assert(rest[i] == t);
            } else {
                assert(rest[i - 1] == t);
            }
        }
    }
}

proof fn lemma_row_updated(todos: Seq<TodoView>, k: int, row: TodoView)
    requires
        distinct_ids(todos),
        0 <= k < todos.len(),
        row.id == todos[k].id,
    ensures
        distinct_ids(todos.update(k, row)),
        forall|t: TodoView| #[trigger]
            todos.update(k, row).contains(t) <==> (todos.contains(t) && t != todos[k]) || t == row,
{
    let next = todos.update(k, row);
    assert forall|i: int, j: int| 0 <= i < j < next.len() implies (#[trigger] next[i]).id != (
    #[trigger] next[j]).id by {
        assert(todos[i].id != todos[j].id);
    }
    assert forall|t: TodoView| #[trigger] next.contains(t) <==> (todos.contains(t) && t
        != todos[k]) || t == row by {
        if next.contains(t) {
            let i = choose|i: int| 0 <= i < next.len() && next[i] == t;
            if i != k {
                assert(todos[i] == t);
                if i < k {
                    assert(todos[i].id != todos[k].id);
                } else {
                    assert(todos[k].id != todos[i].id);
                }
            }
        }
        if todos.contains(t) && t != todos[k] {
            let i = choose|i: int| 0 <= i < todos.len() && todos[i] == t;
            assert(next[i] == t);
        }
        if t == row {
            assert(next[k] == t);
        }
    }
}

proof fn lemma_row_pushed(todos: Seq<TodoView>, row: TodoView)
    requires
        distinct_ids(todos),
        !has_todo_id(todos, row.id),
    ensures
        distinct_ids(todos.push(row)),
        forall|t: TodoView| #[trigger]
            todos.push(row).contains(t) <==> todos.contains(t) || t == row,
{
    let next = todos.push(row);
    assert forall|i: int, j: int| 0 <= i < j < next.len() implies (#[trigger] next[i]).id != (
    #[trigger] next[j]).id by {
        if j < todos.len() {
            assert(todos[i].id != todos[j].id);
        } else {
            assert(next[i] == todos[i]);
        }
    }
    assert forall|t: TodoView| #[trigger] next.contains(t) <==> todos.contains(t) || t == row by {
        if next.contains(t) {
            let i = choose|i: int| 0 <= i < next.len() && next[i] == t;
            if i < todos.len() {
                assert(todos[i] == t);
            }
        }
        if todos.contains(t) {
            let i = choose|i: int| 0 <= i < todos.len() && todos[i] == t;
            assert(next[i] == t);
        }
        if t == row {
            assert(next[todos.len() as int] == t);
        }
    }
}

/// The todo `t` is a todo of `before` that the first `n` deletions leave.
pub open spec fn left_after_deletions(before: StoreView, after: StoreView, n: int, t: TodoView) -> bool {
    exists|j: int|
        0 <= j < before.todos.len() && #[trigger] before.todos[j] == t && (has_todo_id(
            after.todos,
            t.id,
        ) || j >= n)
}

proof fn lemma_deletions_applied(before: StoreView, after: StoreView, n: int)
    requires
        distinct_ids(before.todos),
        0 <= n <= before.todos.len(),
    ensures
        applied_all(before, deletions(before, after, n)).members == before.members,
        distinct_ids(applied_all(before, deletions(before, after, n)).todos),
        forall|t: TodoView| #[trigger]
            applied_all(before, deletions(before, after, n)).todos.contains(t)
                <==> left_after_deletions(before, after, n, t),
    decreases n,
{
    let now = applied_all(before, deletions(before, after, n));
    if n == 0 {
        assert forall|t: TodoView| #[trigger] now.todos.contains(t) <==> left_after_deletions(
            before,
            after,
            n,
            t,
        ) by {
            if now.todos.contains(t) {
                let j = choose|j: int| 0 <= j < before.todos.len() && before.todos[j] == t;
                assert(before.todos[j] == t);
            }
        }
    } else {
        lemma_deletions_applied(before, after, n - 1);
        let was = applied_all(before, deletions(before, after, n - 1));
        let row = before.todos[n - 1];
        if has_todo_id(after.todos, row.id) {
            assert(now == was);
            assert forall|t: TodoView| #[trigger] now.todos.contains(t) <==> left_after_deletions(
                before,
                after,
                n,
                t,
            ) by {
                if left_after_deletions(before, after, n - 1, t) {
                    let j = choose|j: int|
                        0 <= j < before.todos.len() && #[trigger] before.todos[j] == t && (
                        has_todo_id(after.todos, t.id) || j >= n - 1);
                    assert(before.todos[j] == t && (has_todo_id(after.todos, t.id) || j >= n));
                }
                if left_after_deletions(before, after, n, t) {
                    let j = choose|j: int|
                        0 <= j < before.todos.len() && #[trigger] before.todos[j] == t && (
                        has_todo_id(after.todos, t.id) || j >= n);
                    assert(before.todos[j] == t && (has_todo_id(after.todos, t.id) || j >= n - 1));
                }
            }
        } else {
            let rest = deletions(before, after, n - 1);
            let cs = deletions(before, after, n);
            assert(cs.drop_last() =~= rest);
            assert(now == applied(was, ChangeView::DeleteTodo(row.id)));
            assert(before.todos[n - 1] == row);
            assert(left_after_deletions(before, after, n - 1, row));
            assert(was.todos.contains(row));
            let k = choose|k: int| 0 <= k < was.todos.len() && was.todos[k] == row;
            lemma_place_of(was.todos, k);
            lemma_row_removed(was.todos, k);
            assert(now.todos == was.todos.remove(k));
            assert forall|t: TodoView| #[trigger] now.todos.contains(t) <==> left_after_deletions(
                before,
                after,
                n,
                t,
            ) by {
                if now.todos.contains(t) {
                    assert(was.todos.contains(t) && t != row);
                    let j = choose|j: int|
                        0 <= j < before.todos.len() && #[trigger] before.todos[j] == t && (
                        has_todo_id(after.todos, t.id) || j >= n - 1);
                    assert(j != n - 1);
                    assert(before.todos[j] == t && (has_todo_id(after.todos, t.id) || j >= n));
                }
                if left_after_deletions(before, after, n, t) {
                    let j = choose|j: int|
                        0 <= j < before.todos.len() && #[trigger] before.todos[j] == t && (
                        has_todo_id(after.todos, t.id) || j >= n);
                    assert(before.todos[j] == t && (has_todo_id(after.todos, t.id) || j >= n - 1));
                    assert(left_after_deletions(before, after, n - 1, t));
                    if t == row {
                        if j < n - 1 {
                            assert(before.todos[j].id != before.todos[n - 1].id);
                        }
                        if j > n - 1 {
                            assert(before.todos[n - 1].id != before.todos[j].id);
                        }
                    }
                }
            }
        }
    }
}

/// The member `m` is a member of `start`, or one of the first `n` members of
/// `after` whose identity `before` does not have.
pub open spec fn member_after_insertions(
    start: StoreView,
    before: StoreView,
    after: StoreView,
    n: int,
    m: ChatMemberView,
) -> bool {
    start.members.contains(m) || exists|i: int|
        0 <= i < n && #[trigger] after.members[i] == m && !has_member_id(before.members, m.id)
}

proof fn lemma_member_insertions_applied(
    start: StoreView,
    before: StoreView,
    after: StoreView,
    n: int,
)
    requires
        0 <= n <= after.members.len(),
    ensures
        applied_all(start, member_insertions(before, after, n)).todos == start.todos,
        forall|m: ChatMemberView| #[trigger]
            applied_all(start, member_insertions(before, after, n)).members.contains(m)
                <==> member_after_insertions(start, before, after, n, m),
    decreases n,
{
    let now = applied_all(start, member_insertions(before, after, n));
    if n > 0 {
        lemma_member_insertions_applied(start, before, after, n - 1);
        let was = applied_all(start, member_insertions(before, after, n - 1));
        let row = after.members[n - 1];
        let fresh = !has_member_id(before.members, row.id);
        if fresh {
            assert(member_insertions(before, after, n).drop_last() =~= member_insertions(
                before,
                after,
                n - 1,
            ));
            assert(now.members == was.members.push(row));
        } else {
            assert(now == was);
        }
        assert forall|m: ChatMemberView| #[trigger] now.members.contains(m)
            <==> member_after_insertions(start, before, after, n, m) by {
            if now.members.contains(m) {
                let k = choose|k: int| 0 <= k < now.members.len() && now.members[k] == m;
                if k < was.members.len() {
                    assert(was.members[k] == m);
                    assert(was.members.contains(m));
                    if !start.members.contains(m) {
                        let i = choose|i: int|
                            0 <= i < n - 1 && #[trigger] after.members[i] == m && !has_member_id(
                                before.members,
                                m.id,
                            );
                        assert(after.members[i] == m);
                    }
                } else {
                    assert(after.members[n - 1] == m);
                }
            }
            if member_after_insertions(start, before, after, n, m) {
                if start.members.contains(m) {
                    assert(was.members.contains(m));
                    let k = choose|k: int| 0 <= k < was.members.len() && was.members[k] == m;
                    assert(now.members[k] == m);
                } else {
                    let i = choose|i: int|
                        0 <= i < n && #[trigger] after.members[i] == m && !has_member_id(
                            before.members,
                            m.id,
                        );
                    if i < n - 1 {
                        assert(member_after_insertions(start, before, after, n - 1, m));
                        assert(was.members.contains(m));
                        let k = choose|k: int| 0 <= k < was.members.len() && was.members[k] == m;
                        assert(now.members[k] == m);
                    } else {
                        assert(now.members[now.members.len() - 1] == m);
                    }
                }
            }
        }
    }
}

/// The todo `t` is among the first `n` todos.
pub open spec fn in_first(todos: Seq<TodoView>, n: int, t: TodoView) -> bool {
    exists|i: int| 0 <= i < n && #[trigger] todos[i] == t
}

/// A todo among the first `n` has the identity `id`.
pub open spec fn id_in_first(todos: Seq<TodoView>, n: int, id: u128) -> bool {
    exists|i: int| 0 <= i < n && (#[trigger] todos[i]).id == id
}

/// The todo `t` is stored once the first `n` todos of `after` were written:
/// it is one of them, or a todo of `before` that `after` has and that was
/// not written yet.
pub open spec fn stored_after_writes(
    before: StoreView,
    after: StoreView,
    n: int,
    t: TodoView,
) -> bool {
    in_first(after.todos, n, t) || (before.todos.contains(t) && has_todo_id(after.todos, t.id)
        && !id_in_first(after.todos, n, t.id))
}

proof fn lemma_todo_writes_applied(start: StoreView, before: StoreView, after: StoreView, n: int)
    requires
        distinct_ids(before.todos),
        distinct_ids(after.todos),
        distinct_ids(start.todos),
        0 <= n <= after.todos.len(),
        forall|t: TodoView| #[trigger]
            start.todos.contains(t) <==> before.todos.contains(t) && has_todo_id(
                after.todos,
                t.id,
            ),
    ensures
        applied_all(start, todo_writes(before, after, n)).members == start.members,
        distinct_ids(applied_all(start, todo_writes(before, after, n)).todos),
        forall|t: TodoView| #[trigger]
            applied_all(start, todo_writes(before, after, n)).todos.contains(t)
                <==> stored_after_writes(before, after, n, t),
    decreases n,
{
    let now = applied_all(start, todo_writes(before, after, n));
    if n > 0 {
        lemma_todo_writes_applied(start, before, after, n - 1);
        let was = applied_all(start, todo_writes(before, after, n - 1));
        let a = after.todos[n - 1];
        assert(!id_in_first(after.todos, n - 1, a.id)) by {
            if id_in_first(after.todos, n - 1, a.id) {
                let i = choose|i: int| 0 <= i < n - 1 && (#[trigger] after.todos[i]).id == a.id;
                assert(after.todos[i].id != after.todos[n - 1].id);
            }
        }
        assert(has_todo_id(after.todos, a.id));
        assert forall|t: TodoView| in_first(after.todos, n, t) <==> in_first(after.todos, n - 1, t)
            || t == a by {
            if in_first(after.todos, n, t) {
                let i = choose|i: int| 0 <= i < n && #[trigger] after.todos[i] == t;
                if i < n - 1 {
                    assert(in_first(after.todos, n - 1, t));
                }
            }
            if in_first(after.todos, n - 1, t) {
                let i = choose|i: int| 0 <= i < n - 1 && #[trigger] after.todos[i] == t;
                assert(after.todos[i] == t);
            }
            if t == a {
                assert(after.todos[n - 1] == t);
            }
        }
        assert forall|id: u128| id_in_first(after.todos, n, id) <==> id_in_first(
            after.todos,
            n - 1,
            id,
        ) || id == a.id by {
            if id_in_first(after.todos, n, id) {
                let i = choose|i: int| 0 <= i < n && (#[trigger] after.todos[i]).id == id;
                if i < n - 1 {
                    assert(id_in_first(after.todos, n - 1, id));
                }
            }
            if id_in_first(after.todos, n - 1, id) {
                let i = choose|i: int| 0 <= i < n - 1 && (#[trigger] after.todos[i]).id == id;
                assert(after.todos[i].id == id);
            }
            if id == a.id {
                assert(after.todos[n - 1].id == id);
            }
        }
        // a todo of `before` with the identity of `a` is the one at its place
        assert forall|t: TodoView| before.todos.contains(t) && t.id == a.id implies has_todo_id(
            before.todos,
            a.id,
        ) && t == before.todos[todo_index(before.todos, a.id)] by {
            let j = choose|j: int| 0 <= j < before.todos.len() && before.todos[j] == t;
            lemma_place_of(before.todos, j);
        }
        // a todo among the first of `after` does not have the identity of `a`
        assert forall|t: TodoView| in_first(after.todos, n - 1, t) implies t.id != a.id by {
            let i = choose|i: int| 0 <= i < n - 1 && #[trigger] after.todos[i] == t;
            assert(after.todos[i].id != after.todos[n - 1].id);
        }
        match todo_write(before, a) {
            None => {
                assert(now == was);
                let b0 = before.todos[todo_index(before.todos, a.id)];
                assert(b0 == a);
                assert(before.todos.contains(a));
                assert forall|t: TodoView| #[trigger] now.todos.contains(t)
                    <==> stored_after_writes(before, after, n, t) by {
                    assert(was.todos.contains(t) <==> stored_after_writes(before, after, n - 1, t));
                }
            },
            Some(c) => {
                assert(todo_writes(before, after, n).drop_last() =~= todo_writes(
                    before,
                    after,
                    n - 1,
                ));
                assert(now == applied(was, c));
                if !has_todo_id(before.todos, a.id) {
                    assert(c == ChangeView::InsertTodo(a));
                    if has_todo_id(was.todos, a.id) {
                        let k = choose|k: int|
                            0 <= k < was.todos.len() && (#[trigger] was.todos[k]).id == a.id;
                        let t = was.todos[k];
                        assert(was.todos.contains(t));
                        assert(stored_after_writes(before, after, n - 1, t));
                    }
                    lemma_row_pushed(was.todos, a);
                    assert(now.todos == was.todos.push(a));
                    assert forall|t: TodoView| #[trigger] now.todos.contains(t)
                        <==> stored_after_writes(before, after, n, t) by {
                        assert(was.todos.contains(t) <==> stored_after_writes(
                            before,
                            after,
                            n - 1,
                            t,
                        ));
                    }
                } else {
                    let b0 = before.todos[todo_index(before.todos, a.id)];
                    assert(c == ChangeView::UpdateTodo(a));
                    assert(b0 != a && b0.id == a.id);
                    assert(before.todos.contains(b0));
                    assert(stored_after_writes(before, after, n - 1, b0));
                    assert(was.todos.contains(b0));
                    let k = choose|k: int| 0 <= k < was.todos.len() && was.todos[k] == b0;
                    lemma_place_of(was.todos, k);
                    lemma_row_updated(was.todos, k, a);
                    assert(now.todos == was.todos.update(k, a));
                    assert forall|t: TodoView| #[trigger] now.todos.contains(t)
                        <==> stored_after_writes(before, after, n, t) by {
                        assert(was.todos.contains(t) <==> stored_after_writes(
                            before,
                            after,
                            n - 1,
                            t,
                        ));
                    }
                }
            },
        }
    } else {
        assert forall|t: TodoView| #[trigger] now.todos.contains(t) <==> stored_after_writes(
            before,
            after,
            n,
            t,
        ) by {}
    }
}

/// Applied one after the other to a copy of `before`, the writes yield the
/// rows of `after`: the same todos and the same members, each once. This
/// holds of two stores that keep their constraints where `after` still has
/// every member of `before`, as members are never removed or changed.
pub proof fn law_changes_bring_a_copy_up_to_date(before: StoreView, after: StoreView)
    requires
        before.wf(),
        after.wf(),
        forall|m: ChatMemberView| before.members.contains(m) ==> after.members.contains(m),
    ensures
        distinct_ids(applied_all(before, change_list(before, after)).todos),
        forall|t: TodoView| #[trigger]
            applied_all(before, change_list(before, after)).todos.contains(t)
                <==> after.todos.contains(t),
        forall|m: ChatMemberView| #[trigger]
            applied_all(before, change_list(before, after)).members.contains(m)
                <==> after.members.contains(m),
{
    let d = deletions(before, after, before.todos.len() as int);
    let i = member_insertions(before, after, after.members.len() as int);
    let w = todo_writes(before, after, after.todos.len() as int);
    let first = applied_all(before, d);
    let second = applied_all(first, i);
    let third = applied_all(second, w);
    lemma_applied_in_turn(before, d, i);
    lemma_applied_in_turn(before, d + i, w);
    assert(applied_all(before, change_list(before, after)) == third);
    lemma_deletions_applied(before, after, before.todos.len() as int);
    lemma_member_insertions_applied(first, before, after, after.members.len() as int);
    assert forall|t: TodoView| #[trigger] second.todos.contains(t) <==> before.todos.contains(t)
        && has_todo_id(after.todos, t.id) by {
        assert(first.todos.contains(t) <==> left_after_deletions(
            before,
            after,
            before.todos.len() as int,
            t,
        ));
        if left_after_deletions(before, after, before.todos.len() as int, t) {
            let j = choose|j: int|
                0 <= j < before.todos.len() && #[trigger] before.todos[j] == t && (has_todo_id(
                    after.todos,
                    t.id,
                ) || j >= before.todos.len());
            assert(before.todos.contains(t));
        }
        if before.todos.contains(t) && has_todo_id(after.todos, t.id) {
            let j = choose|j: int| 0 <= j < before.todos.len() && before.todos[j] == t;
            assert(before.todos[j] == t);
        }
    }
    lemma_todo_writes_applied(second, before, after, after.todos.len() as int);
    assert forall|t: TodoView| #[trigger] third.todos.contains(t) <==> after.todos.contains(
        t,
    ) by {
        let n = after.todos.len() as int;
        assert(third.todos.contains(t) <==> stored_after_writes(before, after, n, t));
        if in_first(after.todos, n, t) {
            let k = choose|k: int| 0 <= k < n && #[trigger] after.todos[k] == t;
            assert(after.todos.contains(t));
        }
        if after.todos.contains(t) {
            let k = choose|k: int| 0 <= k < after.todos.len() && after.todos[k] == t;
            assert(after.todos[k] == t);
        }
        if has_todo_id(after.todos, t.id) {
            let k = choose|k: int| 0 <= k < after.todos.len() && (#[trigger] after.todos[k]).id == t.id;
            assert(id_in_first(after.todos, n, t.id));
        }
    }
    assert forall|m: ChatMemberView| #[trigger] third.members.contains(m)
        <==> after.members.contains(m) by {
        let n = after.members.len() as int;
        assert(second.members.contains(m) <==> member_after_insertions(
            first,
            before,
            after,
            n,
            m,
        ));
        if after.members.contains(m) {
            let k = choose|k: int| 0 <= k < after.members.len() && after.members[k] == m;
            if has_member_id(before.members, m.id) {
                let j = choose|j: int|
                    0 <= j < before.members.len() && (#[trigger] before.members[j]).id == m.id;
                let b = before.members[j];
                assert(before.members.contains(b));
                assert(after.members.contains(b));
                let l = choose|l: int| 0 <= l < after.members.len() && after.members[l] == b;
                if l < k {
                    assert(after.members[l].id != after.members[k].id);
                }
                if k < l {
                    assert(after.members[k].id != after.members[l].id);
                }
                assert(b == m);
            } else {
                assert(after.members[k] == m);
            }
        }
        if member_after_insertions(first, before, after, n, m) && !first.members.contains(m) {
            let k = choose|k: int|
                0 <= k < n && #[trigger] after.members[k] == m && !has_member_id(
                    before.members,
                    m.id,
                );
            assert(after.members.contains(m));
        }
    }
}

/// Nothing has to be written where nothing changed.
pub proof fn law_no_change_no_write(s: StoreView)
    requires
        s.wf(),
    ensures
        change_list(s, s).len() == 0,
{
    lemma_no_deletions(s, s.todos.len() as int);
    lemma_no_member_insertions(s, s.members.len() as int);
    lemma_no_todo_writes(s, s.todos.len() as int);
}

proof fn lemma_no_deletions(s: StoreView, n: int)
    requires
        0 <= n <= s.todos.len(),
    ensures
        deletions(s, s, n).len() == 0,
    decreases n,
{
    if n > 0 {
        lemma_no_deletions(s, n - 1);
        assert(s.todos[n - 1].id == s.todos[n - 1].id);
    }
}

proof fn lemma_no_member_insertions(s: StoreView, n: int)
    requires
        0 <= n <= s.members.len(),
    ensures
        member_insertions(s, s, n).len() == 0,
    decreases n,
{
    if n > 0 {
        lemma_no_member_insertions(s, n - 1);
        assert(s.members[n - 1].id == s.members[n - 1].id);
    }
}

proof fn lemma_no_todo_writes(s: StoreView, n: int)
    requires
        s.wf(),
        0 <= n <= s.todos.len(),
    ensures
        todo_writes(s, s, n).len() == 0,
    decreases n,
{
    if n > 0 {
        lemma_no_todo_writes(s, n - 1);
        lemma_todo_index(s, n - 1);
    }
}

fn same_todo(a: &Todo, b: &Todo) -> (r: bool)
    ensures
        r == (a@ == b@),
{
    let r = a.id == b.id && a.chat_id == b.chat_id && a.description == b.description
        && a.interval_days == b.interval_days && a.assigned_user == b.assigned_user
        && a.scheduled_for == b.scheduled_for && a.done_by == b.done_by;
    assert(r == (a@ == b@)) by {
        if r {
            assert(a@.description =~= b@.description);
        }
    }
    r
}

fn duplicate_member(m: &ChatMember) -> (r: ChatMember)
    ensures
        r@ == m@,
{
    ChatMember {
        id: m.id,
        telegram_user_id: m.telegram_user_id,
        chat_id: m.chat_id,
        username: m.username.clone(),
    }
}

/// The writes that bring a stored copy of `before` up to `after`.
pub fn changes(before: &Store, after: &Store) -> (r: Vec<Change>)
    requires
        before.wf(),
    ensures
        change_views(r@) == change_list(before@, after@),
{
    let mut out: Vec<Change> = Vec::new();
    let old_todos = before.todos();
    let new_todos = after.todos();
    let new_members = after.members();
    let mut i: usize = 0;
    assert(change_views(out@) =~= deletions(before@, after@, 0));
    while i < old_todos.len()
        invariant
            i <= old_todos.len(),
            todo_views(old_todos@) == before@.todos,
            change_views(out@) == deletions(before@, after@, i as int),
        decreases old_todos.len() - i,
    {
        assert(before@.todos[i as int] == old_todos@[i as int]@);
        if after.find_todo(old_todos[i].id).is_none() {
            let ghost shown = change_views(out@);
            out.push(Change::DeleteTodo(old_todos[i].id));
            assert(change_views(out@) =~= shown.push(ChangeView::DeleteTodo(old_todos@[i as int].id)));
        }
        i = i + 1;
    }
    let ghost first = change_views(out@);
    let mut j: usize = 0;
    assert(change_views(out@) =~= first + member_insertions(before@, after@, 0));
    while j < new_members.len()
        invariant
            j <= new_members.len(),
            member_views(new_members@) == after@.members,
            change_views(out@) == first + member_insertions(before@, after@, j as int),
        decreases new_members.len() - j,
    {
        assert(after@.members[j as int] == new_members@[j as int]@);
        if before.find_member_id(new_members[j].id).is_none() {
            let ghost shown = change_views(out@);
            let row = duplicate_member(&new_members[j]);
            out.push(Change::InsertMember(row));
            assert(change_views(out@) =~= shown.push(
                ChangeView::InsertMember(new_members@[j as int]@),
            ));
        }
        j = j + 1;
    }
    let ghost second = change_views(out@);
    let mut k: usize = 0;
    assert(change_views(out@) =~= second + todo_writes(before@, after@, 0));
    while k < new_todos.len()
        invariant
            k <= new_todos.len(),
            before.wf(),
            todo_views(old_todos@) == before@.todos,
            todo_views(new_todos@) == after@.todos,
            change_views(out@) == second + todo_writes(before@, after@, k as int),
        decreases new_todos.len() - k,
    {
        assert(after@.todos[k as int] == new_todos@[k as int]@);
        let ghost shown = change_views(out@);
        match before.find_todo(new_todos[k].id) {
            None => {
                out.push(Change::InsertTodo(new_todos[k].duplicate()));
                assert(change_views(out@) =~= shown.push(
                    ChangeView::InsertTodo(new_todos@[k as int]@),
                ));
            },
            Some(at) => {
                assert(before@.todos[at as int] == old_todos@[at as int]@);
                if !same_todo(&old_todos[at], &new_todos[k]) {
                    out.push(Change::UpdateTodo(new_todos[k].duplicate()));
                    assert(change_views(out@) =~= shown.push(
                        ChangeView::UpdateTodo(new_todos@[k as int]@),
                    ));
                }
            },
        }
        k = k + 1;
    }
    out
}

} // verus!
