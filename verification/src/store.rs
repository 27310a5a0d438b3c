//! The store: the registered members and the todos of all chats, with the
//! constraints that every write keeps.

use vstd::prelude::*;
use crate::error::{LeditError, StoreFault};
use crate::handler::chat_member::{member_views, ChatMember, ChatMemberView};
use crate::handler::todo::{
    clamp_interval,
    description_ok,
    is_description_ok,
    stored_interval,
    todo_views,
    Todo,
    TodoView,
};

verus! {

/// The members and todos of all chats, in the order in which they were stored.
#[derive(Clone, Debug)]
pub struct Store {
    members: Vec<ChatMember>,
    todos: Vec<Todo>,
}

/// What a `Store` holds, as plain values.
pub struct StoreView {
    pub members: Seq<ChatMemberView>,
    pub todos: Seq<TodoView>,
}

/// `id` is a member of the chat `chat_id`.
pub open spec fn has_member(members: Seq<ChatMemberView>, id: u128, chat_id: i64) -> bool {
    exists|i: int|
        0 <= i < members.len() && (#[trigger] members[i]).id == id && members[i].chat_id
            == chat_id
}

/// The user `telegram_user_id` is registered in the chat `chat_id`.
pub open spec fn is_registered(
    members: Seq<ChatMemberView>,
    telegram_user_id: i64,
    chat_id: i64,
) -> bool {
    exists|i: int|
        0 <= i < members.len() && (#[trigger] members[i]).telegram_user_id == telegram_user_id
            && members[i].chat_id == chat_id
}

/// Some member has the identity `id`.
pub open spec fn has_member_id(members: Seq<ChatMemberView>, id: u128) -> bool {
    exists|i: int| 0 <= i < members.len() && (#[trigger] members[i]).id == id
}

/// Some todo has the identity `id`.
pub open spec fn has_todo_id(todos: Seq<TodoView>, id: u128) -> bool {
    exists|i: int| 0 <= i < todos.len() && (#[trigger] todos[i]).id == id
}

/// The description of a todo has 1 to 64 characters and no control
/// character; its references stay inside its chat; and its interval, where
/// it has one, lies between 1 and 999 days.
pub open spec fn todo_ok(members: Seq<ChatMemberView>, t: TodoView) -> bool {
    &&& description_ok(t.description)
    &&& has_member(members, t.assigned_user, t.chat_id)
    &&& (t.done_by matches Some(u) ==> has_member(members, u, t.chat_id))
    &&& t.interval_days == stored_interval(t.interval_days)
}

/// A member row with the identity `id` stands for the user
/// `telegram_user_id` in the chat `chat_id`.
pub open spec fn is_member_row(
    members: Seq<ChatMemberView>,
    id: u128,
    telegram_user_id: i64,
    chat_id: i64,
) -> bool {
    exists|i: int|
        0 <= i < members.len() && (#[trigger] members[i]).id == id && members[i].telegram_user_id
            == telegram_user_id && members[i].chat_id == chat_id
}

/// The identities of the members of the chat `chat_id`, in the order in which
/// they were registered.
pub open spec fn member_ids(members: Seq<ChatMemberView>, chat_id: i64) -> Seq<u128>
    decreases members.len(),
{
    if members.len() == 0 {
        Seq::<u128>::empty()
    } else {
        let rest = member_ids(members.drop_last(), chat_id);
        if members.last().chat_id == chat_id {
            rest.push(members.last().id)
        } else {
            rest
        }
    }
}

/// The place of the todo with the identity `id`.
pub open spec fn todo_index(todos: Seq<TodoView>, id: u128) -> int {
    choose|i: int| 0 <= i < todos.len() && (#[trigger] todos[i]).id == id
}

/// The todo `t` as it is stored: with the interval that is kept for it.
pub open spec fn stored_todo(t: TodoView) -> TodoView {
    TodoView { interval_days: stored_interval(t.interval_days), ..t }
}

/// The todo `t` with its completion set to `done_by`.
pub open spec fn with_done_by(t: TodoView, done_by: Option<u128>) -> TodoView {
    TodoView { done_by: done_by, ..t }
}

/// The todo `t` at the start of a new cycle: open, scheduled for `today` and
/// assigned to `assigned_user`.
pub open spec fn new_cycle(t: TodoView, assigned_user: u128, today: i32) -> TodoView {
    TodoView { done_by: None, scheduled_for: today, assigned_user: assigned_user, ..t }
}

/// The members of a chat are exactly the identities that `member_ids` lists.
pub proof fn lemma_member_ids(members: Seq<ChatMemberView>, chat_id: i64)
    ensures
        forall|id: u128| #[trigger]
            member_ids(members, chat_id).contains(id) <==> has_member(members, id, chat_id),
        member_ids(members, chat_id).len() <= members.len(),
    decreases members.len(),
{
    let ids = member_ids(members, chat_id);
    if members.len() == 0 {
    } else {
        let front = members.drop_last();
        lemma_member_ids(front, chat_id);
        let rest = member_ids(front, chat_id);
        assert forall|id: u128| #[trigger] ids.contains(id) <==> has_member(
            members,
            id,
            chat_id,
        ) by {
            if ids.contains(id) {
                let k = choose|k: int| 0 <= k < ids.len() && ids[k] == id;
                if k < rest.len() {
                    assert(rest.contains(id));
                    let i = choose|i: int|
                        0 <= i < front.len() && (#[trigger] front[i]).id == id && front[i].chat_id
                            == chat_id;
                    assert(members[i] == front[i]);
                } else {
                    assert(members[members.len() - 1].id == id);
                }
            }
            if has_member(members, id, chat_id) {
                let i = choose|i: int|
                    0 <= i < members.len() && (#[trigger] members[i]).id == id
                        && members[i].chat_id == chat_id;
                if i < front.len() {
                    assert(front[i] == members[i]);
                    assert(has_member(front, id, chat_id));
                    assert(rest.contains(id));
                    let k = choose|k: int| 0 <= k < rest.len() && rest[k] == id;
                    assert(ids[k] == id);
                } else {
                    assert(ids[ids.len() - 1] == id);
                }
            }
        }
    }
}

/// What `add_todo` answers.
pub open spec fn add_todo_result(s: StoreView, t: TodoView) -> Result<(), LeditError> {
    if !description_ok(t.description) {
        Err(LeditError::Store(StoreFault::CheckViolation))
    } else if has_todo_id(s.todos, t.id) {
        Err(LeditError::Store(StoreFault::UniqueViolation))
    } else if !has_member(s.members, t.assigned_user, t.chat_id) {
        Err(LeditError::Store(StoreFault::ForeignKeyViolation))
    } else if t.done_by is Some && !has_member(s.members, t.done_by->0, t.chat_id) {
        Err(LeditError::Store(StoreFault::ForeignKeyViolation))
    } else {
        Ok(())
    }
}

/// The store after `add_todo`: one row longer where the todo was accepted,
/// unchanged where it was refused.
pub open spec fn add_todo_store(s: StoreView, t: TodoView) -> StoreView {
    if add_todo_result(s, t) is Ok {
        StoreView { members: s.members, todos: s.todos.push(stored_todo(t)) }
    } else {
        s
    }
}

/// What `set_done_by` answers.
pub open spec fn set_done_by_result(s: StoreView, id: u128, done_by: Option<u128>) -> Result<
    (),
    LeditError,
> {
    if !has_todo_id(s.todos, id) {
        Err(LeditError::Store(StoreFault::RowNotFound))
    } else if done_by is Some && !has_member(
        s.members,
        done_by->0,
        s.todos[todo_index(s.todos, id)].chat_id,
    ) {
        Err(LeditError::Store(StoreFault::ForeignKeyViolation))
    } else {
        Ok(())
    }
}

/// The store after `set_done_by`.
pub open spec fn set_done_by_store(s: StoreView, id: u128, done_by: Option<u128>) -> StoreView {
    if set_done_by_result(s, id, done_by) is Ok {
        let i = todo_index(s.todos, id);
        StoreView { members: s.members, todos: s.todos.update(i, with_done_by(s.todos[i], done_by)) }
    } else {
        s
    }
}

/// What `reschedule` answers.
pub open spec fn reschedule_result(s: StoreView, id: u128, assigned_user: u128) -> Result<
    (),
    LeditError,
> {
    if !has_todo_id(s.todos, id) {
        Err(LeditError::Store(StoreFault::RowNotFound))
    } else if !has_member(s.members, assigned_user, s.todos[todo_index(s.todos, id)].chat_id) {
        Err(LeditError::Store(StoreFault::ForeignKeyViolation))
    } else {
        Ok(())
    }
}

/// The store after `reschedule`.
pub open spec fn reschedule_store(
    s: StoreView,
    id: u128,
    assigned_user: u128,
    today: i32,
) -> StoreView {
    if reschedule_result(s, id, assigned_user) is Ok {
        let i = todo_index(s.todos, id);
        StoreView {
            members: s.members,
            todos: s.todos.update(i, new_cycle(s.todos[i], assigned_user, today)),
        }
    } else {
        s
    }
}

/// The store after `remove_todo`: without the row of that identity.
pub open spec fn remove_todo_store(s: StoreView, id: u128) -> StoreView {
    if has_todo_id(s.todos, id) {
        StoreView { members: s.members, todos: s.todos.remove(todo_index(s.todos, id)) }
    } else {
        s
    }
}

impl StoreView {
    /// The constraints of the store: identities are unique, a user is
    /// registered at most once per chat, and every todo is `todo_ok`.
    pub open spec fn wf(self) -> bool {
        &&& forall|i: int, j: int|
            0 <= i < j < self.members.len() ==> (#[trigger] self.members[i]).id != (
            #[trigger] self.members[j]).id
        &&& forall|i: int, j: int|
            0 <= i < j < self.members.len() ==> !((#[trigger] self.members[i]).telegram_user_id
                == (#[trigger] self.members[j]).telegram_user_id && self.members[i].chat_id
                == self.members[j].chat_id)
        &&& forall|i: int, j: int|
            0 <= i < j < self.todos.len() ==> (#[trigger] self.todos[i]).id != (
            #[trigger] self.todos[j]).id
        &&& forall|i: int| 0 <= i < self.todos.len() ==> todo_ok(self.members, #[trigger] self.todos[i])
    }
}

/// In a store that keeps its constraints a todo is found at its own place.
pub proof fn lemma_todo_index(s: StoreView, i: int)
    requires
        s.wf(),
        0 <= i < s.todos.len(),
    ensures
        has_todo_id(s.todos, s.todos[i].id),
        todo_index(s.todos, s.todos[i].id) == i,
{
    let j = todo_index(s.todos, s.todos[i].id);
    assert(0 <= j < s.todos.len() && s.todos[j].id == s.todos[i].id);
    if i < j {
        assert(s.todos[i].id != s.todos[j].id);
    }
    if j < i {
        assert(s.todos[j].id != s.todos[i].id);
    }
}

/// A todo that was in order stays so when a member is added.
pub proof fn lemma_more_members_keep_todos(
    members: Seq<ChatMemberView>,
    row: ChatMemberView,
    todos: Seq<TodoView>,
)
    requires
        forall|i: int| 0 <= i < todos.len() ==> todo_ok(members, #[trigger] todos[i]),
    ensures
        forall|i: int| 0 <= i < todos.len() ==> todo_ok(members.push(row), #[trigger] todos[i]),
{
    let more = members.push(row);
    assert forall|id: u128, chat_id: i64| has_member(members, id, chat_id) implies has_member(
        more,
        id,
        chat_id,
    ) by {
        let k = choose|k: int|
            0 <= k < members.len() && (#[trigger] members[k]).id == id && members[k].chat_id
                == chat_id;
        assert(more[k] == members[k]);
    }
}

/// The identities of a sequence of todos, in the same order.
pub open spec fn todo_ids(todos: Seq<TodoView>) -> Seq<u128> {
    todos.map_values(|t: TodoView| t.id)
}

/// The identities of a sequence of members, in the same order.
pub open spec fn member_id_list(members: Seq<ChatMemberView>) -> Seq<u128> {
    members.map_values(|m: ChatMemberView| m.id)
}

/// `r` is the identity to use where `wanted` was drawn and the identities
/// `taken` are in use: `wanted` itself where it is free, and the smallest
/// free number where it is not.
pub open spec fn is_fresh_choice(taken: Seq<u128>, wanted: u128, r: u128) -> bool {
    &&& !taken.contains(r)
    &&& !taken.contains(wanted) ==> r == wanted
    &&& taken.contains(wanted) ==> forall|c: u128| c < r ==> #[trigger] taken.contains(c)
}

/// Among the numbers from 0 up to the length of a sequence, one is not in
/// the sequence.
pub proof fn lemma_a_number_is_free(taken: Seq<u128>)
    requires
        taken.len() <= usize::MAX,
    ensures
        exists|c: u128| c <= taken.len() && !#[trigger] taken.contains(c),
    decreases taken.len(),
{
    let n = taken.len();
    if forall|c: u128| c <= n ==> #[trigger] taken.contains(c) {
        if n == 0 {
            assert(taken.contains(0u128));
            let k = choose|k: int| 0 <= k < taken.len() && taken[k] == 0u128;
        } else {
            let top: u128 = n as u128;
            assert(taken.contains(top));
            let k = choose|k: int| 0 <= k < taken.len() && taken[k] == top;
            let rest = taken.remove(k);
            assert forall|c: u128| c <= rest.len() implies #[trigger] rest.contains(c) by {
                assert(taken.contains(c));
                let j = choose|j: int| 0 <= j < taken.len() && taken[j] == c;
                assert(j != k);
                if j < k {
                    assert(rest[j] == c);
                } else {
                    assert(rest[j - 1] == c);
                }
            }
            lemma_a_number_is_free(rest);
        }
    }
}

fn holds(taken: &Vec<u128>, c: u128) -> (r: bool)
    ensures
        r == taken@.contains(c),
{
    let mut i: usize = 0;
    while i < taken.len()
        invariant
            i <= taken.len(),
            forall|j: int| 0 <= j < i ==> taken@[j] != c,
        decreases taken.len() - i,
    {
        if taken[i] == c {
            return true;
        }
        i = i + 1;
    }
    false
}

/// The identity to use where `wanted` was drawn and the identities `taken`
/// are in use.
pub fn fresh_choice(taken: &Vec<u128>, wanted: u128) -> (r: u128)
    ensures
        is_fresh_choice(taken@, wanted, r),
{
    if !holds(taken, wanted) {
        return wanted;
    }
    let n: usize = taken.len();
    let mut c: u128 = 0;
    while holds(taken, c)
        invariant
            taken@.len() == n,
            c <= taken@.len(),
            forall|b: u128| b < c ==> #[trigger] taken@.contains(b),
        decreases taken@.len() - c,
    {
        proof {
            lemma_a_number_is_free(taken@);
        }
        c = c + 1;
    }
    c
}

impl View for Store {
    type V = StoreView;

    closed spec fn view(&self) -> StoreView {
        StoreView { members: member_views(self.members@), todos: todo_views(self.todos@) }
    }
}

impl Store {
    /// The constraints hold of this store.
    pub open spec fn wf(&self) -> bool {
        self@.wf()
    }

    /// A store without members and todos.
    pub fn new() -> (r: Store)
        ensures
            r@ == (StoreView {
                members: Seq::<ChatMemberView>::empty(),
                todos: Seq::<TodoView>::empty(),
            }),
            r.wf(),
    {
        let r = Store { members: Vec::new(), todos: Vec::new() };
        assert(r@.members =~= Seq::<ChatMemberView>::empty());
        assert(r@.todos =~= Seq::<TodoView>::empty());
        r
    }

    /// The members, in the order in which they were registered.
    pub fn members(&self) -> (r: &Vec<ChatMember>)
        ensures
            member_views(r@) == self@.members,
    {
        &self.members
    }

    /// The identity under which the user `telegram_user_id` is registered in
    /// the chat `chat_id`, if they are.
    pub fn find_member(&self, telegram_user_id: i64, chat_id: i64) -> (r: Option<u128>)
        ensures
            r is Some <==> is_registered(self@.members, telegram_user_id, chat_id),
            r matches Some(id) ==> is_member_row(self@.members, id, telegram_user_id, chat_id),
    {
        let mut i: usize = 0;
        while i < self.members.len()
            invariant
                i <= self.members.len(),
                forall|j: int|
                    0 <= j < i ==> !((#[trigger] self@.members[j]).telegram_user_id
                        == telegram_user_id && self@.members[j].chat_id == chat_id),
            decreases self.members.len() - i,
        {
            if self.members[i].telegram_user_id == telegram_user_id && self.members[i].chat_id
                == chat_id {
                assert(self@.members[i as int].id == self.members[i as int].id);
                return Some(self.members[i].id);
            }
            i = i + 1;
        }
        None
    }

    /// Whether `id` is a member of the chat `chat_id`.
    pub fn is_member(&self, id: u128, chat_id: i64) -> (r: bool)
        ensures
            r == has_member(self@.members, id, chat_id),
    {
        let mut i: usize = 0;
        while i < self.members.len()
            invariant
                i <= self.members.len(),
                forall|j: int|
                    0 <= j < i ==> !((#[trigger] self@.members[j]).id == id
                        && self@.members[j].chat_id == chat_id),
            decreases self.members.len() - i,
        {
            if self.members[i].id == id && self.members[i].chat_id == chat_id {
                assert(self@.members[i as int].id == id);
                return true;
            }
            i = i + 1;
        }
        false
    }

    /// The place of the member with the identity `id`, if it is stored.
    pub fn find_member_id(&self, id: u128) -> (r: Option<usize>)
        ensures
            r is Some <==> has_member_id(self@.members, id),
            r matches Some(i) ==> i < self@.members.len() && self@.members[i as int].id == id,
    {
        let mut i: usize = 0;
        while i < self.members.len()
            invariant
                i <= self.members.len(),
                forall|j: int| 0 <= j < i ==> (#[trigger] self@.members[j]).id != id,
            decreases self.members.len() - i,
        {
            if self.members[i].id == id {
                assert(self@.members[i as int].id == id);
                return Some(i);
            }
            i = i + 1;
        }
        None
    }

    /// The identities of the members of the chat `chat_id`, in the order in
    /// which they were registered.
    pub fn chat_member_ids(&self, chat_id: i64) -> (r: Vec<u128>)
        ensures
            r@ == member_ids(self@.members, chat_id),
    {
        let mut ids: Vec<u128> = Vec::new();
        let mut i: usize = 0;
        while i < self.members.len()
            invariant
                i <= self.members.len(),
                ids@ == member_ids(self@.members.take(i as int), chat_id),
            decreases self.members.len() - i,
        {
            assert(self@.members.take(i + 1).drop_last() =~= self@.members.take(i as int));
            if self.members[i].chat_id == chat_id {
                ids.push(self.members[i].id);
            }
            i = i + 1;
        }
        assert(self@.members.take(i as int) =~= self@.members);
        ids
    }

    /// An identity for a new member where `wanted` was drawn: `wanted`
    /// itself where no member has it, else the smallest number that no
    /// member has.
    pub fn fresh_member_id(&self, wanted: u128) -> (r: u128)
        ensures
            is_fresh_choice(member_id_list(self@.members), wanted, r),
            !has_member_id(self@.members, r),
    {
        let mut taken: Vec<u128> = Vec::new();
        let mut i: usize = 0;
        while i < self.members.len()
            invariant
                i <= self.members.len(),
                taken@ =~= member_id_list(self@.members).take(i as int),
            decreases self.members.len() - i,
        {
            taken.push(self.members[i].id);
            i = i + 1;
        }
        assert(taken@ =~= member_id_list(self@.members));
        let r = fresh_choice(&taken, wanted);
        proof {
            if has_member_id(self@.members, r) {
                let k = choose|k: int|
                    0 <= k < self@.members.len() && (#[trigger] self@.members[k]).id == r;
                assert(taken@[k] == r);
            }
        }
        r
    }

    /// An identity for a new todo where `wanted` was drawn: `wanted` itself
    /// where no todo has it, else the smallest number that no todo has.
    pub fn fresh_todo_id(&self, wanted: u128) -> (r: u128)
        ensures
            is_fresh_choice(todo_ids(self@.todos), wanted, r),
            !has_todo_id(self@.todos, r),
    {
        let mut taken: Vec<u128> = Vec::new();
        let mut i: usize = 0;
        while i < self.todos.len()
            invariant
                i <= self.todos.len(),
                taken@ =~= todo_ids(self@.todos).take(i as int),
            decreases self.todos.len() - i,
        {
            taken.push(self.todos[i].id);
            i = i + 1;
        }
        assert(taken@ =~= todo_ids(self@.todos));
        let r = fresh_choice(&taken, wanted);
        proof {
            if has_todo_id(self@.todos, r) {
                let k = choose|k: int|
                    0 <= k < self@.todos.len() && (#[trigger] self@.todos[k]).id == r;
                assert(taken@[k] == r);
            }
        }
        r
    }

    /// Stores a new member. The store refuses a member whose identity is
    /// taken, or whose user is registered in that chat already.
    pub fn add_member(&mut self, member: ChatMember) -> (r: Result<(), LeditError>)
        requires
            old(self).wf(),
        ensures
            final(self).wf(),
            r is Err <==> has_member_id(old(self)@.members, member.id) || is_registered(
                old(self)@.members,
                member.telegram_user_id,
                member.chat_id,
            ),
            r matches Err(e) ==> e == LeditError::Store(StoreFault::UniqueViolation)
                && final(self)@ == old(self)@,
            r is Ok ==> final(self)@ == (StoreView {
                members: old(self)@.members.push(member@),
                todos: old(self)@.todos,
            }),
    {
        if self.find_member_id(member.id).is_some() {
            return Err(LeditError::Store(StoreFault::UniqueViolation));
        }
        if self.find_member(member.telegram_user_id, member.chat_id).is_some() {
            return Err(LeditError::Store(StoreFault::UniqueViolation));
        }
        let ghost before = self@;
        let ghost row = member@;
        self.members.push(member);
        proof {
            assert(self@.members =~= before.members.push(row));
            assert(self@.todos == before.todos);
            lemma_more_members_keep_todos(before.members, row, before.todos);
        }
        Ok(())
    }

    /// The place of the todo with the identity `id`, if it is stored.
    pub fn find_todo(&self, id: u128) -> (r: Option<usize>)
        ensures
            r is Some <==> has_todo_id(self@.todos, id),
            r matches Some(i) ==> i < self@.todos.len() && self@.todos[i as int].id == id,
            r matches Some(i) ==> self.wf() ==> i == todo_index(self@.todos, id),
    {
        let mut i: usize = 0;
        while i < self.todos.len()
            invariant
                i <= self.todos.len(),
                forall|j: int| 0 <= j < i ==> (#[trigger] self@.todos[j]).id != id,
            decreases self.todos.len() - i,
        {
            if self.todos[i].id == id {
                assert(self@.todos[i as int].id == id);
                return Some(i);
            }
            i = i + 1;
        }
        None
    }

    /// Stores a new todo, with the interval that is kept for it. The store
    /// refuses a todo whose description is not 1 to 64 characters without a
    /// control character, one whose identity is taken, and one that refers to
    /// a member that its chat does not have.
    pub fn add_todo(&mut self, todo: Todo) -> (r: Result<(), LeditError>)
        requires
            old(self).wf(),
        ensures
            final(self).wf(),
            r == add_todo_result(old(self)@, todo@),
            final(self)@ == add_todo_store(old(self)@, todo@),
    {
        if !is_description_ok(todo.description.as_str()) {
            return Err(LeditError::Store(StoreFault::CheckViolation));
        }
        if self.find_todo(todo.id).is_some() {
            return Err(LeditError::Store(StoreFault::UniqueViolation));
        }
        if !self.is_member(todo.assigned_user, todo.chat_id) {
            return Err(LeditError::Store(StoreFault::ForeignKeyViolation));
        }
        if let Some(u) = todo.done_by {
            if !self.is_member(u, todo.chat_id) {
                return Err(LeditError::Store(StoreFault::ForeignKeyViolation));
            }
        }
        let ghost before = self@;
        let row = Todo {
            id: todo.id,
            chat_id: todo.chat_id,
            description: todo.description,
            interval_days: clamp_interval(todo.interval_days),
            assigned_user: todo.assigned_user,
            scheduled_for: todo.scheduled_for,
            done_by: todo.done_by,
        };
        let ghost shown = row@;
        self.todos.push(row);
        proof {
            assert(shown == stored_todo(todo@));
            assert(self@.todos =~= before.todos.push(shown));
            assert(self@.members == before.members);
        }
        Ok(())
    }

    /// Sets or clears who completed the todo with the identity `id`.
    pub fn set_done_by(&mut self, id: u128, done_by: Option<u128>) -> (r: Result<(), LeditError>)
        requires
            old(self).wf(),
        ensures
            final(self).wf(),
            r == set_done_by_result(old(self)@, id, done_by),
            final(self)@ == set_done_by_store(old(self)@, id, done_by),
    {
        let i: usize = match self.find_todo(id) {
            Some(i) => i,
            None => {
                return Err(LeditError::Store(StoreFault::RowNotFound));
            },
        };
        if let Some(u) = done_by {
            if !self.is_member(u, self.todos[i].chat_id) {
                return Err(LeditError::Store(StoreFault::ForeignKeyViolation));
            }
        }
        let ghost before = self@;
        let mut row = self.todos[i].duplicate();
        row.done_by = done_by;
        let ghost shown = row@;
        self.todos.set(i, row);
        proof {
            assert(shown == with_done_by(before.todos[i as int], done_by));
            assert(self@.todos =~= before.todos.update(i as int, shown));
            assert(self@.members == before.members);
        }
        Ok(())
    }

    /// Starts a new cycle of the todo with the identity `id`: it is open
    /// again, scheduled for `today` and assigned to `assigned_user`.
    pub fn reschedule(&mut self, id: u128, assigned_user: u128, today: i32) -> (r: Result<
        (),
        LeditError,
    >)
        requires
            old(self).wf(),
        ensures
            final(self).wf(),
            r == reschedule_result(old(self)@, id, assigned_user),
            final(self)@ == reschedule_store(old(self)@, id, assigned_user, today),
    {
        let i: usize = match self.find_todo(id) {
            Some(i) => i,
            None => {
                return Err(LeditError::Store(StoreFault::RowNotFound));
            },
        };
        if !self.is_member(assigned_user, self.todos[i].chat_id) {
            return Err(LeditError::Store(StoreFault::ForeignKeyViolation));
        }
        let ghost before = self@;
        let mut row = self.todos[i].duplicate();
        row.done_by = None;
        row.scheduled_for = today;
        row.assigned_user = assigned_user;
        let ghost shown = row@;
        self.todos.set(i, row);
        proof {
            assert(shown == new_cycle(before.todos[i as int], assigned_user, today));
            assert(self@.todos =~= before.todos.update(i as int, shown));
            assert(self@.members == before.members);
        }
        Ok(())
    }

    /// Removes the todo with the identity `id` and hands it out, if it is
    /// stored.
    pub fn remove_todo(&mut self, id: u128) -> (r: Option<Todo>)
        requires
            old(self).wf(),
        ensures
            final(self).wf(),
            r is Some <==> has_todo_id(old(self)@.todos, id),
            r matches Some(t) ==> t@ == old(self)@.todos[todo_index(old(self)@.todos, id)],
            final(self)@ == remove_todo_store(old(self)@, id),
    {
        let i: usize = match self.find_todo(id) {
            Some(i) => i,
            None => {
                return None;
            },
        };
        let ghost before = self@;
        let row = self.todos.remove(i);
        proof {
            assert(self@.todos =~= before.todos.remove(i as int));
            assert(self@.members == before.members);
        }
        Some(row)
    }

    /// The todos, in the order in which they were stored.
    pub fn todos(&self) -> (r: &Vec<Todo>)
        ensures
            todo_views(r@) == self@.todos,
    {
        &self.todos
    }
}

} // verus!
