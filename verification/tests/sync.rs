use ledit::handler::chat_member::{register_chat_member_as, ChatMember};
use ledit::handler::todo::{add_todo_as, handle_check_todo, handle_delete_todo};
use ledit::interval::{delete_one_time_todos, re_schedule_todos};
use ledit::message::{Message, User};
use ledit::store::Store;
use ledit::sync::{changes, Change};

const CHAT: i64 = 10;
const DAY: i32 = 738_000;

fn sender(id: i64, name: &str) -> Message {
    Message {
        chat_id: CHAT,
        from: Some(User { id, first_name: name.to_string(), username: None }),
        text: None,
    }
}

fn chat() -> Store {
    let mut store = Store::new();
    register_chat_member_as(&sender(501, "Alice"), &mut store, 1).unwrap();
    add_todo_as("a".to_string(), None, &sender(501, "Alice"), &mut store, 100, 1, DAY).unwrap();
    add_todo_as("b".to_string(), Some(2), &sender(501, "Alice"), &mut store, 101, 1, DAY).unwrap();
    store
}

#[test]
fn no_change_needs_no_write() {
    let store = chat();
    assert!(changes(&store, &store.clone()).is_empty());
    assert!(changes(&Store::new(), &Store::new()).is_empty());
}

#[test]
fn a_new_member_and_a_new_todo_are_inserted() {
    let before = chat();
    let mut after = before.clone();
    register_chat_member_as(&sender(502, "Bob"), &mut after, 2).unwrap();
    add_todo_as("c".to_string(), None, &sender(502, "Bob"), &mut after, 102, 2, DAY).unwrap();
    assert_eq!(
        changes(&before, &after),
        vec![
            Change::InsertMember(ChatMember {
                id: 2,
                telegram_user_id: 502,
                chat_id: CHAT,
                username: "Bob".to_string()
            }),
            Change::InsertTodo(after.todos()[2].clone()),
        ]
    );
}

#[test]
fn a_checked_todo_is_updated() {
    let before = chat();
    let mut after = before.clone();
    handle_check_todo(1, &sender(501, "Alice"), &mut after).unwrap();
    assert_eq!(changes(&before, &after), vec![Change::UpdateTodo(after.todos()[0].clone())]);
    assert_eq!(after.todos()[0].done_by, Some(1));
}

#[test]
fn a_deleted_todo_is_deleted() {
    let before = chat();
    let mut after = before.clone();
    handle_delete_todo(2, &sender(501, "Alice"), &mut after);
    assert_eq!(changes(&before, &after), vec![Change::DeleteTodo(101)]);
}

#[test]
fn a_tick_is_written_as_updates_and_deletions() {
    let mut before = chat();
    before.set_done_by(100, Some(1)).unwrap();
    before.set_done_by(101, Some(1)).unwrap();
    let mut after = before.clone();
    re_schedule_todos(&mut after, DAY + 10);
    delete_one_time_todos(&mut after, DAY + 10);
    assert_eq!(
        changes(&before, &after),
        vec![Change::DeleteTodo(100), Change::UpdateTodo(after.todos()[0].clone())]
    );
    assert_eq!(after.todos()[0].scheduled_for, DAY + 10);
}

#[test]
fn everything_is_inserted_into_an_empty_copy() {
    let after = chat();
    let all = changes(&Store::new(), &after);
    assert_eq!(all.len(), 3);
    assert!(matches!(all[0], Change::InsertMember(_)));
    assert_eq!(all[1], Change::InsertTodo(after.todos()[0].clone()));
    assert_eq!(all[2], Change::InsertTodo(after.todos()[1].clone()));
    let none = changes(&after, &Store::new());
    assert_eq!(none, vec![Change::DeleteTodo(100), Change::DeleteTodo(101)]);
}
