use ledit::error::{LeditError, StoreFault};
use ledit::handler::chat_member::register_chat_member_as;
use ledit::handler::todo::{
    add_todo_as, clamp_interval, delete_todo_on, get_agenda, get_all_todos_as_string,
    get_sorted_todos, get_todo_at, get_todos_by_username_as_string, handle_add_todo,
    handle_check_todo, handle_delete_todo, handle_list_todos, is_actionable, is_description_ok,
    list_todos_on, render_agenda, render_all_todos, AgendaItem, Todo,
};
use ledit::message::{Message, Reply, User};
use ledit::store::{fresh_choice, Store};

const CHAT: i64 = 10;
const ALICE: u128 = 1;
const BOB: u128 = 2;
const TODAY: i32 = 738_000;

fn message(chat_id: i64, sender: Option<i64>) -> Message {
    Message {
        chat_id,
        from: sender.map(|id| User { id, first_name: format!("user{}", id), username: None }),
        text: None,
    }
}

fn named(chat_id: i64, id: i64, name: &str) -> Message {
    Message {
        chat_id,
        from: Some(User { id, first_name: "first".to_string(), username: Some(name.to_string()) }),
        text: None,
    }
}

/// A store with Alice (user 501) and Bob (user 502) in the chat.
fn two_members() -> Store {
    let mut store = Store::new();
    register_chat_member_as(&named(CHAT, 501, "Alice"), &mut store, ALICE).unwrap();
    register_chat_member_as(&named(CHAT, 502, "Bob"), &mut store, BOB).unwrap();
    store
}

fn add(store: &mut Store, id: u128, title: &str, interval: Option<i64>, who: u128, day: i32) {
    let r = add_todo_as(title.to_string(), interval, &message(CHAT, None), store, id, who, day);
    assert_eq!(r, Ok(Reply { chat_id: CHAT, text: format!("Added: {}", title) }));
}

fn descriptions(todos: &[Todo]) -> Vec<String> {
    todos.iter().map(|t| t.description.clone()).collect()
}

#[test]
fn clamp_interval_keeps_one_to_999() {
    assert_eq!(clamp_interval(None), None);
    assert_eq!(clamp_interval(Some(1)), Some(1));
    assert_eq!(clamp_interval(Some(7)), Some(7));
    assert_eq!(clamp_interval(Some(999)), Some(999));
}

#[test]
fn clamp_interval_drops_the_rest() {
    assert_eq!(clamp_interval(Some(0)), None);
    assert_eq!(clamp_interval(Some(-1)), None);
    assert_eq!(clamp_interval(Some(1000)), None);
    assert_eq!(clamp_interval(Some(i64::MAX)), None);
    assert_eq!(clamp_interval(Some(i64::MIN)), None);
}

#[test]
fn add_stores_an_open_todo_for_the_day() {
    let mut store = two_members();
    add(&mut store, 100, "take out trash", Some(7), BOB, TODAY);
    assert_eq!(
        store.todos(),
        &vec![Todo {
            id: 100,
            chat_id: CHAT,
            description: "take out trash".to_string(),
            interval_days: Some(7),
            assigned_user: BOB,
            scheduled_for: TODAY,
            done_by: None,
        }]
    );
}

#[test]
fn add_stores_an_interval_out_of_range_as_absent() {
    let mut store = two_members();
    add(&mut store, 100, "a", Some(0), ALICE, TODAY);
    add(&mut store, 101, "b", Some(1000), ALICE, TODAY);
    add(&mut store, 102, "c", Some(-3), ALICE, TODAY);
    add(&mut store, 103, "d", Some(999), ALICE, TODAY);
    add(&mut store, 104, "e", Some(1), ALICE, TODAY);
    let stored: Vec<Option<i64>> = store.todos().iter().map(|t| t.interval_days).collect();
    assert_eq!(stored, vec![None, None, None, Some(999), Some(1)]);
}

#[test]
fn add_refuses_a_taken_identity() {
    let mut store = two_members();
    add(&mut store, 100, "a", None, ALICE, TODAY);
    let r = add_todo_as("b".to_string(), None, &message(CHAT, None), &mut store, 100, BOB, TODAY);
    assert_eq!(r, Err(LeditError::Store(StoreFault::UniqueViolation)));
    assert_eq!(descriptions(store.todos()), vec!["a"]);
}

#[test]
fn add_refuses_an_assignee_from_elsewhere() {
    let mut store = two_members();
    register_chat_member_as(&named(11, 503, "Carol"), &mut store, 3).unwrap();
    let r = add_todo_as("a".to_string(), None, &message(CHAT, None), &mut store, 100, 3, TODAY);
    assert_eq!(r, Err(LeditError::Store(StoreFault::ForeignKeyViolation)));
    let r = add_todo_as("a".to_string(), None, &message(CHAT, None), &mut store, 100, 9, TODAY);
    assert_eq!(r, Err(LeditError::Store(StoreFault::ForeignKeyViolation)));
    assert!(store.todos().is_empty());
}

#[test]
fn store_refuses_a_todo_done_by_a_stranger() {
    let mut store = two_members();
    let todo = Todo {
        id: 100,
        chat_id: CHAT,
        description: "a".to_string(),
        interval_days: Some(5000),
        assigned_user: ALICE,
        scheduled_for: TODAY,
        done_by: Some(9),
    };
    assert_eq!(
        store.add_todo(todo.clone()),
        Err(LeditError::Store(StoreFault::ForeignKeyViolation))
    );
    let ok = Todo { done_by: Some(BOB), ..todo };
    assert_eq!(store.add_todo(ok), Ok(()));
    assert_eq!(store.todos()[0].interval_days, None);
    assert_eq!(store.todos()[0].done_by, Some(BOB));
}

#[test]
fn handle_add_assigns_a_member_of_the_chat() {
    let mut store = two_members();
    register_chat_member_as(&named(11, 503, "Carol"), &mut store, 3).unwrap();
    for n in 0..60 {
        let title = format!("todo {}", n);
        let r = handle_add_todo(title.clone(), Some(7), &message(CHAT, None), &mut store);
        assert_eq!(r, Ok(Reply { chat_id: CHAT, text: format!("Added: {}", title) }));
        let t = store.todos().last().unwrap();
        assert_eq!(store.todos().len(), n + 1);
        assert!(t.assigned_user == ALICE || t.assigned_user == BOB);
        assert_eq!(t.chat_id, CHAT);
        assert_eq!(t.description, title);
        assert_eq!(t.interval_days, Some(7));
        assert_eq!(t.done_by, None);
    }
}

#[test]
fn handle_add_in_a_chat_without_members_stores_nothing() {
    let mut store = two_members();
    let r = handle_add_todo("a".to_string(), None, &message(99, None), &mut store);
    assert_eq!(r, Err(LeditError::RndUser));
    assert!(store.todos().is_empty());
    let mut empty = Store::new();
    let r = handle_add_todo("a".to_string(), Some(3), &message(CHAT, None), &mut empty);
    assert_eq!(r, Err(LeditError::RndUser));
    assert!(empty.todos().is_empty());
}

#[test]
fn handle_add_drops_an_interval_out_of_range() {
    let mut store = two_members();
    handle_add_todo("a".to_string(), Some(1000), &message(CHAT, None), &mut store).unwrap();
    handle_add_todo("b".to_string(), Some(0), &message(CHAT, None), &mut store).unwrap();
    assert_eq!(store.todos()[0].interval_days, None);
    assert_eq!(store.todos()[1].interval_days, None);
}

#[test]
fn the_list_puts_one_time_todos_first() {
    let mut store = two_members();
    add(&mut store, 100, "weekly b", Some(7), ALICE, TODAY);
    add(&mut store, 101, "zebra", None, ALICE, TODAY);
    add(&mut store, 102, "daily", Some(1), BOB, TODAY);
    add(&mut store, 103, "apple", None, BOB, TODAY);
    add(&mut store, 104, "weekly a", Some(7), BOB, TODAY);
    assert_eq!(
        descriptions(&get_sorted_todos(CHAT, &store)),
        vec!["apple", "zebra", "daily", "weekly a", "weekly b"]
    );
}

#[test]
fn the_list_keeps_equal_todos_in_stored_order() {
    let mut store = two_members();
    add(&mut store, 100, "same", Some(3), ALICE, TODAY);
    add(&mut store, 101, "same", Some(3), BOB, TODAY);
    add(&mut store, 102, "same", Some(3), ALICE, TODAY);
    let ids: Vec<u128> = get_sorted_todos(CHAT, &store).iter().map(|t| t.id).collect();
    assert_eq!(ids, vec![100, 101, 102]);
}

#[test]
fn the_list_is_the_same_when_asked_twice() {
    let mut store = two_members();
    add(&mut store, 100, "b", Some(7), ALICE, TODAY);
    add(&mut store, 101, "a", None, ALICE, TODAY);
    add(&mut store, 102, "a", Some(7), ALICE, TODAY);
    let first = get_sorted_todos(CHAT, &store);
    let second = get_sorted_todos(CHAT, &store);
    assert_eq!(first, second);
    let m = message(CHAT, None);
    assert_eq!(list_todos_on(&m, &store, TODAY), list_todos_on(&m, &store, TODAY));
}

#[test]
fn the_list_holds_only_the_chat() {
    let mut store = two_members();
    register_chat_member_as(&named(11, 503, "Carol"), &mut store, 3).unwrap();
    add(&mut store, 100, "ours", None, ALICE, TODAY);
    add_todo_as("theirs".to_string(), None, &message(11, None), &mut store, 101, 3, TODAY)
        .unwrap();
    assert_eq!(descriptions(&get_sorted_todos(CHAT, &store)), vec!["ours"]);
    assert_eq!(descriptions(&get_sorted_todos(11, &store)), vec!["theirs"]);
    assert!(get_sorted_todos(12, &store).is_empty());
}

#[test]
fn render_all_todos_of_nothing() {
    assert_eq!(render_all_todos(&Vec::new(), TODAY), "No todo found.");
}

#[test]
fn render_all_todos_numbers_the_lines() {
    let mut store = two_members();
    add(&mut store, 100, "trash", Some(7), ALICE, TODAY);
    add(&mut store, 101, "milk", None, ALICE, TODAY - 1);
    add(&mut store, 102, "plants", Some(1), BOB, TODAY);
    store.set_done_by(100, Some(BOB)).unwrap();
    store.set_done_by(101, Some(ALICE)).unwrap();
    let listed = get_sorted_todos(CHAT, &store);
    assert_eq!(
        render_all_todos(&listed, TODAY),
        "List of all todos:\n\n🗓 1. milk  \n☑️ 2. plants (every 1 day) \n✅ 3. trash (every 7 days) "
    );
}

#[test]
fn get_all_todos_as_string_renders_the_chat() {
    let mut store = two_members();
    assert_eq!(get_all_todos_as_string(&message(CHAT, None), &store), "No todo found.");
    add(&mut store, 100, "milk", None, ALICE, TODAY);
    assert_eq!(
        get_all_todos_as_string(&message(CHAT, None), &store),
        "List of all todos:\n\n☑️ 1. milk  "
    );
}

#[test]
fn a_one_time_todo_is_actionable_from_its_day() {
    let t = |scheduled_for: i32, done_by: Option<u128>| Todo {
        id: 1,
        chat_id: CHAT,
        description: "a".to_string(),
        interval_days: None,
        assigned_user: ALICE,
        scheduled_for,
        done_by,
    };
    assert!(is_actionable(&t(TODAY, None), TODAY));
    assert!(is_actionable(&t(TODAY - 5, None), TODAY));
    assert!(is_actionable(&t(TODAY - 5, Some(BOB)), TODAY));
    assert!(!is_actionable(&t(TODAY + 1, None), TODAY));
}

#[test]
fn a_recurring_todo_is_actionable_while_open_or_done_today() {
    let t = |scheduled_for: i32, done_by: Option<u128>| Todo {
        id: 1,
        chat_id: CHAT,
        description: "a".to_string(),
        interval_days: Some(7),
        assigned_user: ALICE,
        scheduled_for,
        done_by,
    };
    assert!(is_actionable(&t(TODAY, None), TODAY));
    assert!(is_actionable(&t(TODAY - 3, None), TODAY));
    assert!(is_actionable(&t(TODAY, Some(ALICE)), TODAY));
    assert!(!is_actionable(&t(TODAY - 1, Some(ALICE)), TODAY));
    assert!(!is_actionable(&t(TODAY + 1, None), TODAY));
    assert!(!is_actionable(&t(TODAY + 1, Some(ALICE)), TODAY));
}

#[test]
fn the_agenda_groups_by_name_descending() {
    let mut store = two_members();
    add(&mut store, 100, "wash", None, ALICE, TODAY);
    add(&mut store, 101, "cook", None, BOB, TODAY - 2);
    add(&mut store, 102, "bake", Some(3), ALICE, TODAY);
    add(&mut store, 103, "iron", Some(3), BOB, TODAY);
    add(&mut store, 104, "later", None, BOB, TODAY + 1);
    store.set_done_by(102, Some(ALICE)).unwrap();
    store.set_done_by(103, Some(ALICE)).unwrap();
    let items = get_agenda(CHAT, &store, TODAY);
    let seen: Vec<(String, String)> =
        items.iter().map(|a| (a.username.clone(), a.todo.description.clone())).collect();
    let expected: Vec<(String, String)> =
        [("Bob", "cook"), ("Bob", "iron"), ("Alice", "wash"), ("Alice", "bake")]
            .iter()
            .map(|(n, d)| (n.to_string(), d.to_string()))
            .collect();
    assert_eq!(seen, expected);
    assert_eq!(
        render_agenda(&items, TODAY),
        "Todos for Bob:\n\n☑️⏳ cook\n✅ (delegated) iron\n\nTodos for Alice:\n\n☑️ wash\n✅ bake"
    );
}

#[test]
fn the_agenda_of_nothing() {
    let store = two_members();
    assert!(get_agenda(CHAT, &store, TODAY).is_empty());
    assert_eq!(render_agenda(&Vec::<AgendaItem>::new(), TODAY), "No todos for today.");
    assert_eq!(get_todos_by_username_as_string(CHAT, &store), "No todos for today.");
}

#[test]
fn the_agenda_leaves_out_what_is_not_actionable() {
    let mut store = two_members();
    add(&mut store, 100, "done earlier", Some(7), ALICE, TODAY - 2);
    add(&mut store, 101, "future", None, ALICE, TODAY + 3);
    store.set_done_by(100, Some(ALICE)).unwrap();
    assert!(get_agenda(CHAT, &store, TODAY).is_empty());
    assert_eq!(get_agenda(CHAT, &store, TODAY + 3).len(), 1);
}

#[test]
fn list_todos_on_joins_list_and_agenda() {
    let mut store = two_members();
    let m = message(CHAT, None);
    assert_eq!(
        list_todos_on(&m, &store, TODAY),
        Reply { chat_id: CHAT, text: "No todo found.\n\n\nNo todos for today.".to_string() }
    );
    add(&mut store, 100, "milk", None, BOB, TODAY);
    assert_eq!(
        list_todos_on(&m, &store, TODAY).text,
        "List of all todos:\n\n☑️ 1. milk  \n\n\nTodos for Bob:\n\n☑️ milk"
    );
    assert_eq!(handle_list_todos(&message(99, None), &store).chat_id, 99);
    assert_eq!(
        handle_list_todos(&message(99, None), &store).text,
        "No todo found.\n\n\nNo todos for today."
    );
}

#[test]
fn delete_removes_the_todo_at_the_position() {
    let mut store = two_members();
    add(&mut store, 100, "b", None, ALICE, TODAY);
    add(&mut store, 101, "a", None, ALICE, TODAY);
    add(&mut store, 102, "c", Some(2), BOB, TODAY);
    let r = delete_todo_on(2, &message(CHAT, None), &mut store, TODAY);
    assert_eq!(
        r,
        Reply {
            chat_id: CHAT,
            text: "Deleted: b\n\nList of all todos:\n\n☑️ 1. a  \n☑️ 2. c (every 2 days) ".to_string()
        }
    );
    assert_eq!(descriptions(store.todos()), vec!["a", "c"]);
}

#[test]
fn delete_of_the_last_todo_shows_an_empty_list() {
    let mut store = two_members();
    add(&mut store, 100, "only", None, ALICE, TODAY);
    let r = handle_delete_todo(1, &message(CHAT, None), &mut store);
    assert_eq!(r, Reply { chat_id: CHAT, text: "Deleted: only\n\nNo todo found.".to_string() });
    assert!(store.todos().is_empty());
}

#[test]
fn delete_of_position_99_of_two_changes_nothing() {
    let mut store = two_members();
    add(&mut store, 100, "a", None, ALICE, TODAY);
    add(&mut store, 101, "b", Some(7), BOB, TODAY);
    let before = store.todos().clone();
    let r = handle_delete_todo(99, &message(CHAT, None), &mut store);
    assert_eq!(r, Reply { chat_id: CHAT, text: "Todo not found.".to_string() });
    assert_eq!(store.todos(), &before);
}

#[test]
fn delete_of_a_position_below_one_changes_nothing() {
    let mut store = two_members();
    add(&mut store, 100, "a", None, ALICE, TODAY);
    let before = store.todos().clone();
    for num in [0, -1, i64::MIN, 2, i64::MAX] {
        let r = handle_delete_todo(num, &message(CHAT, None), &mut store);
        assert_eq!(r.text, "Todo not found.");
        assert_eq!(store.todos(), &before);
    }
}

#[test]
fn delete_leaves_other_chats_alone() {
    let mut store = two_members();
    register_chat_member_as(&named(11, 503, "Carol"), &mut store, 3).unwrap();
    add(&mut store, 100, "ours", None, ALICE, TODAY);
    add_todo_as("theirs".to_string(), None, &message(11, None), &mut store, 101, 3, TODAY)
        .unwrap();
    handle_delete_todo(1, &message(11, None), &mut store);
    assert_eq!(descriptions(store.todos()), vec!["ours"]);
}

#[test]
fn check_completes_an_open_todo() {
    let mut store = two_members();
    add(&mut store, 100, "trash", Some(7), BOB, TODAY);
    let r = handle_check_todo(1, &message(CHAT, Some(501)), &mut store);
    assert_eq!(r, Ok(Reply { chat_id: CHAT, text: "✅ trash".to_string() }));
    assert_eq!(store.todos()[0].done_by, Some(ALICE));
    assert_eq!(store.todos()[0].assigned_user, BOB);
}

#[test]
fn check_opens_a_completed_todo() {
    let mut store = two_members();
    add(&mut store, 100, "trash", Some(7), BOB, TODAY);
    store.set_done_by(100, Some(BOB)).unwrap();
    let r = handle_check_todo(1, &message(CHAT, Some(501)), &mut store);
    assert_eq!(r, Ok(Reply { chat_id: CHAT, text: "☑️ trash".to_string() }));
    assert_eq!(store.todos()[0].done_by, None);
}

#[test]
fn check_twice_restores_an_open_todo() {
    let mut store = two_members();
    add(&mut store, 100, "b", None, BOB, TODAY);
    add(&mut store, 101, "a", Some(7), ALICE, TODAY);
    let before = store.todos().clone();
    handle_check_todo(2, &message(CHAT, Some(501)), &mut store).unwrap();
    assert_ne!(store.todos(), &before);
    handle_check_todo(2, &message(CHAT, Some(501)), &mut store).unwrap();
    assert_eq!(store.todos(), &before);
}

#[test]
fn check_twice_keeps_a_completed_todo_completed() {
    let mut store = two_members();
    add(&mut store, 100, "a", None, BOB, TODAY);
    store.set_done_by(100, Some(BOB)).unwrap();
    handle_check_todo(1, &message(CHAT, Some(501)), &mut store).unwrap();
    handle_check_todo(1, &message(CHAT, Some(501)), &mut store).unwrap();
    assert_eq!(store.todos()[0].done_by, Some(ALICE));
    store.set_done_by(100, Some(ALICE)).unwrap();
    let before = store.todos().clone();
    handle_check_todo(1, &message(CHAT, Some(501)), &mut store).unwrap();
    handle_check_todo(1, &message(CHAT, Some(501)), &mut store).unwrap();
    assert_eq!(store.todos(), &before);
}

#[test]
fn check_of_a_missing_position_changes_nothing() {
    let mut store = two_members();
    add(&mut store, 100, "a", None, BOB, TODAY);
    let before = store.todos().clone();
    for num in [0, -4, 2, 99] {
        let r = handle_check_todo(num, &message(CHAT, Some(501)), &mut store);
        assert_eq!(r, Ok(Reply { chat_id: CHAT, text: "Todo not found.".to_string() }));
        assert_eq!(store.todos(), &before);
    }
}

#[test]
fn check_without_sender_changes_nothing() {
    let mut store = two_members();
    add(&mut store, 100, "a", None, BOB, TODAY);
    let r = handle_check_todo(1, &message(CHAT, None), &mut store);
    assert_eq!(r, Ok(Reply { chat_id: CHAT, text: "Unknown user.".to_string() }));
    assert_eq!(store.todos()[0].done_by, None);
}

#[test]
fn check_by_an_unregistered_sender_fails() {
    let mut store = two_members();
    add(&mut store, 100, "a", None, BOB, TODAY);
    let r = handle_check_todo(1, &message(CHAT, Some(777)), &mut store);
    assert_eq!(r, Err(LeditError::Store(StoreFault::RowNotFound)));
    let r = handle_check_todo(1, &message(11, Some(501)), &mut store);
    assert_eq!(r, Err(LeditError::Store(StoreFault::RowNotFound)));
    assert_eq!(store.todos()[0].done_by, None);
}

#[test]
fn store_updates_answer_for_missing_rows() {
    let mut store = two_members();
    add(&mut store, 100, "a", None, BOB, TODAY);
    assert_eq!(store.find_todo(100), Some(0));
    assert_eq!(store.find_todo(5), None);
    assert_eq!(
        store.set_done_by(5, None),
        Err(LeditError::Store(StoreFault::RowNotFound))
    );
    assert_eq!(
        store.set_done_by(100, Some(9)),
        Err(LeditError::Store(StoreFault::ForeignKeyViolation))
    );
    assert_eq!(
        store.reschedule(5, ALICE, TODAY),
        Err(LeditError::Store(StoreFault::RowNotFound))
    );
    assert_eq!(
        store.reschedule(100, 9, TODAY),
        Err(LeditError::Store(StoreFault::ForeignKeyViolation))
    );
    assert_eq!(store.remove_todo(5), None);
    assert_eq!(store.todos().len(), 1);
    assert_eq!(store.todos()[0].done_by, None);
    let copy = store.todos()[0].duplicate();
    assert_eq!(store.remove_todo(100), Some(copy));
    assert!(store.todos().is_empty());
}

#[test]
fn a_position_names_the_todo_in_the_list() {
    let mut store = two_members();
    add(&mut store, 100, "b", Some(7), ALICE, TODAY);
    add(&mut store, 101, "a", None, ALICE, TODAY);
    add(&mut store, 102, "c", None, BOB, TODAY);
    assert_eq!(get_todo_at(1, CHAT, &store).map(|t| t.id), Some(101));
    assert_eq!(get_todo_at(2, CHAT, &store).map(|t| t.id), Some(102));
    assert_eq!(get_todo_at(3, CHAT, &store).map(|t| t.id), Some(100));
    assert_eq!(get_todo_at(3, CHAT, &store), Some(store.todos()[0].clone()));
    assert_eq!(get_todo_at(4, CHAT, &store), None);
    assert_eq!(get_todo_at(0, CHAT, &store), None);
    assert_eq!(get_todo_at(-1, CHAT, &store), None);
    assert_eq!(get_todo_at(1, 11, &store), None);
}

#[test]
fn positions_stay_when_a_todo_is_checked() {
    let mut store = two_members();
    add(&mut store, 100, "b", Some(7), ALICE, TODAY);
    add(&mut store, 101, "a", Some(7), ALICE, TODAY);
    add(&mut store, 102, "c", None, BOB, TODAY);
    let before: Vec<u128> = get_sorted_todos(CHAT, &store).iter().map(|t| t.id).collect();
    handle_check_todo(2, &message(CHAT, Some(502)), &mut store).unwrap();
    let after: Vec<u128> = get_sorted_todos(CHAT, &store).iter().map(|t| t.id).collect();
    assert_eq!(before, after);
    assert_eq!(get_todo_at(2, CHAT, &store).unwrap().done_by, Some(BOB));
}

#[test]
fn a_description_has_1_to_64_characters_and_no_control_character() {
    assert!(is_description_ok("a"));
    assert!(is_description_ok("take out trash"));
    assert!(is_description_ok(&"x".repeat(64)));
    assert!(is_description_ok(&"\u{1f600}".repeat(64)));
    assert!(is_description_ok("caf\u{e9}\u{a0}"));
    assert!(!is_description_ok(""));
    assert!(!is_description_ok(&"x".repeat(65)));
    assert!(!is_description_ok("a\tb"));
    assert!(!is_description_ok("a\nb"));
    assert!(!is_description_ok("\u{0}"));
    assert!(!is_description_ok("a\u{1f}"));
    assert!(!is_description_ok("a\u{7f}"));
    assert!(!is_description_ok("a\u{80}"));
    assert!(!is_description_ok("a\u{9f}"));
}

#[test]
fn add_refuses_what_is_no_description() {
    let mut store = two_members();
    for title in ["", "a\tb", "line\nbreak"] {
        let r =
            add_todo_as(title.to_string(), None, &message(CHAT, None), &mut store, 100, ALICE, TODAY);
        assert_eq!(r, Err(LeditError::Store(StoreFault::CheckViolation)));
        let r = handle_add_todo(title.to_string(), None, &message(CHAT, None), &mut store);
        assert_eq!(r, Err(LeditError::Store(StoreFault::CheckViolation)));
    }
    let r = handle_add_todo("x".repeat(65), Some(7), &message(CHAT, None), &mut store);
    assert_eq!(r, Err(LeditError::Store(StoreFault::CheckViolation)));
    assert!(store.todos().is_empty());
    let r = handle_add_todo("x".repeat(64), Some(7), &message(CHAT, None), &mut store);
    assert!(r.is_ok());
    assert_eq!(store.todos().len(), 1);
    let r = handle_add_todo("".to_string(), None, &message(99, None), &mut store);
    assert_eq!(r, Err(LeditError::RndUser));
}

#[test]
fn a_fresh_identity_is_the_drawn_one_where_it_is_free() {
    let mut store = two_members();
    assert_eq!(store.fresh_todo_id(77), 77);
    assert_eq!(store.fresh_member_id(77), 77);
    add(&mut store, 0, "a", None, ALICE, TODAY);
    add(&mut store, 1, "b", None, ALICE, TODAY);
    add(&mut store, 3, "c", None, ALICE, TODAY);
    assert_eq!(store.fresh_todo_id(77), 77);
    assert_eq!(store.fresh_todo_id(0), 2);
    assert_eq!(store.fresh_todo_id(3), 2);
    add(&mut store, 2, "d", None, ALICE, TODAY);
    assert_eq!(store.fresh_todo_id(1), 4);
    assert_eq!(store.fresh_member_id(ALICE), 0);
    assert_eq!(store.fresh_member_id(BOB), 0);
}

#[test]
fn fresh_choice_takes_the_smallest_free_number() {
    assert_eq!(fresh_choice(&vec![], 5), 5);
    assert_eq!(fresh_choice(&vec![5], 5), 0);
    assert_eq!(fresh_choice(&vec![5, 0, 1, 2], 5), 3);
    assert_eq!(fresh_choice(&vec![2, 1, 0], 0), 3);
    assert_eq!(fresh_choice(&vec![u128::MAX, 0], u128::MAX), 1);
    assert_eq!(fresh_choice(&vec![1, 1, 1], 7), 7);
}
