use ledit::handler::chat_member::register_chat_member_as;
use ledit::handler::todo::{add_todo_as, get_sorted_todos, handle_check_todo, Todo};
use ledit::interval::{
    delete_one_time_todos, interval_actions, is_due, is_stale, re_schedule_todos, sleep_ms,
};
use ledit::message::{Message, Reply, User};
use ledit::store::Store;
use ledit::util::today;

const CHAT: i64 = 10;
const ALICE: u128 = 1;
const BOB: u128 = 2;
const DAY: i32 = 738_000;

fn sender(chat_id: i64, id: i64, name: &str) -> Message {
    Message {
        chat_id,
        from: Some(User { id, first_name: name.to_string(), username: None }),
        text: None,
    }
}

fn chat_of_two() -> Store {
    let mut store = Store::new();
    register_chat_member_as(&sender(CHAT, 501, "Alice"), &mut store, ALICE).unwrap();
    register_chat_member_as(&sender(CHAT, 502, "Bob"), &mut store, BOB).unwrap();
    store
}

fn put(store: &mut Store, id: u128, title: &str, interval: Option<i64>, day: i32, done: bool) {
    add_todo_as(title.to_string(), interval, &sender(CHAT, 501, "Alice"), store, id, ALICE, day)
        .unwrap();
    if done {
        store.set_done_by(id, Some(BOB)).unwrap();
    }
}

fn todo(interval: Option<i64>, scheduled_for: i32, done_by: Option<u128>) -> Todo {
    Todo {
        id: 7,
        chat_id: CHAT,
        description: "t".to_string(),
        interval_days: interval,
        assigned_user: ALICE,
        scheduled_for,
        done_by,
    }
}

#[test]
fn a_recurring_todo_is_due_past_its_interval() {
    let t = todo(Some(7), DAY, Some(BOB));
    assert!(!is_due(&t, DAY));
    assert!(!is_due(&t, DAY + 6));
    assert!(!is_due(&t, DAY + 7));
    assert!(is_due(&t, DAY + 8));
    assert!(is_due(&t, DAY + 100));
}

#[test]
fn an_open_or_one_time_todo_is_never_due() {
    assert!(!is_due(&todo(Some(7), DAY, None), DAY + 100));
    assert!(!is_due(&todo(None, DAY, Some(BOB)), DAY + 100));
    assert!(!is_due(&todo(None, DAY, None), DAY + 100));
}

#[test]
fn is_due_stands_extreme_values() {
    assert!(!is_due(&todo(Some(i64::MAX), i32::MIN, Some(BOB)), i32::MAX));
    assert!(is_due(&todo(Some(i64::MIN), i32::MAX, Some(BOB)), i32::MIN));
    assert!(is_due(&todo(Some(1), i32::MIN, Some(BOB)), i32::MAX));
}

#[test]
fn a_one_time_todo_is_stale_past_its_day_of_grace() {
    let t = todo(None, DAY, Some(BOB));
    assert!(!is_stale(&t, DAY));
    assert!(!is_stale(&t, DAY + 1));
    assert!(is_stale(&t, DAY + 2));
    assert!(!is_stale(&t, i32::MIN));
    assert!(is_stale(&todo(None, i32::MIN, Some(BOB)), i32::MAX));
}

#[test]
fn an_open_or_recurring_todo_is_never_stale() {
    assert!(!is_stale(&todo(None, DAY, None), DAY + 100));
    assert!(!is_stale(&todo(Some(1), DAY, Some(BOB)), DAY + 100));
}

#[test]
fn re_schedule_waits_for_the_interval() {
    let mut store = chat_of_two();
    put(&mut store, 100, "trash", Some(7), DAY, true);
    let before = store.todos().clone();
    for day in [DAY, DAY + 1, DAY + 6, DAY + 7] {
        assert_eq!(re_schedule_todos(&mut store, day), 0);
        assert_eq!(store.todos(), &before);
    }
}

#[test]
fn re_schedule_starts_a_new_cycle() {
    let mut store = chat_of_two();
    put(&mut store, 100, "trash", Some(7), DAY, true);
    assert_eq!(re_schedule_todos(&mut store, DAY + 8), 1);
    let t = &store.todos()[0];
    assert_eq!(t.id, 100);
    assert_eq!(t.description, "trash");
    assert_eq!(t.interval_days, Some(7));
    assert_eq!(t.done_by, None);
    assert_eq!(t.scheduled_for, DAY + 8);
    assert!(t.assigned_user == ALICE || t.assigned_user == BOB);
}

#[test]
fn re_schedule_draws_the_assignee_anew() {
    let mut seen_alice = false;
    let mut seen_bob = false;
    for _ in 0..200 {
        let mut store = chat_of_two();
        put(&mut store, 100, "trash", Some(1), DAY, true);
        re_schedule_todos(&mut store, DAY + 2);
        let who = store.todos()[0].assigned_user;
        assert!(who == ALICE || who == BOB);
        seen_alice = seen_alice || who == ALICE;
        seen_bob = seen_bob || who == BOB;
    }
    assert!(seen_alice && seen_bob);
}

#[test]
fn re_schedule_assigns_inside_the_chat() {
    let mut store = chat_of_two();
    register_chat_member_as(&sender(11, 503, "Carol"), &mut store, 3).unwrap();
    add_todo_as("theirs".to_string(), Some(1), &sender(11, 503, "Carol"), &mut store, 200, 3, DAY)
        .unwrap();
    store.set_done_by(200, Some(3)).unwrap();
    for n in 0..40 {
        assert_eq!(re_schedule_todos(&mut store, DAY + 2 + 2 * n), 1);
        assert_eq!(store.todos()[0].assigned_user, 3);
        store.set_done_by(200, Some(3)).unwrap();
    }
}

#[test]
fn re_schedule_spares_open_and_one_time_todos() {
    let mut store = chat_of_two();
    put(&mut store, 100, "open", Some(1), DAY, false);
    put(&mut store, 101, "once", None, DAY, true);
    put(&mut store, 102, "due", Some(1), DAY, true);
    let before = store.todos().clone();
    assert_eq!(re_schedule_todos(&mut store, DAY + 30), 1);
    assert_eq!(store.todos()[0], before[0]);
    assert_eq!(store.todos()[1], before[1]);
    assert_eq!(store.todos()[2].done_by, None);
    assert_eq!(store.todos()[2].scheduled_for, DAY + 30);
}

#[test]
fn re_schedule_twice_on_a_day_changes_nothing_more() {
    let mut store = chat_of_two();
    put(&mut store, 100, "a", Some(1), DAY, true);
    put(&mut store, 101, "b", Some(2), DAY, true);
    assert_eq!(re_schedule_todos(&mut store, DAY + 5), 2);
    let after = store.todos().clone();
    assert_eq!(re_schedule_todos(&mut store, DAY + 5), 0);
    assert_eq!(store.todos(), &after);
}

#[test]
fn purge_keeps_a_done_todo_for_a_day() {
    let mut store = chat_of_two();
    put(&mut store, 100, "milk", None, DAY, true);
    let before = store.todos().clone();
    assert!(delete_one_time_todos(&mut store, DAY).is_empty());
    assert!(delete_one_time_todos(&mut store, DAY + 1).is_empty());
    assert_eq!(store.todos(), &before);
}

#[test]
fn purge_drops_a_done_todo_after_its_day_of_grace() {
    let mut store = chat_of_two();
    put(&mut store, 100, "milk", None, DAY, true);
    let notices = delete_one_time_todos(&mut store, DAY + 2);
    assert_eq!(
        notices,
        vec![Reply { chat_id: CHAT, text: "🗑 Deleting old & done todo: milk".to_string() }]
    );
    assert!(store.todos().is_empty());
}

#[test]
fn purge_keeps_the_order_of_the_rest() {
    let mut store = chat_of_two();
    put(&mut store, 100, "old a", None, DAY, true);
    put(&mut store, 101, "open", None, DAY, false);
    put(&mut store, 102, "old b", None, DAY - 3, true);
    put(&mut store, 103, "weekly", Some(7), DAY, true);
    put(&mut store, 104, "old c", None, DAY, true);
    put(&mut store, 105, "fresh", None, DAY + 4, true);
    let notices = delete_one_time_todos(&mut store, DAY + 5);
    let texts: Vec<String> = notices.iter().map(|r| r.text.clone()).collect();
    assert_eq!(
        texts,
        vec![
            "🗑 Deleting old & done todo: old a",
            "🗑 Deleting old & done todo: old b",
            "🗑 Deleting old & done todo: old c"
        ]
    );
    let left: Vec<u128> = store.todos().iter().map(|t| t.id).collect();
    assert_eq!(left, vec![101, 103, 105]);
}

#[test]
fn purge_twice_on_a_day_drops_nothing_more() {
    let mut store = chat_of_two();
    put(&mut store, 100, "old", None, DAY, true);
    put(&mut store, 101, "open", None, DAY, false);
    assert_eq!(delete_one_time_todos(&mut store, DAY + 9).len(), 1);
    let after = store.todos().clone();
    assert!(delete_one_time_todos(&mut store, DAY + 9).is_empty());
    assert_eq!(store.todos(), &after);
}

#[test]
fn purge_tells_the_chat_of_the_todo() {
    let mut store = chat_of_two();
    register_chat_member_as(&sender(11, 503, "Carol"), &mut store, 3).unwrap();
    add_todo_as("theirs".to_string(), None, &sender(11, 503, "Carol"), &mut store, 200, 3, DAY)
        .unwrap();
    store.set_done_by(200, Some(3)).unwrap();
    let notices = delete_one_time_todos(&mut store, DAY + 2);
    assert_eq!(notices.len(), 1);
    assert_eq!(notices[0].chat_id, 11);
}

#[test]
fn a_tick_on_an_empty_store_does_nothing() {
    let mut store = Store::new();
    assert!(interval_actions(&mut store).is_empty());
    assert!(store.todos().is_empty());
    assert!(store.members().is_empty());
}

#[test]
fn a_tick_works_on_the_current_day() {
    let now = today();
    let mut store = chat_of_two();
    put(&mut store, 100, "old", None, now - 10, true);
    put(&mut store, 101, "weekly", Some(7), now - 10, true);
    put(&mut store, 102, "recent", None, now, true);
    put(&mut store, 103, "monthly", Some(30), now - 10, true);
    let notices = interval_actions(&mut store);
    assert_eq!(notices.len(), 1);
    assert_eq!(notices[0].text, "🗑 Deleting old & done todo: old");
    let left: Vec<u128> = store.todos().iter().map(|t| t.id).collect();
    assert_eq!(left, vec![101, 102, 103]);
    assert_eq!(store.todos()[0].done_by, None);
    assert!(store.todos()[0].scheduled_for >= now);
    assert_eq!(store.todos()[1].done_by, Some(BOB));
    assert_eq!(store.todos()[2].done_by, Some(BOB));
    assert_eq!(store.todos()[2].scheduled_for, now - 10);
    let after = store.todos().clone();
    assert!(interval_actions(&mut store).is_empty());
    assert_eq!(store.todos(), &after);
}

#[test]
fn today_is_a_day_of_this_era() {
    let now = today();
    assert!(now > 730_000);
    assert!(now < 1_100_000);
    let again = today();
    assert!(again == now || again == now + 1);
}

#[test]
fn trash_comes_back_after_eight_days() {
    let mut store = chat_of_two();
    let alice = sender(CHAT, 501, "Alice");
    let r = ledit::handler::todo::handle_add_todo(
        "take out trash".to_string(),
        Some(7),
        &alice,
        &mut store,
    );
    assert_eq!(r, Ok(Reply { chat_id: CHAT, text: "Added: take out trash".to_string() }));
    let created = store.todos()[0].clone();
    assert_eq!(created.interval_days, Some(7));
    assert_eq!(created.done_by, None);
    assert!(created.assigned_user == ALICE || created.assigned_user == BOB);
    let day = created.scheduled_for;
    assert_eq!(get_sorted_todos(CHAT, &store).len(), 1);

    handle_check_todo(1, &alice, &mut store).unwrap();
    assert_eq!(store.todos()[0].done_by, Some(ALICE));

    assert_eq!(re_schedule_todos(&mut store, day + 7), 0);
    assert_eq!(store.todos()[0].done_by, Some(ALICE));
    assert_eq!(store.todos()[0].scheduled_for, day);

    assert_eq!(re_schedule_todos(&mut store, day + 8), 1);
    let t = &store.todos()[0];
    assert_eq!(t.done_by, None);
    assert_eq!(t.scheduled_for, day + 8);
    assert!(t.assigned_user == ALICE || t.assigned_user == BOB);
    assert_eq!(t.id, created.id);
}

#[test]
fn the_pause_is_the_setting_or_the_default() {
    assert_eq!(sleep_ms(None), 10000);
    assert_eq!(sleep_ms(Some("250".to_string())), 250);
    assert_eq!(sleep_ms(Some("+250".to_string())), 250);
    assert_eq!(sleep_ms(Some("0".to_string())), 0);
    assert_eq!(sleep_ms(Some("".to_string())), 10000);
    assert_eq!(sleep_ms(Some("fast".to_string())), 10000);
    assert_eq!(sleep_ms(Some("-5".to_string())), 10000);
    assert_eq!(sleep_ms(Some("99999999999999999999".to_string())), 10000);
}
