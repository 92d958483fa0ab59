use roomtalk::store::{NewMessage, NewUser, Store};

fn seed_room(store: &mut Store, room_id: i32, times: &[u64]) {
    for &t in times {
        store.insert_message(NewMessage {
            time: t,
            username: "u".to_string(),
            message: format!("m{}", t),
            room_id,
            uuid: 1,
            protocol_type: 4,
        });
    }
}

#[test]
fn history_window() {
    let mut store = Store::new();
    let times: Vec<u64> = (1..=100).collect();
    seed_room(&mut store, 5, &times);
    let h = store.get_history(5, 10, 50);
    let got: Vec<u64> = h.iter().map(|m| m.time).collect();
    assert_eq!(got, (40..=49).collect::<Vec<u64>>());
}

#[test]
fn history_future_cutoff_returns_all() {
    let mut store = Store::new();
    seed_room(&mut store, 1, &[10, 20, 30]);
    let h = store.get_history(1, 50, 1_000_000_000_000_000_000);
    let got: Vec<u64> = h.iter().map(|m| m.time).collect();
    assert_eq!(got, vec![10, 20, 30]);
}

#[test]
fn history_non_positive_limit_is_empty() {
    let mut store = Store::new();
    seed_room(&mut store, 1, &[10, 20, 30]);
    assert!(store.get_history(1, 0, 100).is_empty());
    assert!(store.get_history(1, -7, 100).is_empty());
}

#[test]
fn history_zero_cutoff_returns_newest() {
    let mut store = Store::new();
    seed_room(&mut store, 1, &[10, 20, 30]);
    let all = store.get_history(1, 10, 0);
    let got: Vec<u64> = all.iter().map(|m| m.time).collect();
    assert_eq!(got, vec![10, 20, 30]);
    let newest = store.get_history(1, 2, 0);
    let got: Vec<u64> = newest.iter().map(|m| m.time).collect();
    assert_eq!(got, vec![20, 30]);
}

#[test]
fn history_filters_by_room() {
    let mut store = Store::new();
    seed_room(&mut store, 1, &[10]);
    seed_room(&mut store, 2, &[20]);
    let h = store.get_history(2, 10, 100);
    assert_eq!(h.len(), 1);
    assert_eq!(h[0].time, 20);
    assert_eq!(h[0].room_id, 2);
}

#[test]
fn history_unsorted_input_comes_back_sorted() {
    let mut store = Store::new();
    seed_room(&mut store, 3, &[30, 10, 20, 25, 15]);
    let h = store.get_history(3, 3, 100);
    let got: Vec<u64> = h.iter().map(|m| m.time).collect();
    assert_eq!(got, vec![20, 25, 30]);
}

#[test]
fn history_equal_timestamps_keep_insertion_order() {
    let mut store = Store::new();
    for text in ["first", "second", "third"] {
        store.insert_message(NewMessage {
            time: 7,
            username: "u".to_string(),
            message: text.to_string(),
            room_id: 1,
            uuid: 1,
            protocol_type: 4,
        });
    }
    let h = store.get_history(1, 10, 100);
    let got: Vec<&str> = h.iter().map(|m| m.message.as_str()).collect();
    assert_eq!(got, vec!["first", "second", "third"]);
}

#[test]
fn delete_user_is_idempotent() {
    let mut store = Store::new();
    store.insert_user(NewUser { room_id: 1, uuid: 0xabc });
    store.insert_user(NewUser { room_id: 2, uuid: 0xabc });
    store.insert_user(NewUser { room_id: 3, uuid: 0xdef });
    assert_eq!(store.delete_user_by_uuid(0xabc), 2);
    assert_eq!(store.delete_user_by_uuid(0xabc), 0);
    assert_eq!(store.get_users().len(), 1);
    assert_eq!(store.get_users()[0].uuid, 0xdef);
}

#[test]
fn room_of_user_is_most_recent_row() {
    let mut store = Store::new();
    store.insert_user(NewUser { room_id: 1, uuid: 5 });
    store.insert_user(NewUser { room_id: 9, uuid: 5 });
    let rows = store.get_room_id_by_uuid(5);
    assert_eq!(rows.len(), 1);
    assert_eq!(rows[0].room_id, 9);
    assert!(store.get_room_id_by_uuid(6).is_empty());
}

#[test]
fn event_rows_carry_increasing_ids() {
    let mut store = Store::new();
    seed_room(&mut store, 1, &[5, 5, 5]);
    let rows = store.get_messages();
    assert_eq!(rows.len(), 3);
    assert!(rows[0].id < rows[1].id && rows[1].id < rows[2].id);
}
