use keyboard_recorder::db::{fetch_records, insert_keys_to_db, open_database};
use keyboard_recorder::key::ComboSnapshot;
use std::sync::{Arc, Mutex};

#[test]
fn two_holders_of_the_store_count_one_combo_twice() {
    let conn = Arc::new(Mutex::new(open_database(":memory:").unwrap()));
    for order in [["A", "B"], ["B", "A"]] {
        let holder = Arc::clone(&conn);
        let tokens: Vec<String> = order.iter().map(|n| n.to_string()).collect();
        let snapshot = ComboSnapshot::from_tokens(&tokens).unwrap();
        let guard = holder.lock().unwrap();
        insert_keys_to_db(&guard, &snapshot).unwrap();
    }
    let guard = conn.lock().unwrap();
    let rows = fetch_records(&guard, None).unwrap();
    assert_eq!(rows.len(), 1);
    assert_eq!(rows[0].keys, "A+B");
    assert_eq!(rows[0].press_times, 2);
}
