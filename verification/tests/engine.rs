use backend::TodoStore;

#[test]
fn save_then_list_contains_exactly_one() {
    let mut store = TodoStore::new();
    let id = store.save("Test".to_string(), 5, false);
    assert_eq!(id, 1);
    let listed = store.list();
    assert_eq!(listed.len(), 1);
    assert_eq!(listed[0].id, 1);
    assert_eq!(listed[0].title, "Test");
    assert_eq!(listed[0].priority, 5);
    assert!(!listed[0].completed);
}

#[test]
fn list_orders_by_priority_then_insertion() {
    let mut store = TodoStore::new();
    let first = store.save("first".to_string(), 5, false);
    let second = store.save("second".to_string(), 1, false);
    let third = store.save("third".to_string(), 5, false);
    let listed = store.list();
    assert_eq!(listed.len(), 3);
    assert_eq!(listed[0].id, first);
    assert_eq!(listed[1].id, third);
    assert_eq!(listed[2].id, second);
}

#[test]
fn list_on_empty_store_is_empty() {
    let store = TodoStore::new();
    assert!(store.list().is_empty());
}

#[test]
fn toggle_completion_flips_and_twice_restores() {
    let mut store = TodoStore::new();
    let id = store.save("Test".to_string(), 0, false);
    store.toggle_completion(id);
    assert!(store.list()[0].completed);
    store.toggle_completion(id);
    assert!(!store.list()[0].completed);
}

#[test]
fn toggle_on_missing_id_is_silent_noop() {
    let mut store = TodoStore::new();
    store.save("Test".to_string(), 0, false);
    let confirmed = store.toggle_completion(99);
    assert_eq!(confirmed, 99);
    let listed = store.list();
    assert_eq!(listed.len(), 1);
    assert!(!listed[0].completed);
}

#[test]
fn priority_steps_up_and_down() {
    let mut store = TodoStore::new();
    let id = store.save("Test Priority".to_string(), 7, false);
    store.increase_priority(id);
    assert_eq!(store.list()[0].priority, 8);
    store.decrease_priority(id);
    assert_eq!(store.list()[0].priority, 7);
}

#[test]
fn priority_has_no_floor() {
    let mut store = TodoStore::new();
    let id = store.save("Low".to_string(), 0, false);
    store.decrease_priority(id);
    assert_eq!(store.list()[0].priority, -1);
}

#[test]
fn priority_round_trip_at_machine_edge() {
    let mut store = TodoStore::new();
    let id = store.save("Edge".to_string(), i64::MAX, false);
    store.increase_priority(id);
    assert_eq!(store.list()[0].priority, i64::MIN);
    store.decrease_priority(id);
    assert_eq!(store.list()[0].priority, i64::MAX);
}

#[test]
fn rename_changes_title_and_nothing_else() {
    let mut store = TodoStore::new();
    let id = store.save("Old Title".to_string(), 3, false);
    let confirmed = store.rename(id, "New Title".to_string());
    assert_eq!(confirmed, id);
    let listed = store.list();
    assert_eq!(listed[0].title, "New Title");
    assert_eq!(listed[0].priority, 3);
    assert!(!listed[0].completed);
}

#[test]
fn rename_on_missing_id_is_silent_noop() {
    let mut store = TodoStore::new();
    store.save("Old Title".to_string(), 0, false);
    store.rename(42, "New Title".to_string());
    assert_eq!(store.list()[0].title, "Old Title");
}

#[test]
fn delete_existing_removes_and_reports_one_row() {
    let mut store = TodoStore::new();
    let id = store.save("Test Delete".to_string(), 0, false);
    let rows = store.delete(id);
    assert_eq!(rows, 1);
    assert!(store.list().is_empty());
}

#[test]
fn delete_missing_reports_zero_rows_without_error() {
    let mut store = TodoStore::new();
    store.save("Test Delete".to_string(), 0, false);
    let rows = store.delete(7);
    assert_eq!(rows, 0);
    assert_eq!(store.list().len(), 1);
}

#[test]
fn ids_are_never_reused() {
    let mut store = TodoStore::new();
    let first = store.save("one".to_string(), 0, false);
    store.delete(first);
    let second = store.save("two".to_string(), 0, false);
    assert_ne!(first, second);
    assert_eq!(second, 2);
}

#[test]
fn archive_completed_migrates_exactly_the_completed() {
    let mut store = TodoStore::new();
    let done = store.save("Completed Todo".to_string(), 2, false);
    store.save("Incomplete Todo".to_string(), 1, false);
    store.toggle_completion(done);
    let count = store.archive_completed();
    assert_eq!(count, 1);
    let active = store.list();
    assert_eq!(active.len(), 1);
    assert_eq!(active[0].title, "Incomplete Todo");
    let archived = store.list_archived();
    assert_eq!(archived.len(), 1);
    assert_eq!(archived[0].title, "Completed Todo");
    assert_eq!(archived[0].priority, 2);
    assert!(archived[0].completed);
}

#[test]
fn archive_completed_again_migrates_nothing() {
    let mut store = TodoStore::new();
    let done = store.save("Completed Todo".to_string(), 2, false);
    store.save("Incomplete Todo".to_string(), 1, false);
    store.toggle_completion(done);
    store.archive_completed();
    let count = store.archive_completed();
    assert_eq!(count, 0);
    assert_eq!(store.list().len(), 1);
    assert_eq!(store.list_archived().len(), 1);
}

#[test]
fn archive_ids_come_from_their_own_sequence() {
    let mut store = TodoStore::new();
    store.save("a".to_string(), 0, true);
    store.save("b".to_string(), 0, true);
    store.save("c".to_string(), 0, true);
    store.delete(1);
    let count = store.archive_completed();
    assert_eq!(count, 2);
    let archived = store.list_archived();
    let mut ids: Vec<u64> = archived.iter().map(|a| a.id).collect();
    ids.sort();
    assert_eq!(ids, vec![1, 2]);
}

#[test]
fn list_archived_most_recently_archived_first() {
    let mut store = TodoStore::new();
    store.save("earlier".to_string(), 0, true);
    store.archive_completed();
    store.save("later".to_string(), 0, true);
    store.archive_completed();
    let archived = store.list_archived();
    assert_eq!(archived.len(), 2);
    assert_eq!(archived[0].title, "later");
    assert_eq!(archived[1].title, "earlier");
    assert!(archived[0].archived_at > archived[1].archived_at);
}

#[test]
fn clear_all_empties_active_but_not_archive() {
    let mut store = TodoStore::new();
    store.save("kept in archive".to_string(), 0, true);
    store.archive_completed();
    store.save("Test Truncate".to_string(), 0, false);
    store.save("another".to_string(), 4, false);
    store.clear_all();
    assert!(store.list().is_empty());
    let archived = store.list_archived();
    assert_eq!(archived.len(), 1);
    assert_eq!(archived[0].title, "kept in archive");
}

#[test]
fn initialize_resets_both_tables_and_id_sequences() {
    let mut store = TodoStore::new();
    store.save("a".to_string(), 0, true);
    store.archive_completed();
    store.save("b".to_string(), 0, false);
    store.initialize();
    assert!(store.list().is_empty());
    assert!(store.list_archived().is_empty());
    let id = store.save("fresh".to_string(), 0, false);
    assert_eq!(id, 1);
}

#[test]
fn saved_completed_flag_is_kept() {
    let mut store = TodoStore::new();
    store.save("done on arrival".to_string(), 0, true);
    assert!(store.list()[0].completed);
}
