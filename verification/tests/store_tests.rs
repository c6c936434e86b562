use luckymon::store::{Assignment, DailyAssignmentStore};

#[test]
fn empty_store_has_no_entry() {
    let store = DailyAssignmentStore::new();
    assert_eq!(store.get(1, 100), None);
}

#[test]
fn put_then_get_returns_entry() {
    let mut store = DailyAssignmentStore::new();
    let a = Assignment { species_id: 25, shiny: false };
    store.put(1, 100, a);
    assert_eq!(store.get(1, 100), Some(a));
}

#[test]
fn key_is_exact_on_user_and_day() {
    let mut store = DailyAssignmentStore::new();
    let a = Assignment { species_id: 25, shiny: false };
    store.put(1, 100, a);
    assert_eq!(store.get(1, 101), None);
    assert_eq!(store.get(2, 100), None);
}

#[test]
fn put_overwrites_same_key() {
    let mut store = DailyAssignmentStore::new();
    let a = Assignment { species_id: 25, shiny: false };
    let b = Assignment { species_id: 905, shiny: true };
    store.put(1, 100, a);
    store.put(1, 100, b);
    assert_eq!(store.get(1, 100), Some(b));
}

#[test]
fn entries_are_independent_per_user_and_day() {
    let mut store = DailyAssignmentStore::new();
    let a = Assignment { species_id: 1, shiny: false };
    let b = Assignment { species_id: 2, shiny: true };
    let c = Assignment { species_id: 3, shiny: false };
    store.put(1, 100, a);
    store.put(2, 100, b);
    store.put(1, 101, c);
    assert_eq!(store.get(1, 100), Some(a));
    assert_eq!(store.get(2, 100), Some(b));
    assert_eq!(store.get(1, 101), Some(c));
}
