use luckymon::random::{MAX_SPECIES_ID, MIN_SPECIES_ID};
use luckymon::service::LuckyAssignmentService;

#[test]
fn same_day_requests_are_idempotent() {
    let mut service = LuckyAssignmentService::new();
    let first = service.get_or_assign(7, 1000);
    let again = service.get_or_assign(7, 1000);
    assert_eq!(again, first);
}

#[test]
fn repeated_requests_all_observe_first_pair() {
    let mut service = LuckyAssignmentService::new();
    let first = service.get_or_assign(7, 1000);
    for _ in 0..8 {
        assert_eq!(service.get_or_assign(7, 1000), first);
    }
    assert_eq!(service.store.get(7, 1000), Some(first));
}

#[test]
fn new_day_allows_a_new_assignment() {
    let mut service = LuckyAssignmentService::new();
    let day_one = service.get_or_assign(7, 1000);
    let day_two = service.get_or_assign(7, 1001);
    assert_eq!(service.store.get(7, 1000), Some(day_one));
    assert_eq!(service.store.get(7, 1001), Some(day_two));
    assert_eq!(service.get_or_assign(7, 1000), day_one);
    assert_eq!(service.get_or_assign(7, 1001), day_two);
}

#[test]
fn users_are_assigned_independently() {
    let mut service = LuckyAssignmentService::new();
    let a = service.get_or_assign(1, 1000);
    let b = service.get_or_assign(2, 1000);
    assert_eq!(service.get_or_assign(1, 1000), a);
    assert_eq!(service.get_or_assign(2, 1000), b);
}

#[test]
fn assigned_species_is_always_in_range() {
    let mut service = LuckyAssignmentService::new();
    for user in 0..200u64 {
        let a = service.get_or_assign(user, 1000);
        assert!(MIN_SPECIES_ID <= a.species_id && a.species_id <= MAX_SPECIES_ID);
    }
}

#[test]
fn today_assignment_is_in_range() {
    let mut service = LuckyAssignmentService::new();
    let a = service.get_or_assign_today(7);
    assert!(MIN_SPECIES_ID <= a.species_id && a.species_id <= MAX_SPECIES_ID);
}
