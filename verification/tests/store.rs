use svc_context::Extensions;

#[test]
fn insert_then_get_returns_equal_value() {
    let mut store = Extensions::new();
    assert!(store.insert(7u32).is_none());
    assert_eq!(store.get::<u32>().copied(), Some(7u32));
    assert_eq!(store.remove::<u32>(), Some(7u32));
    assert!(store.get::<u32>().is_none());
}

#[test]
fn every_registered_type_round_trips() {
    let mut store = Extensions::new();
    store.insert(7u32);
    store.insert(100u64);
    store.insert(-3i64);
    store.insert(true);
    store.insert(String::from("alpha"));
    assert_eq!(store.get::<u32>().copied(), Some(7u32));
    assert_eq!(store.get::<u64>().copied(), Some(100u64));
    assert_eq!(store.get::<i64>().copied(), Some(-3i64));
    assert_eq!(store.get::<bool>().copied(), Some(true));
    assert_eq!(store.get::<String>().cloned(), Some(String::from("alpha")));
}

#[test]
fn distinct_types_do_not_interfere() {
    let mut store = Extensions::new();
    store.insert(7u32);
    store.insert(String::from("alpha"));
    store.insert(100u64);
    store.insert(9u32);
    assert_eq!(store.get::<String>().cloned(), Some(String::from("alpha")));
    assert_eq!(store.get::<u64>().copied(), Some(100u64));
    store.remove::<u64>();
    assert_eq!(store.get::<u32>().copied(), Some(9u32));
    assert_eq!(store.get::<String>().cloned(), Some(String::from("alpha")));
    assert!(store.get::<bool>().is_none());
    assert!(store.get::<i64>().is_none());
}

#[test]
fn second_insert_returns_first_and_keeps_second() {
    let mut store = Extensions::new();
    assert!(store.insert(String::from("first")).is_none());
    let prior = store.insert(String::from("second"));
    assert_eq!(prior, Some(String::from("first")));
    assert_eq!(store.get::<String>().cloned(), Some(String::from("second")));
    assert_eq!(store.remove::<String>(), Some(String::from("second")));
    assert!(store.get::<String>().is_none());
}

#[test]
fn remove_on_absent_type_returns_none() {
    let mut store = Extensions::new();
    assert!(store.remove::<u32>().is_none());
    store.insert(true);
    assert!(store.remove::<String>().is_none());
    assert_eq!(store.get::<bool>().copied(), Some(true));
}

#[test]
fn get_mut_writes_are_visible() {
    let mut store = Extensions::new();
    store.insert(1u64);
    assert!(store.get_mut::<u32>().is_none());
    if let Some(x) = store.get_mut::<u64>() {
        assert_eq!(*x, 1u64);
        *x = 5;
    } else {
        panic!("entry for u64 is missing");
    }
    assert_eq!(store.get::<u64>().copied(), Some(5u64));
}

#[test]
fn clone_observes_same_entries_then_diverges() {
    let mut a = Extensions::new();
    a.insert(String::from("seed"));
    a.insert(4u32);
    let mut b = a.clone();
    assert_eq!(b.get::<String>().cloned(), Some(String::from("seed")));
    assert_eq!(b.get::<u32>().copied(), Some(4u32));
    b.insert(77u64);
    assert!(a.get::<u64>().is_none());
    b.remove::<String>();
    assert_eq!(a.get::<String>().cloned(), Some(String::from("seed")));
    assert!(b.get::<String>().is_none());
}

#[test]
fn mutation_through_clone_copies_privately() {
    let mut a = Extensions::new();
    a.insert(String::from("seed"));
    let mut c = a.clone();
    if let Some(s) = c.get_mut::<String>() {
        s.push_str("-grown");
    } else {
        panic!("entry for String is missing");
    }
    assert_eq!(a.get::<String>().cloned(), Some(String::from("seed")));
    assert_eq!(c.get::<String>().cloned(), Some(String::from("seed-grown")));
}
