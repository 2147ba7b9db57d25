use railway::landmark::store::LandmarkStore;

#[test]
fn empty_store_lists_nothing() {
    let store = LandmarkStore::new();
    assert_eq!(store.landmarks_on(&7), Vec::<u64>::new());
}

#[test]
fn indexed_landmark_is_listed_last() {
    let mut store = LandmarkStore::new();
    store.index(7, 100, 5);
    store.index(7, 101, 3);
    store.index(8, 200, 1);
    assert_eq!(store.landmarks_on(&7), vec![100, 101]);
    assert_eq!(store.landmarks_on(&8), vec![200]);
    assert_eq!(store.landmarks_on(&9), Vec::<u64>::new());
}

#[test]
fn sort_orders_by_key_and_keeps_ties() {
    let mut store = LandmarkStore::new();
    store.index(7, 100, 5);
    store.index(7, 101, 3);
    store.index(7, 102, 5);
    store.index(7, 103, -2);
    store.index(8, 200, 9);
    store.index(8, 201, 1);
    store.sort();
    assert_eq!(store.landmarks_on(&7), vec![103, 101, 100, 102]);
    assert_eq!(store.landmarks_on(&8), vec![201, 200]);
}

#[test]
fn sort_twice_changes_nothing() {
    let mut store = LandmarkStore::new();
    store.index(1, 10, 2);
    store.index(1, 11, 1);
    store.sort();
    let once = store.landmarks_on(&1);
    store.sort();
    assert_eq!(store.landmarks_on(&1), once);
}
