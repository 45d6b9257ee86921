use hotdog::service::{list_dogs, pairs_from_records, save_dog, ServiceError, LIST_LIMIT};
use hotdog::store::{Record, Store, StoreError};

fn memory_store() -> Store {
    Store::open(":memory:").unwrap()
}

#[test]
fn fresh_store_lists_nothing() {
    let store = memory_store();
    assert_eq!(list_dogs(&store).unwrap(), Vec::new());
}

#[test]
fn two_saves_listed_newest_first() {
    let mut store = memory_store();
    save_dog(&mut store, "http://a/1.jpg".to_string()).unwrap();
    save_dog(&mut store, "http://a/2.jpg".to_string()).unwrap();
    assert_eq!(
        list_dogs(&store).unwrap(),
        vec![(2, "http://a/2.jpg".to_string()), (1, "http://a/1.jpg".to_string())]
    );
}

#[test]
fn list_holds_at_most_ten() {
    let mut store = memory_store();
    for k in 0..15 {
        save_dog(&mut store, format!("http://a/{}.jpg", k)).unwrap();
    }
    let got = list_dogs(&store).unwrap();
    assert_eq!(LIST_LIMIT, 10);
    assert_eq!(got.len(), 10);
    let expected: Vec<(usize, String)> =
        (6..=15).rev().map(|id| (id, format!("http://a/{}.jpg", id - 1))).collect();
    assert_eq!(got, expected);
}

#[test]
fn save_empty_url_rejected() {
    let mut store = memory_store();
    assert_eq!(
        save_dog(&mut store, String::new()),
        Err(ServiceError::Backend(StoreError::EmptyUrl))
    );
    assert_eq!(list_dogs(&store).unwrap(), Vec::new());
}

#[test]
fn same_url_saved_twice_gives_two_records() {
    let mut store = memory_store();
    save_dog(&mut store, "http://a/1.jpg".to_string()).unwrap();
    save_dog(&mut store, "http://a/1.jpg".to_string()).unwrap();
    let got = list_dogs(&store).unwrap();
    assert_eq!(got.len(), 2);
    assert_ne!(got[0].0, got[1].0);
}

#[test]
fn two_distinct_saves_each_listed_once() {
    let mut store = memory_store();
    save_dog(&mut store, "http://a/x.jpg".to_string()).unwrap();
    save_dog(&mut store, "http://a/y.jpg".to_string()).unwrap();
    let got = list_dogs(&store).unwrap();
    assert_eq!(got.iter().filter(|p| p.1 == "http://a/x.jpg").count(), 1);
    assert_eq!(got.iter().filter(|p| p.1 == "http://a/y.jpg").count(), 1);
    assert_ne!(got[0].0, got[1].0);
}

#[test]
fn pairs_from_records_keeps_order() {
    let records = vec![
        Record { id: 5, url: "e".to_string() },
        Record { id: 2, url: "b".to_string() },
    ];
    assert_eq!(
        pairs_from_records(&records),
        vec![(5, "e".to_string()), (2, "b".to_string())]
    );
    assert_eq!(pairs_from_records(&Vec::new()), Vec::new());
}
