use linked_item::item::LinkedItem;
use linked_item::list::LinkedList;
use linked_item::mem_store::MemStore;
use linked_item::store::Store;

type List = LinkedList<MemStore, u64, u64>;

const K: u64 = 7;

fn append_all(store: &mut MemStore, key: u64, values: &[u64]) {
    for &v in values {
        List::append(store, &key, v);
    }
}

#[test]
fn empty_list_collect() {
    let store = MemStore::new();
    for limit in [0usize, 1, 10, 1000] {
        let (cursor, values) = List::collect(&store, &K, None, limit);
        assert_eq!(cursor, None);
        assert_eq!(values, Vec::<u64>::new());
    }
}

#[test]
fn order_preservation() {
    let mut store = MemStore::new();
    append_all(&mut store, K, &[1, 2, 3]);
    let (cursor, values) = List::collect(&store, &K, None, 10);
    assert_eq!(cursor, Some(3));
    assert_eq!(values, vec![1, 2, 3]);
}

#[test]
fn bounded_traversal_resumes() {
    let mut store = MemStore::new();
    append_all(&mut store, K, &[1, 2, 3]);
    let (cursor, values) = List::collect(&store, &K, None, 2);
    assert_eq!(cursor, Some(2));
    assert_eq!(values, vec![1, 2]);
    let (cursor, values) = List::collect(&store, &K, Some(2), 10);
    assert_eq!(cursor, Some(3));
    assert_eq!(values, vec![3]);
}

#[test]
fn collect_with_zero_limit_keeps_cursor() {
    let mut store = MemStore::new();
    append_all(&mut store, K, &[1, 2]);
    assert_eq!(List::collect(&store, &K, None, 0), (None, vec![]));
    assert_eq!(List::collect(&store, &K, Some(1), 0), (Some(1), vec![]));
}

#[test]
fn collect_past_the_tail_keeps_cursor() {
    let mut store = MemStore::new();
    append_all(&mut store, K, &[1, 2]);
    assert_eq!(List::collect(&store, &K, Some(2), 10), (Some(2), vec![]));
}

#[test]
fn removal_relinks_neighbors() {
    let mut store = MemStore::new();
    append_all(&mut store, K, &[1, 2, 3]);
    List::remove(&mut store, &K, 2);
    let (cursor, values) = List::collect(&store, &K, None, 10);
    assert_eq!(cursor, Some(3));
    assert_eq!(values, vec![1, 3]);
}

#[test]
fn front_removal_promotes_next() {
    let mut store = MemStore::new();
    append_all(&mut store, K, &[1, 2]);
    List::remove(&mut store, &K, 1);
    let (cursor, values) = List::collect(&store, &K, None, 10);
    assert_eq!(cursor, Some(2));
    assert_eq!(values, vec![2]);
}

#[test]
fn tail_removal_updates_tail_pointer() {
    let mut store = MemStore::new();
    append_all(&mut store, K, &[1, 2]);
    List::remove(&mut store, &K, 2);
    List::append(&mut store, &K, 3);
    let (cursor, values) = List::collect(&store, &K, None, 10);
    assert_eq!(cursor, Some(3));
    assert_eq!(values, vec![1, 3]);
}

#[test]
fn idempotent_remove() {
    let mut store = MemStore::new();
    append_all(&mut store, K, &[1, 2]);
    List::remove(&mut store, &K, 9);
    assert_eq!(List::collect(&store, &K, None, 10), (Some(2), vec![1, 2]));
    List::remove(&mut store, &K, 2);
    List::remove(&mut store, &K, 2);
    assert_eq!(List::collect(&store, &K, None, 10), (Some(1), vec![1]));
}

#[test]
fn remove_on_untouched_key_is_noop() {
    let mut store = MemStore::new();
    List::remove(&mut store, &K, 1);
    assert_eq!(store.get(&K, None), None);
    assert_eq!(store.get(&K, Some(1)), None);
    assert_eq!(List::collect(&store, &K, None, 10), (None, vec![]));
}

#[test]
fn append_remove_inverse() {
    let mut store = MemStore::new();
    append_all(&mut store, K, &[1, 2]);
    let head_before = store.get(&K, None);
    let node1_before = store.get(&K, Some(1));
    let node2_before = store.get(&K, Some(2));
    List::append(&mut store, &K, 9);
    List::remove(&mut store, &K, 9);
    assert_eq!(store.get(&K, None), head_before);
    assert_eq!(store.get(&K, Some(1)), node1_before);
    assert_eq!(store.get(&K, Some(2)), node2_before);
    assert_eq!(store.get(&K, Some(9)), None);
    assert_eq!(List::collect(&store, &K, None, 10), (Some(2), vec![1, 2]));
}

#[test]
fn removing_last_value_resets_head() {
    let mut store = MemStore::new();
    List::append(&mut store, &K, 5);
    List::remove(&mut store, &K, 5);
    assert_eq!(
        store.get(&K, None),
        Some(LinkedItem { prev: None, next: None })
    );
    assert_eq!(store.get(&K, Some(5)), None);
    assert_eq!(List::collect(&store, &K, None, 10), (None, vec![]));
}

#[test]
fn keys_are_independent() {
    let mut store = MemStore::new();
    append_all(&mut store, 1, &[10, 11]);
    append_all(&mut store, 2, &[20]);
    assert_eq!(List::collect(&store, &1, None, 10), (Some(11), vec![10, 11]));
    assert_eq!(List::collect(&store, &2, None, 10), (Some(20), vec![20]));
    List::remove(&mut store, &1, 10);
    assert_eq!(List::collect(&store, &1, None, 10), (Some(11), vec![11]));
    assert_eq!(List::collect(&store, &2, None, 10), (Some(20), vec![20]));
}

#[test]
fn interleaved_operations_paginate() {
    let mut store = MemStore::new();
    append_all(&mut store, K, &[1, 2, 3, 4, 5]);
    List::remove(&mut store, &K, 3);
    List::remove(&mut store, &K, 1);
    List::append(&mut store, &K, 6);
    // The list is now [2, 4, 5, 6]; walk it two values at a time.
    let (cursor, page) = List::collect(&store, &K, None, 2);
    assert_eq!((cursor, page), (Some(4), vec![2, 4]));
    let (cursor, page) = List::collect(&store, &K, cursor, 2);
    assert_eq!((cursor, page), (Some(6), vec![5, 6]));
    let (cursor, page) = List::collect(&store, &K, cursor, 2);
    assert_eq!((cursor, page), (Some(6), vec![]));
}

#[test]
fn head_slot_layout_after_appends() {
    let mut store = MemStore::new();
    append_all(&mut store, K, &[1, 2]);
    // The head's `prev` is the tail, its `next` the front.
    assert_eq!(
        store.get(&K, None),
        Some(LinkedItem {
            prev: Some(2),
            next: Some(1)
        })
    );
    assert_eq!(
        store.get(&K, Some(1)),
        Some(LinkedItem {
            prev: None,
            next: Some(2)
        })
    );
    assert_eq!(
        store.get(&K, Some(2)),
        Some(LinkedItem {
            prev: Some(1),
            next: None
        })
    );
}
