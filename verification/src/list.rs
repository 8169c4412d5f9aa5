//! The linked-list algorithm: pointer rewiring over the backing store.

use vstd::prelude::*;
use core::marker::PhantomData;
use crate::item::LinkedItem;
use crate::store::{Store, node_of};

verus! {

/// A doubly-linked list of `Value`s per grouping `Key`, all of whose nodes
/// live in `Storage`. The type holds no data of its own: it only names the
/// access pattern, and every operation takes the store it acts on.
pub struct LinkedList<Storage, Key, Value>(PhantomData<(Storage, Key, Value)>);

/// The store after appending `value` as the new tail of `key`'s list.
///
/// Three writes, in order: the head records `value` as the new tail while
/// keeping its front pointer; the slot of the old tail (the head itself
/// when the list was empty) gets `value` as its successor; `value`'s own
/// slot is created with the old tail as predecessor and no successor.
pub open spec fn spec_append<Key, Value>(
    m: Map<(Key, Option<Value>), LinkedItem<Value>>,
    key: Key,
    value: Value,
) -> Map<(Key, Option<Value>), LinkedItem<Value>> {
    let head = node_of(m, key, None);
    let m1 = m.insert((key, None), LinkedItem { prev: Some(value), next: head.next });
    let prev = node_of(m1, key, head.prev);
    let m2 = m1.insert((key, head.prev), LinkedItem { prev: prev.prev, next: Some(value) });
    m2.insert((key, Some(value)), LinkedItem { prev: head.prev, next: None })
}

/// The store after removing `value` from `key`'s list.
///
/// If `value`'s slot is absent nothing changes. Otherwise the slot is
/// deleted and its two neighbours (the head standing in for an absent
/// neighbour) are rewired to point past it.
pub open spec fn spec_remove<Key, Value>(
    m: Map<(Key, Option<Value>), LinkedItem<Value>>,
    key: Key,
    value: Value,
) -> Map<(Key, Option<Value>), LinkedItem<Value>> {
    if !m.contains_key((key, Some(value))) {
        m
    } else {
        let item = m[(key, Some(value))];
        let m1 = m.remove((key, Some(value)));
        let prev = node_of(m1, key, item.prev);
        let m2 = m1.insert((key, item.prev), LinkedItem { prev: prev.prev, next: item.next });
        let next = node_of(m2, key, item.next);
        m2.insert((key, item.next), LinkedItem { prev: item.prev, next: next.next })
    }
}

/// The pair a bounded forward traversal yields: the cursor to resume from
/// and the values visited, in list order.
///
/// Starting at the slot addressed by `from` (`None` for the head), each
/// step follows the slot's `next` pointer and collects the value it names,
/// until `limit` values are collected, a slot is absent, or a `next` is
/// `None`. The cursor is the last value collected, or `from` itself when
/// nothing was.
pub open spec fn spec_collect<Key, Value>(
    m: Map<(Key, Option<Value>), LinkedItem<Value>>,
    key: Key,
    from: Option<Value>,
    limit: nat,
) -> (Option<Value>, Seq<Value>)
    decreases limit,
{
    if limit == 0 {
        (from, Seq::empty())
    } else if m.contains_key((key, from)) && m[(key, from)].next is Some {
        let id = m[(key, from)].next->0;
        let rest = spec_collect(m, key, Some(id), (limit - 1) as nat);
        (rest.0, seq![id] + rest.1)
    } else {
        (from, Seq::empty())
    }
}

impl<Storage, Key, Value> LinkedList<Storage, Key, Value> where
    Storage: Store<Key, Value>,
    Value: Copy,
{
    /// Reads the sentinel head of `key`'s list.
    fn read_head(store: &Storage, key: &Key) -> (r: LinkedItem<Value>)
        ensures
            r == node_of(store.contents(), *key, None::<Value>),
    {
        Self::read(store, key, None)
    }

    /// Writes the sentinel head of `key`'s list.
    fn write_head(store: &mut Storage, key: &Key, item: LinkedItem<Value>)
        ensures
            final(store).contents() == old(store).contents().insert(
                (*key, None::<Value>),
                item,
            ),
    {
        Self::write(store, key, None, item);
    }

    /// Reads one slot, an absent slot reading as the empty sentinel.
    fn read(store: &Storage, key: &Key, sel: Option<Value>) -> (r: LinkedItem<Value>)
        ensures
            r == node_of(store.contents(), *key, sel),
    {
        match store.get(key, sel) {
            Some(item) => item,
            None => LinkedItem { prev: None, next: None },
        }
    }

    /// Writes one slot.
    fn write(store: &mut Storage, key: &Key, sel: Option<Value>, item: LinkedItem<Value>)
        ensures
            final(store).contents() == old(store).contents().insert((*key, sel), item),
    {
        store.insert(key, sel, item);
    }

    /// Appends `value` as the new tail of `key`'s list.
    ///
    /// The caller must not append a value already present under the same
    /// key: the slot of `value` would be overwritten and the chain
    /// corrupted. The store is changed exactly as `spec_append` says, in
    /// two reads and three writes.
    pub fn append(store: &mut Storage, key: &Key, value: Value)
        ensures
            final(store).contents() == spec_append(old(store).contents(), *key, value),
    {
        let head = Self::read_head(store, key);
        let new_head = LinkedItem { prev: Some(value), next: head.next };

        Self::write_head(store, key, new_head);

        let prev = Self::read(store, key, head.prev);
        let new_prev = LinkedItem { prev: prev.prev, next: Some(value) };
        Self::write(store, key, head.prev, new_prev);

        let item = LinkedItem { prev: head.prev, next: None };
        Self::write(store, key, Some(value), item);
    }

    /// Removes `value` from `key`'s list, a no-op when it is absent.
    ///
    /// The store is changed exactly as `spec_remove` says: at most one
    /// delete, two reads and two writes.
    pub fn remove(store: &mut Storage, key: &Key, value: Value)
        ensures
            final(store).contents() == spec_remove(old(store).contents(), *key, value),
    {
        if let Some(item) = store.take(key, Some(value)) {
            let prev = Self::read(store, key, item.prev);
            let new_prev = LinkedItem { prev: prev.prev, next: item.next };

            Self::write(store, key, item.prev, new_prev);

            let next = Self::read(store, key, item.next);
            let new_next = LinkedItem { prev: item.prev, next: next.next };

            Self::write(store, key, item.next, new_next);
        }
    }

    /// Walks `key`'s list forward from the cursor `from` (`None` to start
    /// at the front), collecting at most `limit` values.
    ///
    /// Returns the values visited, in list order, and the cursor to resume
    /// from, exactly as `spec_collect` says. The store is only read.
    pub fn collect(store: &Storage, key: &Key, from: Option<Value>, limit: usize) -> (r: (
        Option<Value>,
        Vec<Value>,
    ))
        ensures
            r.0 == spec_collect(store.contents(), *key, from, limit as nat).0,
            r.1@ == spec_collect(store.contents(), *key, from, limit as nat).1,
    {
        let ghost m = store.contents();
        let ghost k = *key;
        let mut cursor = from;
        let mut remaining: usize = limit;
        let mut vec: Vec<Value> = Vec::new();
        while remaining > 0
            invariant
                remaining <= limit,
                spec_collect(m, k, from, limit as nat).0 == spec_collect(
                    m,
                    k,
                    cursor,
                    remaining as nat,
                ).0,
                spec_collect(m, k, from, limit as nat).1 == vec@ + spec_collect(
                    m,
                    k,
                    cursor,
                    remaining as nat,
                ).1,
                store.contents() == m,
                *key == k,
            ensures
                spec_collect(m, k, from, limit as nat).0 == cursor,
                spec_collect(m, k, from, limit as nat).1 == vec@,
            decreases remaining,
        {
            let step = store.get(key, cursor);
            match step {
                Some(item) => match item.next {
                    Some(id) => {
                        proof {
                            assert(spec_collect(m, k, cursor, remaining as nat).1 == seq![id]
                                + spec_collect(m, k, Some(id), (remaining - 1) as nat).1);
                            assert(vec@ + spec_collect(m, k, cursor, remaining as nat).1 =~= (
                            vec@.push(id)) + spec_collect(m, k, Some(id), (remaining - 1) as nat).1);
                        }
                        remaining = remaining - 1;
                        vec.push(id);
                        cursor = Some(id);
                    },
                    None => {
                        proof {
                            assert(vec@ + spec_collect(m, k, cursor, remaining as nat).1 =~= vec@);
                        }
                        break ;
                    },
                },
                None => {
                    proof {
                        assert(vec@ + spec_collect(m, k, cursor, remaining as nat).1 =~= vec@);
                    }
                    break ;
                },
            }
        }
        (cursor, vec)
    }
}

} // verus!
