//! Capability interface to the backing key-value store.

use vstd::prelude::*;
use crate::item::LinkedItem;

verus! {

/// What a point lookup of the slot `(key, sel)` yields: the stored node, or
/// `None` when the slot is absent.
pub open spec fn slot_get<Key, Value>(
    m: Map<(Key, Option<Value>), LinkedItem<Value>>,
    key: Key,
    sel: Option<Value>,
) -> Option<LinkedItem<Value>> {
    if m.contains_key((key, sel)) {
        Some(m[(key, sel)])
    } else {
        None
    }
}

/// The node held by the slot `(key, sel)`, an absent slot reading as the
/// empty sentinel.
pub open spec fn node_of<Key, Value>(
    m: Map<(Key, Option<Value>), LinkedItem<Value>>,
    key: Key,
    sel: Option<Value>,
) -> LinkedItem<Value> {
    if m.contains_key((key, sel)) {
        m[(key, sel)]
    } else {
        LinkedItem::spec_empty()
    }
}

/// The store that owns every node of every list.
///
/// A slot is addressed by a pair of the grouping key and a selector: `None`
/// for the sentinel head of that key's list, `Some(v)` for the node holding
/// value `v`. The list algorithm is written against this interface alone,
/// so any map offering point lookup, upsert and fetch-and-delete can back
/// it.
pub trait Store<Key, Value>: Sized {
    /// The slots currently held.
    spec fn contents(&self) -> Map<(Key, Option<Value>), LinkedItem<Value>>;

    /// Point lookup of one slot.
    fn get(&self, key: &Key, sel: Option<Value>) -> (r: Option<LinkedItem<Value>>)
        ensures
            r == slot_get(self.contents(), *key, sel),
    ;

    /// Upsert of one slot.
    fn insert(&mut self, key: &Key, sel: Option<Value>, item: LinkedItem<Value>)
        ensures
            final(self).contents() == old(self).contents().insert((*key, sel), item),
    ;

    /// Fetch-and-delete of one slot: returns the stored node, if any, and
    /// leaves the slot absent.
    fn take(&mut self, key: &Key, sel: Option<Value>) -> (r: Option<LinkedItem<Value>>)
        ensures
            r == slot_get(old(self).contents(), *key, sel),
            final(self).contents() == old(self).contents().remove((*key, sel)),
    ;
}

} // verus!
