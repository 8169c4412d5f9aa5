//! An in-memory backing store, for hosts that keep their slots in process
//! memory and for exercising the list end to end.

use vstd::prelude::*;
use crate::item::LinkedItem;
use crate::store::Store;

verus! {

/// One slot held by the store: its address and the node it stores.
struct Slot {
    key: u64,
    sel: Option<u64>,
    item: LinkedItem<u64>,
}

impl Slot {
    /// The address this slot answers to.
    spec fn addr(self) -> (u64, Option<u64>) {
        (self.key, self.sel)
    }
}

/// The map a sequence of slots denotes, later slots overriding earlier
/// ones at the same address.
spec fn slots_map(s: Seq<Slot>) -> Map<(u64, Option<u64>), LinkedItem<u64>>
    decreases s.len(),
{
    if s.len() == 0 {
        Map::empty()
    } else {
        slots_map(s.drop_last()).insert(s.last().addr(), s.last().item)
    }
}

/// No two slots share an address.
spec fn distinct_addrs(s: Seq<Slot>) -> bool {
    forall|i: int, j: int|
        0 <= i < j < s.len() ==> (#[trigger] s[i].addr()) != (#[trigger] s[j].addr())
}

/// With distinct addresses, each slot is what the denoted map holds at
/// its address.
proof fn lemma_slots_map_index(s: Seq<Slot>, i: int)
    requires
        distinct_addrs(s),
        0 <= i < s.len(),
    ensures
        slots_map(s).contains_key(s[i].addr()),
        slots_map(s)[s[i].addr()] == s[i].item,
    decreases s.len(),
{
    if i < s.len() - 1 {
        lemma_slots_map_index(s.drop_last(), i);
    }
}

/// Every address of the denoted map comes from some slot.
proof fn lemma_slots_map_dom(s: Seq<Slot>, p: (u64, Option<u64>))
    requires
        slots_map(s).contains_key(p),
    ensures
        exists|i: int| 0 <= i < s.len() && (#[trigger] s[i].addr()) == p,
    decreases s.len(),
{
    if s.len() > 0 {
        if s.last().addr() == p {
            assert(s[s.len() - 1].addr() == p);
        } else {
            lemma_slots_map_dom(s.drop_last(), p);
            let i = choose|i: int| 0 <= i < s.len() - 1 && (#[trigger] s.drop_last()[i].addr())
                == p;
            assert(s[i].addr() == p);
        }
    }
}

/// With distinct addresses, dropping the slot at `i` drops exactly its
/// address from the denoted map.
proof fn lemma_slots_map_remove(s: Seq<Slot>, i: int)
    requires
        distinct_addrs(s),
        0 <= i < s.len(),
    ensures
        slots_map(s.remove(i)) == slots_map(s).remove(s[i].addr()),
    decreases s.len(),
{
    let p = s[i].addr();
    if i == s.len() - 1 {
        assert(s.remove(i) =~= s.drop_last());
        if slots_map(s.drop_last()).contains_key(p) {
            lemma_slots_map_dom(s.drop_last(), p);
        }
        assert(slots_map(s.drop_last()) =~= slots_map(s.drop_last()).insert(
            p,
            s.last().item,
        ).remove(p));
    } else {
        assert(s.remove(i).drop_last() =~= s.drop_last().remove(i));
        assert(s.remove(i).last() == s.last());
        lemma_slots_map_remove(s.drop_last(), i);
        assert(slots_map(s.drop_last()).remove(p).insert(s.last().addr(), s.last().item)
            =~= slots_map(s.drop_last()).insert(s.last().addr(), s.last().item).remove(p));
    }
}

/// An in-memory `Store` keyed by `u64` grouping keys and `u64` values,
/// holding its slots in a vector with one slot per address.
pub struct MemStore {
    slots: Vec<Slot>,
}

impl MemStore {
    #[verifier::type_invariant]
    spec fn wf(self) -> bool {
        distinct_addrs(self.slots@)
    }

    /// A store with no slots at all.
    pub fn new() -> (r: MemStore)
        ensures
            r.contents() == Map::<(u64, Option<u64>), LinkedItem<u64>>::empty(),
    {
        MemStore { slots: Vec::new() }
    }

    /// The index of the slot at `(key, sel)`, if one is held.
    fn find(&self, key: u64, sel: Option<u64>) -> (r: Option<usize>)
        ensures
            match r {
                Some(i) => i < self.slots@.len() && self.slots@[i as int].addr() == (key, sel),
                None => forall|i: int|
                    0 <= i < self.slots@.len() ==> (#[trigger] self.slots@[i].addr()) != (
                    key,
                    sel,
                ),
            },
    {
        let n: usize = self.slots.len();
        let mut idx: usize = 0;
        while idx < n
            invariant
                n == self.slots@.len(),
                idx <= n,
                forall|i: int| 0 <= i < idx ==> (#[trigger] self.slots@[i].addr()) != (key, sel),
            decreases n - idx,
        {
            let slot = &self.slots[idx];
            if slot.key == key && sel_eq(slot.sel, sel) {
                return Some(idx);
            }
            idx += 1;
        }
        None
    }
}

/// Whether two selectors address the same slot.
fn sel_eq(a: Option<u64>, b: Option<u64>) -> (r: bool)
    ensures
        r == (a == b),
{
    match (a, b) {
        (None, None) => true,
        (Some(x), Some(y)) => x == y,
        _ => false,
    }
}

impl Store<u64, u64> for MemStore {
    closed spec fn contents(&self) -> Map<(u64, Option<u64>), LinkedItem<u64>> {
        slots_map(self.slots@)
    }

    fn get(&self, key: &u64, sel: Option<u64>) -> (r: Option<LinkedItem<u64>>) {
        proof {
            use_type_invariant(&*self);
        }
        match self.find(*key, sel) {
            Some(i) => {
                proof {
                    lemma_slots_map_index(self.slots@, i as int);
                }
                Some(self.slots[i].item)
            },
            None => {
                proof {
                    if slots_map(self.slots@).contains_key((*key, sel)) {
                        lemma_slots_map_dom(self.slots@, (*key, sel));
                    }
                }
                None
            },
        }
    }

    fn insert(&mut self, key: &u64, sel: Option<u64>, item: LinkedItem<u64>) {
        proof {
            use_type_invariant(&*self);
        }
        let ghost m0 = slots_map(self.slots@);
        let found = self.find(*key, sel);
        let mut slots: Vec<Slot> = Vec::new();
        core::mem::swap(&mut slots, &mut self.slots);
        if let Some(i) = found {
            proof {
                lemma_slots_map_remove(slots@, i as int);
            }
            slots.remove(i);
        }
        let ghost trimmed = slots@;
        assert(forall|j: int|
            0 <= j < trimmed.len() ==> (#[trigger] trimmed[j].addr()) != (*key, sel));
        slots.push(Slot { key: *key, sel, item });
        proof {
            assert(slots@.drop_last() =~= trimmed);
            assert(slots_map(slots@) =~= m0.insert((*key, sel), item));
        }
        self.slots = slots;
    }

    fn take(&mut self, key: &u64, sel: Option<u64>) -> (r: Option<LinkedItem<u64>>) {
        proof {
            use_type_invariant(&*self);
        }
        match self.find(*key, sel) {
            Some(i) => {
                let mut slots: Vec<Slot> = Vec::new();
                core::mem::swap(&mut slots, &mut self.slots);
                proof {
                    lemma_slots_map_index(slots@, i as int);
                    lemma_slots_map_remove(slots@, i as int);
                }
                let slot = slots.remove(i);
                self.slots = slots;
                Some(slot.item)
            },
            None => {
                proof {
                    if slots_map(self.slots@).contains_key((*key, sel)) {
                        lemma_slots_map_dom(self.slots@, (*key, sel));
                    }
                    assert(slots_map(self.slots@) =~= slots_map(self.slots@).remove((*key, sel)));
                }
                None
            },
        }
    }
}

} // verus!
