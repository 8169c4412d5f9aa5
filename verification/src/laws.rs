//! The list abstraction: when a store holds a well-formed chain, and what
//! each operation does to it.

use vstd::prelude::*;
use crate::item::LinkedItem;
use crate::store::node_of;
use crate::list::{spec_append, spec_remove, spec_collect};

verus! {

/// The selector stored as `prev` by the node at position `i` of a chain
/// holding the values `s` (also: the cursor from which position `i` is the
/// next to be visited, defined up to `i == s.len()`).
pub open spec fn prev_of<Value>(s: Seq<Value>, i: int) -> Option<Value> {
    if i == 0 {
        None
    } else {
        Some(s[i - 1])
    }
}

/// The selector stored as `next` by the node at position `i` of a chain
/// holding the values `s`.
pub open spec fn next_of<Value>(s: Seq<Value>, i: int) -> Option<Value> {
    if i == s.len() - 1 {
        None
    } else {
        Some(s[i + 1])
    }
}

/// The front pointer the sentinel head holds for a chain of values `s`.
pub open spec fn front_of<Value>(s: Seq<Value>) -> Option<Value> {
    if s.len() == 0 {
        None
    } else {
        Some(s[0])
    }
}

/// The tail pointer the sentinel head holds for a chain of values `s`.
pub open spec fn back_of<Value>(s: Seq<Value>) -> Option<Value> {
    if s.len() == 0 {
        None
    } else {
        Some(s[s.len() - 1])
    }
}

/// The store `m` holds, under `key`, a well-formed chain of exactly the
/// values `s`, in order: the head's `next` and `prev` are the front and
/// tail of `s`, every value of `s` has a slot, and each slot's `prev` and
/// `next` name its neighbours in `s`.
pub open spec fn is_list<Key, Value>(
    m: Map<(Key, Option<Value>), LinkedItem<Value>>,
    key: Key,
    s: Seq<Value>,
) -> bool {
    &&& s.no_duplicates()
    &&& node_of(m, key, None).next == front_of(s)
    &&& node_of(m, key, None).prev == back_of(s)
    &&& forall|i: int| 0 <= i < s.len() ==> m.contains_key((key, Some(#[trigger] s[i])))
    &&& forall|i: int|
        0 <= i < s.len() ==> node_of(m, key, Some(#[trigger] s[i])) == (LinkedItem {
            prev: prev_of(s, i),
            next: next_of(s, i),
        })
}

/// Appending a value not yet present places it at the tail of the chain:
/// a well-formed chain of `s` becomes a well-formed chain of `s.push(value)`.
pub proof fn lemma_append_preserves_list<Key, Value>(
    m: Map<(Key, Option<Value>), LinkedItem<Value>>,
    key: Key,
    s: Seq<Value>,
    value: Value,
)
    requires
        is_list(m, key, s),
        !s.contains(value),
    ensures
        is_list(spec_append(m, key, value), key, s.push(value)),
{
    let m2 = spec_append(m, key, value);
    let s2 = s.push(value);
    assert forall|i: int| 0 <= i < s.len() implies s[i] != value by {
        assert(s.contains(s[i]));
    }
    assert(s2.no_duplicates());
    if s.len() == 0 {
        assert(node_of(m2, key, Some(s2[0])) == (LinkedItem {
            prev: prev_of(s2, 0),
            next: next_of(s2, 0),
        }));
    } else {
        let n = s.len() as int;
        assert forall|i: int| 0 <= i < s2.len() implies node_of(m2, key, Some(#[trigger] s2[i]))
            == (LinkedItem { prev: prev_of(s2, i), next: next_of(s2, i) }) by {
            if i < n - 1 {
                assert(s2[i] == s[i]);
                assert(s[i] != s[n - 1]);
            } else if i == n - 1 {
                assert(s2[i] == s[i]);
            } else {
                assert(s2[i] == value);
            }
        }
        assert forall|i: int| 0 <= i < s2.len() implies m2.contains_key(
            (key, Some(#[trigger] s2[i])),
        ) by {
            if i < n {
                assert(s2[i] == s[i]);
            } else {
                assert(s2[i] == value);
            }
        }
    }
}

/// Removing an absent value changes nothing in the store.
pub proof fn lemma_remove_absent_noop<Key, Value>(
    m: Map<(Key, Option<Value>), LinkedItem<Value>>,
    key: Key,
    value: Value,
)
    requires
        !m.contains_key((key, Some(value))),
    ensures
        spec_remove(m, key, value) == m,
{
}

/// Removing the value at position `i` re-links its neighbours: a
/// well-formed chain of `s` becomes a well-formed chain of `s.remove(i)`.
/// In particular removing the front promotes the next value to front, and
/// removing the tail moves the head's tail pointer to the predecessor.
#[verifier::rlimit(50)]
pub proof fn lemma_remove_preserves_list<Key, Value>(
    m: Map<(Key, Option<Value>), LinkedItem<Value>>,
    key: Key,
    s: Seq<Value>,
    i: int,
)
    requires
        is_list(m, key, s),
        0 <= i < s.len(),
    ensures
        is_list(spec_remove(m, key, s[i]), key, s.remove(i)),
{
    let value = s[i];
    let n = s.len() as int;
    let m2 = spec_remove(m, key, value);
    let s2 = s.remove(i);
    assert forall|a: int, b: int| 0 <= a < n && 0 <= b < n && a != b implies s[a] != s[b] by {}
    assert(s2.no_duplicates());
    assert(m.contains_key((key, Some(value))));
    assert forall|j: int| 0 <= j < s2.len() implies m2.contains_key((key, Some(#[trigger] s2[j])))
        && node_of(m2, key, Some(s2[j])) == (LinkedItem {
        prev: prev_of(s2, j),
        next: next_of(s2, j),
    }) by {
        if j < i {
            assert(s2[j] == s[j]);
        } else {
            assert(s2[j] == s[j + 1]);
        }
    }
    assert(node_of(m2, key, None).next == front_of(s2));
    assert(node_of(m2, key, None).prev == back_of(s2));
}

/// Appending a fresh value and then removing it restores every slot of
/// `key`'s list to what it held before — the chain and the head sentinel
/// alike, an absent slot and the empty sentinel standing for one another —
/// and touches no slot of any other grouping key.
pub proof fn lemma_append_then_remove_restores<Key, Value>(
    m: Map<(Key, Option<Value>), LinkedItem<Value>>,
    key: Key,
    s: Seq<Value>,
    value: Value,
)
    requires
        is_list(m, key, s),
        !s.contains(value),
        !m.contains_key((key, Some(value))),
    ensures
        forall|sel: Option<Value>|
            node_of(#[trigger] spec_remove(spec_append(m, key, value), key, value), key, sel)
                == node_of(m, key, sel),
        forall|p: (Key, Option<Value>)|
            p.0 != key ==> spec_remove(spec_append(m, key, value), key, value).contains_key(p)
                == m.contains_key(p) && (m.contains_key(p) ==> spec_remove(
                spec_append(m, key, value),
                key,
                value,
            )[p] == m[p]),
{
    let ma = spec_append(m, key, value);
    let m2 = spec_remove(ma, key, value);
    lemma_append_preserves_list(m, key, s, value);
    lemma_remove_preserves_list(ma, key, s.push(value), s.len() as int);
    assert(s.push(value)[s.len() as int] == value);
    assert(s.push(value).remove(s.len() as int) =~= s);
    assert(is_list(m2, key, s));
    assert forall|i: int| 0 <= i < s.len() implies s[i] != value by {
        assert(s.contains(s[i]));
    }
    assert forall|sel: Option<Value>| node_of(m2, key, sel) == node_of(m, key, sel) by {
        if sel is Some {
            let w = sel->0;
            if w == value {
                assert(!m2.contains_key((key, Some(value))));
            } else if s.contains(w) {
                let i = choose|i: int| 0 <= i < s.len() && s[i] == w;
                assert(node_of(m2, key, Some(s[i])) == (LinkedItem {
                    prev: prev_of(s, i),
                    next: next_of(s, i),
                }));
            } else {
                // an untouched slot: neither the head, the old tail, nor value
            }
        }
    }
}

/// What a bounded traversal of a well-formed chain yields, from any
/// position.
///
/// Starting at the cursor just before position `j` (`None` when `j` is 0,
/// the value at `j - 1` otherwise), collecting with bound `limit` yields
/// exactly the next `min(limit, s.len() - j)` values of `s`, in order, and
/// the cursor comes to rest on the last value collected — on the starting
/// cursor itself when nothing is.
pub proof fn lemma_collect_spans_list<Key, Value>(
    m: Map<(Key, Option<Value>), LinkedItem<Value>>,
    key: Key,
    s: Seq<Value>,
    j: int,
    limit: nat,
)
    requires
        is_list(m, key, s),
        0 <= j <= s.len(),
    ensures
        ({
            let n = vstd::math::min(limit as int, s.len() - j);
            &&& spec_collect(m, key, prev_of(s, j), limit).0 == (if n == 0 {
                prev_of(s, j)
            } else {
                Some(s[j + n - 1])
            })
            &&& spec_collect(m, key, prev_of(s, j), limit).1 == s.subrange(j, j + n)
        }),
    decreases limit,
{
    let cur = prev_of(s, j);
    let n = vstd::math::min(limit as int, s.len() - j);
    if limit == 0 {
        assert(s.subrange(j, j) =~= Seq::<Value>::empty());
    } else if j == s.len() {
        if j > 0 {
            assert(node_of(m, key, Some(s[j - 1])).next == next_of(s, j - 1));
        }
        assert(s.subrange(j, j) =~= Seq::<Value>::empty());
    } else {
        if j == 0 {
            assert(node_of(m, key, None).next == front_of(s));
            assert(m.contains_key((key, cur)));
        } else {
            assert(node_of(m, key, Some(s[j - 1])).next == next_of(s, j - 1));
            assert(m.contains_key((key, cur)));
        }
        assert(m[(key, cur)].next == Some(s[j]));
        lemma_collect_spans_list(m, key, s, j + 1, (limit - 1) as nat);
        assert(prev_of(s, j + 1) == Some(s[j]));
        let rest = spec_collect(m, key, Some(s[j]), (limit - 1) as nat);
        assert(spec_collect(m, key, cur, limit).1 == seq![s[j]] + rest.1);
        assert(seq![s[j]] + s.subrange(j + 1, j + n) =~= s.subrange(j, j + n));
    }
}

/// Order preservation: traversing a well-formed chain from the front with
/// a bound at least its length yields every value, in the order of the
/// chain, with the cursor resting on the tail.
pub proof fn lemma_collect_all<Key, Value>(
    m: Map<(Key, Option<Value>), LinkedItem<Value>>,
    key: Key,
    s: Seq<Value>,
    limit: nat,
)
    requires
        is_list(m, key, s),
        s.len() <= limit,
    ensures
        spec_collect(m, key, None, limit).0 == back_of(s),
        spec_collect(m, key, None, limit).1 == s,
{
    lemma_collect_spans_list(m, key, s, 0, limit);
    assert(s.subrange(0, s.len() as int) =~= s);
}

/// Traversing a key with an empty chain yields nothing, whatever the
/// bound: the cursor stays at the front and no value is collected.
pub proof fn lemma_collect_empty<Key, Value>(
    m: Map<(Key, Option<Value>), LinkedItem<Value>>,
    key: Key,
    limit: nat,
)
    requires
        is_list(m, key, Seq::<Value>::empty()),
    ensures
        spec_collect(m, key, None, limit).0 == None::<Value>,
        spec_collect(m, key, None, limit).1 == Seq::<Value>::empty(),
{
    lemma_collect_spans_list(m, key, Seq::<Value>::empty(), 0, limit);
}

} // verus!
