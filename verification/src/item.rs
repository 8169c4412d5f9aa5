//! The node stored in one slot of the backing store.

use vstd::prelude::*;

verus! {

/// One node of a doubly-linked list.
///
/// A value-node records its neighbours: `prev` is the value just before it
/// (`None` at the front) and `next` the value just after it (`None` at the
/// tail). The sentinel head node repurposes the fields: its `prev` is the
/// tail of the list and its `next` is the front, both `None` when the list
/// is empty.
#[derive(Clone, Copy, Debug, PartialEq, Eq)]
pub struct LinkedItem<Value> {
    pub prev: Option<Value>,
    pub next: Option<Value>,
}

impl<Value> LinkedItem<Value> {
    /// The empty sentinel: what an absent slot stands for.
    pub open spec fn spec_empty() -> LinkedItem<Value> {
        LinkedItem { prev: None, next: None }
    }

    /// Builds the empty sentinel.
    pub fn empty() -> (r: LinkedItem<Value>)
        ensures
            r == LinkedItem::<Value>::spec_empty(),
    {
        LinkedItem { prev: None, next: None }
    }
}

/// The byte encoding of a `u64`: its eight bytes, least significant first.
pub open spec fn spec_encode_u64(v: u64) -> Seq<u8> {
    seq![
        ((v >> 0) & 0xff) as u8,
        ((v >> 8) & 0xff) as u8,
        ((v >> 16) & 0xff) as u8,
        ((v >> 24) & 0xff) as u8,
        ((v >> 32) & 0xff) as u8,
        ((v >> 40) & 0xff) as u8,
        ((v >> 48) & 0xff) as u8,
        ((v >> 56) & 0xff) as u8,
    ]
}

/// The `u64` read back from eight bytes, least significant first.
pub open spec fn spec_decode_u64(b: Seq<u8>) -> u64
    recommends
        b.len() == 8,
{
    ((b[0] as u64) << 0) | ((b[1] as u64) << 8) | ((b[2] as u64) << 16) | ((b[3] as u64) << 24)
        | ((b[4] as u64) << 32) | ((b[5] as u64) << 40) | ((b[6] as u64) << 48) | ((
    b[7] as u64) << 56)
}

/// The byte encoding of an optional value: a presence tag, `0` for `None`
/// and `1` for `Some`, followed by the payload's encoding when present.
pub open spec fn spec_encode_option_u64(v: Option<u64>) -> Seq<u8> {
    match v {
        None => seq![0u8],
        Some(x) => seq![1u8] + spec_encode_u64(x),
    }
}

/// Reads one optional value from the front of `b`: the value and the
/// number of bytes consumed, or `None` when `b` is too short or opens
/// with a tag other than `0` or `1`.
pub open spec fn spec_decode_option_u64(b: Seq<u8>) -> Option<(Option<u64>, int)> {
    if b.len() >= 1 && b[0] == 0 {
        Some((None, 1int))
    } else if b.len() >= 9 && b[0] == 1 {
        Some((Some(spec_decode_u64(b.subrange(1, 9))), 9int))
    } else {
        None
    }
}

/// The byte encoding of a node: its `prev` field's optional-value
/// encoding followed by its `next` field's, in that fixed order, with no
/// length prefix or checksum.
pub open spec fn spec_encode_item(item: LinkedItem<u64>) -> Seq<u8> {
    spec_encode_option_u64(item.prev) + spec_encode_option_u64(item.next)
}

/// Reads one node from the front of `b`: first `prev` as an optional
/// value, then `next`, yielding the node and the number of bytes
/// consumed, or `None` when either read fails.
pub open spec fn spec_decode_item(b: Seq<u8>) -> Option<(LinkedItem<u64>, int)> {
    match spec_decode_option_u64(b) {
        None => None,
        Some((prev, c1)) => match spec_decode_option_u64(b.skip(c1)) {
            None => None,
            Some((next, c2)) => Some((LinkedItem { prev, next }, c1 + c2)),
        },
    }
}

/// Appends the eight bytes of `v`, least significant first.
fn push_u64(output: &mut Vec<u8>, v: u64)
    ensures
        final(output)@ == old(output)@ + spec_encode_u64(v),
{
    proof {
        assert((v >> 0) & 0xff < 256 && (v >> 8) & 0xff < 256 && (v >> 16) & 0xff < 256 && (v >> 24)
            & 0xff < 256 && (v >> 32) & 0xff < 256 && (v >> 40) & 0xff < 256 && (v >> 48) & 0xff
            < 256 && (v >> 56) & 0xff < 256) by (bit_vector);
    }
    output.push(((v >> 0) & 0xff) as u8);
    output.push(((v >> 8) & 0xff) as u8);
    output.push(((v >> 16) & 0xff) as u8);
    output.push(((v >> 24) & 0xff) as u8);
    output.push(((v >> 32) & 0xff) as u8);
    output.push(((v >> 40) & 0xff) as u8);
    output.push(((v >> 48) & 0xff) as u8);
    output.push(((v >> 56) & 0xff) as u8);
    proof {
        assert(output@ =~= old(output)@ + spec_encode_u64(v));
    }
}

/// Appends the encoding of one optional value: the presence tag, then the
/// payload when present.
fn push_option_u64(output: &mut Vec<u8>, v: Option<u64>)
    ensures
        final(output)@ == old(output)@ + spec_encode_option_u64(v),
{
    match v {
        None => {
            output.push(0u8);
            proof {
                assert(output@ =~= old(output)@ + spec_encode_option_u64(v));
            }
        },
        Some(x) => {
            output.push(1u8);
            push_u64(output, x);
            proof {
                assert(output@ =~= old(output)@ + spec_encode_option_u64(v));
            }
        },
    }
}

/// Reads one optional value from `bytes` starting at `at`, returning the
/// value and the number of bytes consumed, or `None` on a short or
/// ill-tagged input.
fn read_option_u64(bytes: &[u8], at: usize) -> (r: Option<(Option<u64>, usize)>)
    requires
        at <= bytes@.len(),
    ensures
        ({
            let sr = spec_decode_option_u64(bytes@.skip(at as int));
            match r {
                Some((v, used)) => sr == Some((v, used as int)) && at + used <= bytes@.len(),
                None => sr is None,
            }
        }),
{
    if at < bytes.len() {
        let tag: u8 = bytes[at];
        if tag == 0 {
            Some((None, 1))
        } else if tag == 1 && bytes.len() - at >= 9 {
            let x: u64 = ((bytes[at + 1] as u64) << 0) | ((bytes[at + 2] as u64) << 8) | ((bytes[at
                + 3] as u64) << 16) | ((bytes[at + 4] as u64) << 24) | ((bytes[at + 5] as u64)
                << 32) | ((bytes[at + 6] as u64) << 40) | ((bytes[at + 7] as u64) << 48) | ((bytes[
            at + 8] as u64) << 56);
            proof {
                let s = bytes@.skip(at as int);
                assert(s.subrange(1, 9) =~= bytes@.subrange(at + 1, at + 9));
                assert(x == spec_decode_u64(s.subrange(1, 9)));
            }
            Some((Some(x), 9))
        } else {
            None
        }
    } else {
        None
    }
}

impl LinkedItem<u64> {
    /// Writes this node's encoding onto the end of `output`: `prev` then
    /// `next`, each as an optional value.
    pub fn encode_to(&self, output: &mut Vec<u8>)
        ensures
            final(output)@ == old(output)@ + spec_encode_item(*self),
    {
        push_option_u64(output, self.prev);
        push_option_u64(output, self.next);
        proof {
            assert(output@ =~= old(output)@ + spec_encode_item(*self));
        }
    }

    /// This node's encoding as a fresh byte vector.
    pub fn encode(&self) -> (r: Vec<u8>)
        ensures
            r@ == spec_encode_item(*self),
    {
        let mut out: Vec<u8> = Vec::new();
        self.encode_to(&mut out);
        proof {
            assert(out@ =~= spec_encode_item(*self));
        }
        out
    }

    /// Reads one node from the front of `bytes`, returning it with the
    /// number of bytes consumed, or `None` when the input is too short or
    /// carries a tag other than `0` or `1`.
    pub fn decode(bytes: &[u8]) -> (r: Option<(LinkedItem<u64>, usize)>)
        ensures
            ({
                let sr = spec_decode_item(bytes@);
                match r {
                    Some((item, used)) => sr == Some((item, used as int)) && used <= bytes@.len(),
                    None => sr is None,
                }
            }),
    {
        proof {
            assert(bytes@.skip(0) =~= bytes@);
        }
        match read_option_u64(bytes, 0) {
            None => None,
            Some((prev, c1)) => match read_option_u64(bytes, c1) {
                None => None,
                Some((next, c2)) => Some((LinkedItem { prev, next }, c1 + c2)),
            },
        }
    }
}

/// Eight bytes written least significant first read back as the value
/// they came from.
pub proof fn lemma_u64_round_trip(v: u64)
    ensures
        spec_decode_u64(spec_encode_u64(v)) == v,
{
    assert(((((v >> 0) & 0xff) as u8 as u64) << 0) | ((((v >> 8) & 0xff) as u8 as u64) << 8) | ((((v
        >> 16) & 0xff) as u8 as u64) << 16) | ((((v >> 24) & 0xff) as u8 as u64) << 24) | ((((v
        >> 32) & 0xff) as u8 as u64) << 32) | ((((v >> 40) & 0xff) as u8 as u64) << 40) | ((((v
        >> 48) & 0xff) as u8 as u64) << 48) | ((((v >> 56) & 0xff) as u8 as u64) << 56) == v)
        by (bit_vector);
}

/// An optional value's encoding, however followed, reads back as the
/// value and consumes exactly its own length.
pub proof fn lemma_option_round_trip(v: Option<u64>, rest: Seq<u8>)
    ensures
        spec_decode_option_u64(spec_encode_option_u64(v) + rest) == Some(
            (v, spec_encode_option_u64(v).len() as int),
        ),
{
    let b = spec_encode_option_u64(v) + rest;
    match v {
        None => {
            assert(b[0] == 0);
        },
        Some(x) => {
            assert(b[0] == 1);
            assert(b.subrange(1, 9) =~= spec_encode_u64(x));
            lemma_u64_round_trip(x);
        },
    }
}

/// Round-trip encoding: a node's encoding, however followed, decodes back
/// to an equal node and consumes exactly its own length.
pub proof fn lemma_item_round_trip(item: LinkedItem<u64>, rest: Seq<u8>)
    ensures
        spec_decode_item(spec_encode_item(item) + rest) == Some(
            (item, spec_encode_item(item).len() as int),
        ),
{
    let b = spec_encode_item(item) + rest;
    let tail = spec_encode_option_u64(item.next) + rest;
    let c1 = spec_encode_option_u64(item.prev).len() as int;
    assert(b =~= spec_encode_option_u64(item.prev) + tail);
    lemma_option_round_trip(item.prev, tail);
    assert(b.skip(c1) =~= tail);
    lemma_option_round_trip(item.next, rest);
}

} // verus!
