use linked_item::item::LinkedItem;
use parity_scale_codec::{Decode, Encode};

fn combos() -> Vec<LinkedItem<u64>> {
    vec![
        LinkedItem {
            prev: None,
            next: None,
        },
        LinkedItem {
            prev: Some(3),
            next: None,
        },
        LinkedItem {
            prev: None,
            next: Some(4),
        },
        LinkedItem {
            prev: Some(u64::MAX),
            next: Some(0),
        },
    ]
}

#[test]
fn round_trip_all_combinations() {
    for item in combos() {
        let bytes = item.encode();
        let decoded = LinkedItem::decode(&bytes);
        assert_eq!(decoded, Some((item, bytes.len())));
    }
}

#[test]
fn round_trip_ignores_trailing_bytes() {
    for item in combos() {
        let mut bytes = item.encode();
        let own_len: usize = bytes.len();
        bytes.push(0xAB);
        bytes.push(0xCD);
        assert_eq!(LinkedItem::decode(&bytes), Some((item, own_len)));
    }
}

#[test]
fn exact_bytes() {
    let item = LinkedItem {
        prev: Some(1u64),
        next: None,
    };
    assert_eq!(item.encode(), vec![1, 1, 0, 0, 0, 0, 0, 0, 0, 0]);
    let item = LinkedItem::<u64> {
        prev: None,
        next: None,
    };
    assert_eq!(item.encode(), vec![0, 0]);
    let item = LinkedItem {
        prev: None,
        next: Some(0x0102030405060708u64),
    };
    assert_eq!(
        item.encode(),
        vec![0, 1, 0x08, 0x07, 0x06, 0x05, 0x04, 0x03, 0x02, 0x01]
    );
}

#[test]
fn encode_to_appends() {
    let mut out: Vec<u8> = vec![0xFF];
    let item = LinkedItem {
        prev: Some(2u64),
        next: None,
    };
    item.encode_to(&mut out);
    assert_eq!(out[0], 0xFF);
    assert_eq!(out[1..].to_vec(), item.encode());
}

#[test]
fn decode_rejects_short_or_ill_tagged_input() {
    assert_eq!(LinkedItem::decode(&[]), None);
    // A lone `None` tag: the second field is missing.
    assert_eq!(LinkedItem::decode(&[0]), None);
    // A bad presence tag.
    assert_eq!(LinkedItem::decode(&[2, 0]), None);
    assert_eq!(LinkedItem::decode(&[0, 2]), None);
    // A `Some` tag with a short payload.
    assert_eq!(LinkedItem::decode(&[1, 1, 2, 3]), None);
    assert_eq!(LinkedItem::decode(&[0, 1, 1, 2, 3, 4, 5, 6, 7]), None);
}

#[test]
fn encoding_matches_scale_codec() {
    for item in combos() {
        let mut expected: Vec<u8> = Vec::new();
        expected.extend(item.prev.encode());
        expected.extend(item.next.encode());
        assert_eq!(item.encode(), expected);
    }
}

#[test]
fn decoding_matches_scale_codec() {
    for item in combos() {
        let bytes = item.encode();
        let mut input = &bytes[..];
        let prev = Option::<u64>::decode(&mut input).unwrap();
        let next = Option::<u64>::decode(&mut input).unwrap();
        assert_eq!(LinkedItem { prev, next }, item);
        assert!(input.is_empty());
    }
}
