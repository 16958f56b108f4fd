use livesort::store::OrderedStore;
use livesort::store::Record;
use livesort::store::take;

/// The total-order bit pattern of a key value: negative values map below
/// positive ones and the unsigned order of the patterns is the key order.
fn key_bits(f: f64) -> u64 {
    let b = f.to_bits();
    if b & (1u64 << 63) != 0 {
        !b
    } else {
        b | (1u64 << 63)
    }
}

fn record(key: f64, text: &str, seq: u64) -> Record {
    Record { key: key_bits(key), text: text.as_bytes().to_vec(), seq }
}

#[test]
fn insert_keeps_key_order() {
    let mut store = OrderedStore::new();
    store.insert(record(3.0, "3\n", 1));
    store.insert(record(1.0, "1\n", 2));
    store.insert(record(2.0, "2\n", 3));
    assert_eq!(store.len(), 3);
    assert_eq!(take(&store, 3, false), b"1\n2\n3\n".to_vec());
    assert_eq!(take(&store, 3, true), b"3\n2\n1\n".to_vec());
}

#[test]
fn negative_and_positive_keys() {
    let mut store = OrderedStore::new();
    store.insert(record(0.5, "b\n", 1));
    store.insert(record(-2.0, "a\n", 2));
    store.insert(record(100.0, "c\n", 3));
    assert_eq!(take(&store, 10, false), b"a\nb\nc\n".to_vec());
}

#[test]
fn equal_keys_fall_back_to_text_then_arrival() {
    let mut store = OrderedStore::new();
    store.insert(record(0.0, "pear\n", 1));
    store.insert(record(0.0, "apple\n", 2));
    store.insert(record(0.0, "apple\n", 3));
    assert_eq!(store.len(), 3);
    assert_eq!(take(&store, 10, false), b"apple\napple\npear\n".to_vec());
}

#[test]
fn duplicates_are_all_kept() {
    let mut store = OrderedStore::new();
    store.insert(record(7.0, "7\n", 1));
    store.insert(record(7.0, "7\n", 2));
    store.insert(record(7.0, "7\n", 3));
    assert_eq!(store.len(), 3);
    assert_eq!(take(&store, 10, false), b"7\n7\n7\n".to_vec());
}

#[test]
fn take_is_bounded() {
    let mut store = OrderedStore::new();
    store.insert(record(1.0, "1\n", 1));
    store.insert(record(2.0, "2\n", 2));
    store.insert(record(3.0, "3\n", 3));
    assert_eq!(take(&store, 2, false), b"1\n2\n".to_vec());
    assert_eq!(take(&store, 2, true), b"3\n2\n".to_vec());
    assert_eq!(take(&store, 0, false), Vec::<u8>::new());
    assert_eq!(take(&store, 9, false), b"1\n2\n3\n".to_vec());
}

#[test]
fn get_returns_stored_fields() {
    let mut store = OrderedStore::new();
    store.insert(record(5.0, "five\n", 1));
    let (key, text, seq) = store.get(0);
    assert_eq!(key, key_bits(5.0));
    assert_eq!(text.as_slice(), b"five\n");
    assert_eq!(seq, 1);
}
