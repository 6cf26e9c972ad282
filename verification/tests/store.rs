use crisper_client::kvs::memory::MemoryStore;
use crisper_client::kvs::KeyValueStore;
use crisper_client::task::Existence;

#[test]
fn existence_of_a_known_key() {
    assert_eq!(Existence::new(true), Existence::Present);
    assert_eq!(Existence::new(false), Existence::Absent);
    assert_eq!(Existence::new(true).existed(), Some(true));
    assert_eq!(Existence::new(false).existed(), Some(false));
}

#[test]
fn existence_unknown() {
    assert_eq!(Existence::unknown(), Existence::Unknown);
    assert_eq!(Existence::unknown().existed(), None);
}

#[test]
fn new_store_is_empty() {
    let mut store = MemoryStore::new();
    assert_eq!(store.len(), 0);
    assert_eq!(store.get(b"a"), Ok(None));
}

#[test]
fn put_reports_whether_the_key_was_there() {
    let mut store = MemoryStore::new();
    assert_eq!(store.put(b"a", b"1"), Ok(Existence::Absent));
    assert_eq!(store.put(b"a", b"2"), Ok(Existence::Present));
    assert_eq!(store.put(b"b", b"3"), Ok(Existence::Absent));
    assert_eq!(store.len(), 2);
}

#[test]
fn get_returns_the_last_value_written() {
    let mut store = MemoryStore::new();
    store.put(b"a", b"1").expect("a write");
    store.put(b"b", b"2").expect("a write");
    store.put(b"a", b"3").expect("a write");
    assert_eq!(store.get(b"a"), Ok(Some(b"3".to_vec())));
    assert_eq!(store.get(b"b"), Ok(Some(b"2".to_vec())));
    assert_eq!(store.get(b"c"), Ok(None));
    assert_eq!(store.len(), 2);
}

#[test]
fn delete_reports_whether_the_key_was_there() {
    let mut store = MemoryStore::new();
    store.put(b"a", b"1").expect("a write");
    store.put(b"b", b"2").expect("a write");
    store.put(b"c", b"3").expect("a write");
    assert_eq!(store.delete(b"b"), Ok(Existence::Present));
    assert_eq!(store.delete(b"b"), Ok(Existence::Absent));
    assert_eq!(store.get(b"a"), Ok(Some(b"1".to_vec())));
    assert_eq!(store.get(b"b"), Ok(None));
    assert_eq!(store.get(b"c"), Ok(Some(b"3".to_vec())));
    assert_eq!(store.len(), 2);
}

#[test]
fn keys_are_bytes_and_differ_by_any_byte() {
    let mut store = MemoryStore::new();
    store.put(b"", b"empty").expect("a write");
    store.put(&[0xff, 0x00], b"x").expect("a write");
    store.put(&[0xff], b"y").expect("a write");
    store.put(&[0xff, 0x01], b"z").expect("a write");
    assert_eq!(store.get(b""), Ok(Some(b"empty".to_vec())));
    assert_eq!(store.get(&[0xff, 0x00]), Ok(Some(b"x".to_vec())));
    assert_eq!(store.get(&[0xff]), Ok(Some(b"y".to_vec())));
    assert_eq!(store.get(&[0xff, 0x01]), Ok(Some(b"z".to_vec())));
    assert_eq!(store.get(&[0x00]), Ok(None));
}

#[test]
fn store_agrees_with_a_map() {
    let mut store = MemoryStore::new();
    let mut map = std::collections::BTreeMap::new();
    let mut state: u64 = 99;
    for _ in 0..3000 {
        state = state.wrapping_mul(6364136223846793005).wrapping_add(1442695040888963407);
        let key = vec![(state >> 40) as u8 % 6, (state >> 48) as u8 % 3];
        let value = vec![(state >> 56) as u8];
        match (state >> 33) % 3 {
            0 => {
                let before = map.insert(key.clone(), value.clone()).is_some();
                assert_eq!(store.put(&key, &value), Ok(Existence::new(before)));
            }
            1 => {
                assert_eq!(store.get(&key), Ok(map.get(&key).cloned()));
            }
            _ => {
                let before = map.remove(&key).is_some();
                assert_eq!(store.delete(&key), Ok(Existence::new(before)));
            }
        }
        assert_eq!(store.len(), map.len());
    }
}

fn exercise<S: KeyValueStore<OwnedValue = Vec<u8>>>(store: &mut S) {
    assert_eq!(store.put(b"k", b"v"), Ok(Existence::Absent));
    assert_eq!(store.get(b"k"), Ok(Some(b"v".to_vec())));
    assert_eq!(store.delete(b"k"), Ok(Existence::Present));
    assert_eq!(store.get(b"k"), Ok(None));
}

#[test]
fn store_is_used_through_the_trait() {
    let mut store = MemoryStore::new();
    exercise(&mut store);
}
