use chord::crypto::hash_key;
use chord::kv_store::{clone_value, keys_equal, HashMapStore, KVStore};
use chord::ring::is_between;

fn store_key(i: u8) -> [u8; 32] {
    let mut key = [0u8; 32];
    key[0] = i;
    key[31] = i.wrapping_mul(3);
    key
}

fn sorted(mut pairs: Vec<([u8; 32], Vec<u8>)>) -> Vec<([u8; 32], Vec<u8>)> {
    pairs.sort();
    pairs
}

#[test]
fn empty_store_holds_nothing() {
    let store = HashMapStore::new();
    assert_eq!(store.size(), 0);
    assert_eq!(store.get(&store_key(1)), None);
    assert!(store.iter(1, 0, false, false).is_empty());
}

#[test]
fn put_then_get_returns_the_value() {
    let mut store = HashMapStore::new();
    assert!(!store.put(&store_key(1), &b"one".to_vec()));
    assert!(!store.put(&store_key(2), &b"two".to_vec()));
    assert_eq!(store.get(&store_key(1)), Some(&b"one".to_vec()));
    assert_eq!(store.get(&store_key(2)), Some(&b"two".to_vec()));
    assert_eq!(store.get(&store_key(3)), None);
    assert_eq!(store.size(), 2);
}

#[test]
fn put_overwrites_and_says_so() {
    let mut store = HashMapStore::new();
    assert!(!store.put(&store_key(1), &b"one".to_vec()));
    assert!(store.put(&store_key(1), &b"uno".to_vec()));
    assert_eq!(store.get(&store_key(1)), Some(&b"uno".to_vec()));
    assert_eq!(store.size(), 1);
}

#[test]
fn delete_removes_and_says_so() {
    let mut store = HashMapStore::new();
    store.put(&store_key(1), &b"one".to_vec());
    store.put(&store_key(2), &b"two".to_vec());
    store.put(&store_key(3), &b"three".to_vec());
    assert!(store.delete(&store_key(2)));
    assert!(!store.delete(&store_key(2)));
    assert!(!store.delete(&store_key(9)));
    assert_eq!(store.get(&store_key(2)), None);
    assert_eq!(store.get(&store_key(1)), Some(&b"one".to_vec()));
    assert_eq!(store.get(&store_key(3)), Some(&b"three".to_vec()));
    assert_eq!(store.size(), 2);
}

#[test]
fn iter_lists_the_pairs_on_the_arc() {
    let mut store = HashMapStore::new();
    let mut all = Vec::new();
    for i in 0..60u8 {
        store.put(&store_key(i), &vec![i]);
        all.push((store_key(i), vec![i]));
    }
    for (lower, upper, left_open, right_open) in
        [(10u8, 100u8, false, false), (200, 20, true, false), (7, 7, false, false), (1, 0, false, false)]
    {
        let expected: Vec<_> = all
            .iter()
            .filter(|(key, _)| is_between(hash_key(key), lower, upper, left_open, right_open))
            .cloned()
            .collect();
        assert_eq!(sorted(store.iter(lower, upper, left_open, right_open)), sorted(expected));
    }
    assert_eq!(store.iter(1, 0, false, false).len(), 60);
    assert_eq!(store.size(), 60);
}

#[test]
fn take_range_splits_the_store() {
    let mut store = HashMapStore::new();
    let mut all = Vec::new();
    for i in 0..60u8 {
        store.put(&store_key(i), &vec![i, i]);
        all.push((store_key(i), vec![i, i]));
    }
    let taken = store.take_range(200, 60);
    let (on, off): (Vec<_>, Vec<_>) =
        all.iter().cloned().partition(|(key, _)| is_between(hash_key(key), 200, 60, false, false));
    assert!(!on.is_empty() && !off.is_empty());
    assert_eq!(sorted(taken.clone()), sorted(on));
    assert_eq!(sorted(store.iter(1, 0, false, false)), sorted(off));
    assert_eq!(store.size() + taken.len(), 60);
    for (key, _) in &taken {
        assert_eq!(store.get(key), None);
    }
    // Put back beside what stayed, the pairs give the store as it was.
    store.insert_all(&taken);
    assert_eq!(sorted(store.iter(1, 0, false, false)), sorted(all));
}

#[test]
fn insert_all_lets_the_later_pair_win() {
    let mut store = HashMapStore::new();
    store.put(&store_key(1), &b"old".to_vec());
    store.insert_all(&vec![
        (store_key(1), b"new".to_vec()),
        (store_key(2), b"first".to_vec()),
        (store_key(2), b"second".to_vec()),
    ]);
    assert_eq!(store.get(&store_key(1)), Some(&b"new".to_vec()));
    assert_eq!(store.get(&store_key(2)), Some(&b"second".to_vec()));
    assert_eq!(store.size(), 2);
}

#[test]
fn keys_equal_compares_all_bytes() {
    let a = store_key(4);
    let mut b = store_key(4);
    assert!(keys_equal(&a, &b));
    b[31] ^= 1;
    assert!(!keys_equal(&a, &b));
    b[31] ^= 1;
    b[17] = 9;
    assert!(!keys_equal(&a, &b));
}

#[test]
fn clone_value_copies_the_bytes() {
    assert_eq!(clone_value(&b"hello".to_vec()), b"hello".to_vec());
    assert_eq!(clone_value(&Vec::new()), Vec::<u8>::new());
}
