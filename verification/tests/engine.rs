use lru_cache_nif::lru_cache::{LruCache, MAX_CAPACITY};
use lru_cache_nif::supported_term::SupportedTerm;

fn text(s: &str) -> SupportedTerm {
    SupportedTerm::Text(s.to_string())
}

fn num(n: i64) -> SupportedTerm {
    SupportedTerm::Integer(n)
}

#[test]
fn new_cache_is_empty() {
    let cache = LruCache::new(3);
    assert_eq!(cache.len(), 0);
    assert!(cache.is_empty());
    assert_eq!(cache.cap(), 3);
    assert_eq!(cache.peek_lru(), None);
    assert_eq!(cache.keys(), Vec::<SupportedTerm>::new());
    assert_eq!(cache.values(), Vec::<SupportedTerm>::new());
    assert_eq!(cache.to_vec(), Vec::<(SupportedTerm, SupportedTerm)>::new());
}

#[test]
fn insertion_below_capacity() {
    let mut cache = LruCache::new(2);
    assert_eq!(cache.put(text("a"), num(1)), None);
    assert_eq!(cache.put(text("b"), num(2)), None);
    assert_eq!(cache.len(), 2);
    assert_eq!(cache.get(&text("a")), Some(&num(1)));
    assert_eq!(cache.get(&text("b")), Some(&num(2)));
}

#[test]
fn eviction_removes_least_recently_used() {
    let mut cache = LruCache::new(2);
    cache.put(text("a"), num(1));
    cache.put(text("b"), num(2));
    assert_eq!(cache.put(text("c"), num(3)), Some((text("a"), num(1))));
    assert!(!cache.contains(&text("a")));
    assert_eq!(cache.keys(), vec![text("c"), text("b")]);
    assert_eq!(cache.len(), 2);
}

#[test]
fn get_promotes() {
    let mut cache = LruCache::new(2);
    cache.put(text("b"), num(2));
    cache.put(text("a"), num(1));
    assert_eq!(cache.keys(), vec![text("a"), text("b")]);
    assert_eq!(cache.get(&text("b")), Some(&num(2)));
    assert_eq!(cache.keys(), vec![text("b"), text("a")]);
    assert_eq!(cache.put(text("c"), num(3)), Some((text("a"), num(1))));
    assert!(cache.contains(&text("b")));
    assert!(!cache.contains(&text("a")));
}

#[test]
fn get_of_absent_key_changes_nothing() {
    let mut cache = LruCache::new(2);
    cache.put(text("a"), num(1));
    cache.put(text("b"), num(2));
    assert_eq!(cache.get(&text("z")), None);
    assert_eq!(cache.keys(), vec![text("b"), text("a")]);
}

#[test]
fn update_does_not_evict() {
    let mut cache = LruCache::new(1);
    cache.put(text("a"), num(1));
    assert_eq!(cache.put(text("a"), num(2)), None);
    assert_eq!(cache.get(&text("a")), Some(&num(2)));
    assert_eq!(cache.len(), 1);
}

#[test]
fn update_promotes() {
    let mut cache = LruCache::new(3);
    cache.put(text("a"), num(1));
    cache.put(text("b"), num(2));
    cache.put(text("c"), num(3));
    assert_eq!(cache.put(text("a"), num(10)), None);
    assert_eq!(
        cache.to_vec(),
        vec![(text("a"), num(10)), (text("c"), num(3)), (text("b"), num(2))]
    );
    assert_eq!(cache.peek_lru(), Some((&text("b"), &num(2))));
}

#[test]
fn capacity_zero_stays_empty() {
    let mut cache = LruCache::new(0);
    assert_eq!(cache.put(text("a"), num(1)), None);
    assert_eq!(cache.len(), 0);
    assert!(cache.is_empty());
    assert!(!cache.contains(&text("a")));
    assert_eq!(cache.get(&text("a")), None);
    assert_eq!(cache.cap(), 0);
    assert_eq!(cache.pop_lru(), None);
}

#[test]
fn len_never_exceeds_cap() {
    let mut cache = LruCache::new(3);
    for i in 0..20 {
        cache.put(num(i % 7), num(i));
        assert!(cache.len() <= cache.cap());
        cache.get(&num(i % 5));
        assert!(cache.len() <= cache.cap());
        if i % 4 == 0 {
            cache.pop(&num(i % 3));
            assert!(cache.len() <= cache.cap());
        }
        if i % 6 == 0 {
            cache.pop_lru();
            assert!(cache.len() <= cache.cap());
        }
    }
    assert_eq!(cache.cap(), 3);
}

#[test]
fn peek_does_not_promote() {
    let mut cache = LruCache::new(2);
    cache.put(text("a"), num(1));
    cache.put(text("b"), num(2));
    assert_eq!(cache.peek_lru(), Some((&text("a"), &num(1))));
    assert_eq!(cache.peek(&text("a")), Some(&num(1)));
    assert_eq!(cache.peek(&text("a")), Some(&num(1)));
    assert_eq!(cache.peek(&text("b")), Some(&num(2)));
    assert_eq!(cache.peek(&text("z")), None);
    assert_eq!(cache.peek_lru(), Some((&text("a"), &num(1))));
    assert_eq!(cache.put(text("c"), num(3)), Some((text("a"), num(1))));
}

#[test]
fn contains_does_not_promote() {
    let mut cache = LruCache::new(2);
    cache.put(text("a"), num(1));
    cache.put(text("b"), num(2));
    assert!(cache.contains(&text("a")));
    assert!(!cache.contains(&text("z")));
    assert_eq!(cache.keys(), vec![text("b"), text("a")]);
}

#[test]
fn pop_removes_from_any_position() {
    let mut cache = LruCache::new(3);
    cache.put(text("a"), num(1));
    cache.put(text("b"), num(2));
    cache.put(text("c"), num(3));
    assert_eq!(cache.pop(&text("b")), Some(num(2)));
    assert_eq!(cache.pop(&text("b")), None);
    assert_eq!(cache.keys(), vec![text("c"), text("a")]);
    assert_eq!(cache.len(), 2);
    assert_eq!(cache.cap(), 3);
}

#[test]
fn pop_lru_removes_the_oldest() {
    let mut cache = LruCache::new(3);
    cache.put(text("a"), num(1));
    cache.put(text("b"), num(2));
    cache.get(&text("a"));
    assert_eq!(cache.pop_lru(), Some((text("b"), num(2))));
    assert_eq!(cache.pop_lru(), Some((text("a"), num(1))));
    assert_eq!(cache.pop_lru(), None);
    assert!(cache.is_empty());
}

#[test]
fn clear_resets_size_and_keeps_capacity() {
    let mut cache = LruCache::new(2);
    cache.put(text("a"), num(1));
    cache.put(text("b"), num(2));
    cache.clear();
    assert_eq!(cache.len(), 0);
    assert_eq!(cache.cap(), 2);
    assert_eq!(cache.get(&text("a")), None);
    assert_eq!(cache.get(&text("b")), None);
    assert_eq!(cache.put(text("c"), num(3)), None);
    assert_eq!(cache.len(), 1);
}

#[test]
fn to_vec_is_keys_zipped_with_values() {
    let mut cache = LruCache::new(4);
    cache.put(text("a"), num(1));
    cache.put(num(7), text("seven"));
    cache.put(SupportedTerm::Boolean(true), SupportedTerm::Bytes(vec![1, 2, 3]));
    cache.get(&text("a"));
    let keys = cache.keys();
    let values = cache.values();
    let zipped: Vec<(SupportedTerm, SupportedTerm)> = keys.into_iter().zip(values).collect();
    assert_eq!(cache.to_vec(), zipped);
    assert_eq!(
        cache.to_vec(),
        vec![
            (text("a"), num(1)),
            (SupportedTerm::Boolean(true), SupportedTerm::Bytes(vec![1, 2, 3])),
            (num(7), text("seven")),
        ]
    );
}

#[test]
fn snapshots_do_not_promote() {
    let mut cache = LruCache::new(2);
    cache.put(text("a"), num(1));
    cache.put(text("b"), num(2));
    cache.keys();
    cache.values();
    cache.to_vec();
    assert_eq!(cache.peek_lru(), Some((&text("a"), &num(1))));
}

#[test]
fn keys_of_different_kinds_are_different_keys() {
    let mut cache = LruCache::new(4);
    cache.put(SupportedTerm::Integer(1), text("signed"));
    cache.put(SupportedTerm::Unsigned(1), text("unsigned"));
    cache.put(SupportedTerm::Float(1), text("float"));
    cache.put(SupportedTerm::List(vec![num(1)]), text("list"));
    assert_eq!(cache.len(), 4);
    assert_eq!(cache.peek(&SupportedTerm::Integer(1)), Some(&text("signed")));
    assert_eq!(cache.peek(&SupportedTerm::Unsigned(1)), Some(&text("unsigned")));
    assert_eq!(cache.peek(&SupportedTerm::Float(1)), Some(&text("float")));
    assert_eq!(cache.peek(&SupportedTerm::List(vec![num(1)])), Some(&text("list")));
    assert_eq!(cache.peek(&SupportedTerm::Tuple(vec![num(1)])), None);
}

#[test]
fn structured_keys_are_found_by_value() {
    let mut cache = LruCache::new(2);
    let key = SupportedTerm::Tuple(vec![text("user"), num(42), SupportedTerm::List(vec![])]);
    cache.put(key.clone(), text("v"));
    let same = SupportedTerm::Tuple(vec![text("user"), num(42), SupportedTerm::List(vec![])]);
    assert_eq!(cache.get(&same), Some(&text("v")));
    assert_eq!(cache.put(same, text("w")), None);
    assert_eq!(cache.len(), 1);
    assert_eq!(cache.peek(&key), Some(&text("w")));
}

#[test]
fn returned_values_are_copies() {
    let mut cache = LruCache::new(2);
    cache.put(text("a"), SupportedTerm::List(vec![num(1)]));
    let mut keys = cache.keys();
    keys[0] = text("changed");
    let mut list = cache.to_vec();
    list[0].1 = num(0);
    assert_eq!(cache.peek(&text("a")), Some(&SupportedTerm::List(vec![num(1)])));
    assert_eq!(cache.keys(), vec![text("a")]);
}

#[test]
fn largest_capacity_is_a_fixed_share_of_the_address_space() {
    assert_eq!(MAX_CAPACITY, usize::MAX / 128);
}
