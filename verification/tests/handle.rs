use lru_cache_nif::host_value::HostValue;
use lru_cache_nif::resource::{
    cap_in, clear_in, contains_in, found, get_in, is_empty_in, keys_in, len_in, peek_in,
    peek_lru_in, pop_in, pop_lru_in, put_in, to_list_in, values_in, CacheError, LruCacheResource,
};
use lru_cache_nif::lru_cache::LruCache;
use lru_cache_nif::supported_term::SupportedTerm;

fn htext(s: &str) -> HostValue {
    HostValue::Text(s.to_string())
}

fn text(s: &str) -> SupportedTerm {
    SupportedTerm::Text(s.to_string())
}

fn num(n: i64) -> SupportedTerm {
    SupportedTerm::Integer(n)
}

#[test]
fn handle_runs_the_engine() {
    let resource = lru_cache_nif::new(2);
    assert_eq!(lru_cache_nif::cap(&resource), Ok(2));
    assert_eq!(lru_cache_nif::is_empty(&resource), Ok(true));
    assert_eq!(lru_cache_nif::put(&resource, &htext("a"), &HostValue::Integer(1)), Ok(None));
    assert_eq!(lru_cache_nif::put(&resource, &htext("b"), &HostValue::Integer(2)), Ok(None));
    assert_eq!(lru_cache_nif::len(&resource), Ok(2));
    assert_eq!(lru_cache_nif::is_empty(&resource), Ok(false));
    assert_eq!(lru_cache_nif::get(&resource, &htext("a")), Ok(num(1)));
    assert_eq!(
        lru_cache_nif::put(&resource, &htext("c"), &HostValue::Integer(3)),
        Ok(Some((text("b"), num(2))))
    );
    assert_eq!(lru_cache_nif::contains(&resource, &htext("b")), Ok(false));
    assert_eq!(lru_cache_nif::contains(&resource, &htext("c")), Ok(true));
    assert_eq!(lru_cache_nif::peek(&resource, &htext("a")), Ok(num(1)));
    assert_eq!(lru_cache_nif::peek_lru(&resource), Ok((text("a"), num(1))));
    assert_eq!(lru_cache_nif::keys(&resource), Ok(vec![text("c"), text("a")]));
    assert_eq!(lru_cache_nif::values(&resource), Ok(vec![num(3), num(1)]));
    assert_eq!(
        lru_cache_nif::to_list(&resource),
        Ok(vec![(text("c"), num(3)), (text("a"), num(1))])
    );
    assert_eq!(lru_cache_nif::pop(&resource, &htext("c")), Ok(num(3)));
    assert_eq!(lru_cache_nif::pop_lru(&resource), Ok((text("a"), num(1))));
    assert_eq!(lru_cache_nif::len(&resource), Ok(0));
}

#[test]
fn missing_entries_are_not_found() {
    let resource = lru_cache_nif::new(2);
    assert_eq!(lru_cache_nif::get(&resource, &htext("a")), Err(CacheError::NotFound));
    assert_eq!(lru_cache_nif::peek(&resource, &htext("a")), Err(CacheError::NotFound));
    assert_eq!(lru_cache_nif::pop(&resource, &htext("a")), Err(CacheError::NotFound));
    assert_eq!(lru_cache_nif::peek_lru(&resource), Err(CacheError::NotFound));
    assert_eq!(lru_cache_nif::pop_lru(&resource), Err(CacheError::NotFound));
}

#[test]
fn clear_through_the_handle() {
    let resource = lru_cache_nif::new(2);
    lru_cache_nif::put(&resource, &htext("a"), &HostValue::Integer(1)).unwrap();
    lru_cache_nif::put(&resource, &htext("b"), &HostValue::Integer(2)).unwrap();
    assert_eq!(lru_cache_nif::clear(&resource), Ok(()));
    assert_eq!(lru_cache_nif::len(&resource), Ok(0));
    assert_eq!(lru_cache_nif::cap(&resource), Ok(2));
    assert_eq!(lru_cache_nif::get(&resource, &htext("a")), Err(CacheError::NotFound));
    assert_eq!(lru_cache_nif::get(&resource, &htext("b")), Err(CacheError::NotFound));
}

#[test]
fn unsupported_arguments_are_refused() {
    let resource = lru_cache_nif::new(2);
    let bad = HostValue::List(vec![HostValue::Integer(1), HostValue::Opaque]);
    assert_eq!(
        lru_cache_nif::put(&resource, &HostValue::Opaque, &HostValue::Integer(1)),
        Err(CacheError::UnsupportedType)
    );
    assert_eq!(
        lru_cache_nif::put(&resource, &HostValue::Integer(1), &bad),
        Err(CacheError::UnsupportedType)
    );
    assert_eq!(lru_cache_nif::get(&resource, &bad), Err(CacheError::UnsupportedType));
    assert_eq!(lru_cache_nif::peek(&resource, &bad), Err(CacheError::UnsupportedType));
    assert_eq!(lru_cache_nif::contains(&resource, &bad), Err(CacheError::UnsupportedType));
    assert_eq!(lru_cache_nif::pop(&resource, &bad), Err(CacheError::UnsupportedType));
    assert_eq!(lru_cache_nif::len(&resource), Ok(0));
}

#[test]
fn contention_fails_at_once_and_changes_nothing() {
    let resource = lru_cache_nif::new(2);
    lru_cache_nif::put(&resource, &htext("a"), &HostValue::Integer(1)).unwrap();
    lru_cache_nif::put(&resource, &htext("b"), &HostValue::Integer(2)).unwrap();
    let before = lru_cache_nif::to_list(&resource).unwrap();
    let guard = resource.acquire().unwrap();
    let contended = Err(CacheError::LockContention);
    assert_eq!(lru_cache_nif::put(&resource, &htext("c"), &HostValue::Integer(3)), contended);
    assert_eq!(lru_cache_nif::get(&resource, &htext("a")), Err(CacheError::LockContention));
    assert_eq!(lru_cache_nif::peek(&resource, &htext("a")), Err(CacheError::LockContention));
    assert_eq!(lru_cache_nif::peek_lru(&resource), Err(CacheError::LockContention));
    assert_eq!(lru_cache_nif::contains(&resource, &htext("a")), Err(CacheError::LockContention));
    assert_eq!(lru_cache_nif::pop(&resource, &htext("a")), Err(CacheError::LockContention));
    assert_eq!(lru_cache_nif::pop_lru(&resource), Err(CacheError::LockContention));
    assert_eq!(lru_cache_nif::len(&resource), Err(CacheError::LockContention));
    assert_eq!(lru_cache_nif::is_empty(&resource), Err(CacheError::LockContention));
    assert_eq!(lru_cache_nif::cap(&resource), Err(CacheError::LockContention));
    assert_eq!(lru_cache_nif::clear(&resource), Err(CacheError::LockContention));
    assert_eq!(lru_cache_nif::keys(&resource), Err(CacheError::LockContention));
    assert_eq!(lru_cache_nif::values(&resource), Err(CacheError::LockContention));
    assert_eq!(lru_cache_nif::to_list(&resource), Err(CacheError::LockContention));
    assert!(matches!(resource.acquire(), Err(CacheError::LockContention)));
    drop(guard);
    assert_eq!(lru_cache_nif::to_list(&resource), Ok(before));
    assert_eq!(lru_cache_nif::len(&resource), Ok(2));
}

#[test]
fn unsupported_argument_is_reported_before_contention() {
    let resource = lru_cache_nif::new(2);
    let guard = resource.acquire().unwrap();
    assert_eq!(lru_cache_nif::get(&resource, &HostValue::Opaque), Err(CacheError::UnsupportedType));
    assert_eq!(
        lru_cache_nif::put(&resource, &htext("a"), &HostValue::Opaque),
        Err(CacheError::UnsupportedType)
    );
    drop(guard);
}

#[test]
fn acquired_guard_gives_the_cache() {
    let resource = LruCacheResource::new(1);
    {
        let mut guard = resource.acquire().unwrap();
        assert_eq!(guard.put(text("a"), num(1)), None);
        assert_eq!(guard.len(), 1);
    }
    assert_eq!(lru_cache_nif::get(&resource, &htext("a")), Ok(num(1)));
}

#[test]
fn lock_is_released_after_each_operation() {
    let resource = lru_cache_nif::new(1);
    for i in 0..10 {
        assert!(lru_cache_nif::put(&resource, &HostValue::Integer(i), &HostValue::Integer(i)).is_ok());
        assert_eq!(lru_cache_nif::len(&resource), Ok(1));
    }
}

#[test]
fn found_maps_a_lookup() {
    assert_eq!(found(Some(&num(5))), Ok(num(5)));
    assert_eq!(found(None), Err(CacheError::NotFound));
}

#[test]
fn operations_without_access_report_contention() {
    let k = text("a");
    assert_eq!(put_in(None, text("a"), num(1)), Err(CacheError::LockContention));
    assert_eq!(get_in(None, &k), Err(CacheError::LockContention));
    assert_eq!(peek_in(None, &k), Err(CacheError::LockContention));
    assert_eq!(peek_lru_in(None), Err(CacheError::LockContention));
    assert_eq!(contains_in(None, &k), Err(CacheError::LockContention));
    assert_eq!(pop_in(None, &k), Err(CacheError::LockContention));
    assert_eq!(pop_lru_in(None), Err(CacheError::LockContention));
    assert_eq!(len_in(None), Err(CacheError::LockContention));
    assert_eq!(is_empty_in(None), Err(CacheError::LockContention));
    assert_eq!(cap_in(None), Err(CacheError::LockContention));
    assert_eq!(clear_in(None), Err(CacheError::LockContention));
    assert_eq!(keys_in(None), Err(CacheError::LockContention));
    assert_eq!(values_in(None), Err(CacheError::LockContention));
    assert_eq!(to_list_in(None), Err(CacheError::LockContention));
}

#[test]
fn operations_with_access_work_on_the_cache() {
    let mut cache = LruCache::new(2);
    assert_eq!(put_in(Some(&mut cache), text("a"), num(1)), Ok(None));
    assert_eq!(put_in(Some(&mut cache), text("b"), num(2)), Ok(None));
    assert_eq!(get_in(Some(&mut cache), &text("a")), Ok(num(1)));
    assert_eq!(get_in(Some(&mut cache), &text("z")), Err(CacheError::NotFound));
    assert_eq!(peek_in(Some(&cache), &text("b")), Ok(num(2)));
    assert_eq!(peek_lru_in(Some(&cache)), Ok((text("b"), num(2))));
    assert_eq!(contains_in(Some(&cache), &text("b")), Ok(true));
    assert_eq!(len_in(Some(&cache)), Ok(2));
    assert_eq!(is_empty_in(Some(&cache)), Ok(false));
    assert_eq!(cap_in(Some(&cache)), Ok(2));
    assert_eq!(keys_in(Some(&cache)), Ok(vec![text("a"), text("b")]));
    assert_eq!(values_in(Some(&cache)), Ok(vec![num(1), num(2)]));
    assert_eq!(to_list_in(Some(&cache)), Ok(vec![(text("a"), num(1)), (text("b"), num(2))]));
    assert_eq!(put_in(Some(&mut cache), text("c"), num(3)), Ok(Some((text("b"), num(2)))));
    assert_eq!(pop_in(Some(&mut cache), &text("a")), Ok(num(1)));
    assert_eq!(pop_in(Some(&mut cache), &text("a")), Err(CacheError::NotFound));
    assert_eq!(pop_lru_in(Some(&mut cache)), Ok((text("c"), num(3))));
    assert_eq!(pop_lru_in(Some(&mut cache)), Err(CacheError::NotFound));
    assert_eq!(put_in(Some(&mut cache), text("d"), num(4)), Ok(None));
    assert_eq!(clear_in(Some(&mut cache)), Ok(()));
    assert_eq!(cache.len(), 0);
}

#[test]
fn dict_keys_are_found_whatever_the_order_of_their_entries() {
    let resource = lru_cache_nif::new(2);
    let key = HostValue::Dict(vec![
        (htext("x"), HostValue::Integer(1)),
        (htext("y"), HostValue::Integer(2)),
    ]);
    let same = HostValue::Dict(vec![
        (htext("y"), HostValue::Integer(2)),
        (htext("x"), HostValue::Integer(1)),
    ]);
    assert_eq!(lru_cache_nif::put(&resource, &key, &HostValue::Integer(7)), Ok(None));
    assert_eq!(lru_cache_nif::get(&resource, &same), Ok(num(7)));
    assert_eq!(lru_cache_nif::put(&resource, &same, &HostValue::Integer(8)), Ok(None));
    assert_eq!(lru_cache_nif::len(&resource), Ok(1));
    assert_eq!(lru_cache_nif::peek(&resource, &key), Ok(num(8)));
}

#[test]
fn errors_have_three_different_names() {
    assert_eq!(CacheError::UnsupportedType.signal(), "unsupported_type");
    assert_eq!(CacheError::NotFound.signal(), "not_found");
    assert_eq!(CacheError::LockContention.signal(), "lock_fail");
}
