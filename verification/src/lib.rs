//! A bounded cache of terms that evicts the least recently used entry,
//! shared through a handle whose lock is never waited for.
//!
//! The functions of this file are the entry points: each converts its
//! arguments, tries the lock once, works on the cache and maps the outcome.

pub mod dict;
pub mod digest;
pub mod host_value;
pub mod lru_cache;
pub mod model;
pub mod rank;
pub mod resource;
pub mod supported_term;

use crate::host_value::HostValue;
use crate::lru_cache::MAX_CAPACITY;
use crate::model::CacheModel;
use crate::resource::{
    cap_in, clear_in, contains_in, distinct_entry_keys, distinct_terms, get_in, guarded,
    is_empty_in, keys_in, len_in, peek_in, peek_lru_in, pop_in, pop_lru_in, put_in, to_list_in,
    values_in, CacheError, LruCacheResource,
};
use crate::supported_term::{entries_view, items_view, SupportedTerm};
use vstd::prelude::*;

verus! {

/// A handle to a new, empty cache that holds at most `capacity` entries.
pub fn new(capacity: usize) -> (resource: LruCacheResource)
    requires
        capacity <= MAX_CAPACITY,
    ensures
        resource.made_with() == CacheModel::empty(capacity as nat),
{
    LruCacheResource::new(capacity)
}

/// Puts `v` under `k` and returns the entry that had to leave, if any. An
/// argument that the cache cannot hold gives [`CacheError::UnsupportedType`]
/// before the lock is tried. [`CacheError::LockContention`] says that another
/// caller holds the lock. What is returned otherwise, [`put_in`] states of
/// the cache that the lock gave.
pub fn put(
    resource: &LruCacheResource,
    k: &HostValue,
    v: &HostValue,
) -> (r: Result<Option<(SupportedTerm, SupportedTerm)>, CacheError>)
    ensures
        (r matches Err(e) && e == CacheError::UnsupportedType) <==> !(
            k@.supported() && v@.supported()
        ),
        !(r matches Err(e) && e == CacheError::NotFound),
{
    let k = match SupportedTerm::from(k) {
        Some(term) => term,
        None => {
            return Err(CacheError::UnsupportedType);
        },
    };
    let v = match SupportedTerm::from(v) {
        Some(term) => term,
        None => {
            return Err(CacheError::UnsupportedType);
        },
    };
    match resource.acquire() {
        Err(_) => put_in(None, k, v),
        Ok(mut guard) => put_in(Some(guarded(&mut guard)), k, v),
    }
}

/// The value under `k`, which becomes the most recently used key. An argument
/// that the cache cannot hold gives [`CacheError::UnsupportedType`] before
/// the lock is tried. [`CacheError::NotFound`] says that there is no such
/// entry. [`CacheError::LockContention`] says that another caller holds the
/// lock. What is returned otherwise, [`get_in`] states of the cache that the
/// lock gave.
pub fn get(resource: &LruCacheResource, k: &HostValue) -> (r: Result<SupportedTerm, CacheError>)
    ensures
        (r matches Err(e) && e == CacheError::UnsupportedType) <==> !(k@.supported()),
{
    let k = match SupportedTerm::from(k) {
        Some(term) => term,
        None => {
            return Err(CacheError::UnsupportedType);
        },
    };
    match resource.acquire() {
        Err(_) => get_in(None, &k),
        Ok(mut guard) => get_in(Some(guarded(&mut guard)), &k),
    }
}

/// The value under `k`. The order of use stays as it is. An argument that the
/// cache cannot hold gives [`CacheError::UnsupportedType`] before the lock is
/// tried. [`CacheError::NotFound`] says that there is no such entry.
/// [`CacheError::LockContention`] says that another caller holds the lock.
/// What is returned otherwise, [`peek_in`] states of the cache that the lock
/// gave.
pub fn peek(resource: &LruCacheResource, k: &HostValue) -> (r: Result<SupportedTerm, CacheError>)
    ensures
        (r matches Err(e) && e == CacheError::UnsupportedType) <==> !(k@.supported()),
{
    let k = match SupportedTerm::from(k) {
        Some(term) => term,
        None => {
            return Err(CacheError::UnsupportedType);
        },
    };
    match resource.acquire() {
        Err(_) => peek_in(None, &k),
        Ok(mut guard) => peek_in(Some(&*guarded(&mut guard)), &k),
    }
}

/// The least recently used entry, which stays where it is.
/// [`CacheError::NotFound`] says that there is no such entry.
/// [`CacheError::LockContention`] says that another caller holds the lock.
/// What is returned otherwise, [`peek_lru_in`] states of the cache that the
/// lock gave.
pub fn peek_lru(
    resource: &LruCacheResource,
) -> (r: Result<(SupportedTerm, SupportedTerm), CacheError>)
    ensures
        !(r matches Err(e) && e == CacheError::UnsupportedType),
{
    match resource.acquire() {
        Err(_) => peek_lru_in(None),
        Ok(mut guard) => peek_lru_in(Some(&*guarded(&mut guard))),
    }
}

/// Whether `k` is in the cache. An argument that the cache cannot hold gives
/// [`CacheError::UnsupportedType`] before the lock is tried.
/// [`CacheError::LockContention`] says that another caller holds the lock.
/// What is returned otherwise, [`contains_in`] states of the cache that the
/// lock gave.
pub fn contains(resource: &LruCacheResource, k: &HostValue) -> (r: Result<bool, CacheError>)
    ensures
        (r matches Err(e) && e == CacheError::UnsupportedType) <==> !(k@.supported()),
        !(r matches Err(e) && e == CacheError::NotFound),
{
    let k = match SupportedTerm::from(k) {
        Some(term) => term,
        None => {
            return Err(CacheError::UnsupportedType);
        },
    };
    match resource.acquire() {
        Err(_) => contains_in(None, &k),
        Ok(mut guard) => contains_in(Some(&*guarded(&mut guard)), &k),
    }
}

/// Removes `k` and returns its value. An argument that the cache cannot hold
/// gives [`CacheError::UnsupportedType`] before the lock is tried.
/// [`CacheError::NotFound`] says that there is no such entry.
/// [`CacheError::LockContention`] says that another caller holds the lock.
/// What is returned otherwise, [`pop_in`] states of the cache that the lock
/// gave.
pub fn pop(resource: &LruCacheResource, k: &HostValue) -> (r: Result<SupportedTerm, CacheError>)
    ensures
        (r matches Err(e) && e == CacheError::UnsupportedType) <==> !(k@.supported()),
{
    let k = match SupportedTerm::from(k) {
        Some(term) => term,
        None => {
            return Err(CacheError::UnsupportedType);
        },
    };
    match resource.acquire() {
        Err(_) => pop_in(None, &k),
        Ok(mut guard) => pop_in(Some(guarded(&mut guard)), &k),
    }
}

/// Removes the least recently used entry and returns it.
/// [`CacheError::NotFound`] says that there is no such entry.
/// [`CacheError::LockContention`] says that another caller holds the lock.
/// What is returned otherwise, [`pop_lru_in`] states of the cache that the
/// lock gave.
pub fn pop_lru(
    resource: &LruCacheResource,
) -> (r: Result<(SupportedTerm, SupportedTerm), CacheError>)
    ensures
        !(r matches Err(e) && e == CacheError::UnsupportedType),
{
    match resource.acquire() {
        Err(_) => pop_lru_in(None),
        Ok(mut guard) => pop_lru_in(Some(guarded(&mut guard))),
    }
}

/// The number of entries. [`CacheError::LockContention`] says that another
/// caller holds the lock. What is returned otherwise, [`len_in`] states of
/// the cache that the lock gave.
pub fn len(resource: &LruCacheResource) -> (r: Result<usize, CacheError>)
    ensures
        !(r matches Err(e) && e == CacheError::UnsupportedType),
        !(r matches Err(e) && e == CacheError::NotFound),
{
    match resource.acquire() {
        Err(_) => len_in(None),
        Ok(mut guard) => len_in(Some(&*guarded(&mut guard))),
    }
}

/// Whether the cache is empty. [`CacheError::LockContention`] says that
/// another caller holds the lock. What is returned otherwise, [`is_empty_in`]
/// states of the cache that the lock gave.
pub fn is_empty(resource: &LruCacheResource) -> (r: Result<bool, CacheError>)
    ensures
        !(r matches Err(e) && e == CacheError::UnsupportedType),
        !(r matches Err(e) && e == CacheError::NotFound),
{
    match resource.acquire() {
        Err(_) => is_empty_in(None),
        Ok(mut guard) => is_empty_in(Some(&*guarded(&mut guard))),
    }
}

/// The capacity of the cache. [`CacheError::LockContention`] says that
/// another caller holds the lock. What is returned otherwise, [`cap_in`]
/// states of the cache that the lock gave.
pub fn cap(resource: &LruCacheResource) -> (r: Result<usize, CacheError>)
    ensures
        !(r matches Err(e) && e == CacheError::UnsupportedType),
        !(r matches Err(e) && e == CacheError::NotFound),
{
    match resource.acquire() {
        Err(_) => cap_in(None),
        Ok(mut guard) => cap_in(Some(&*guarded(&mut guard))),
    }
}

/// Removes every entry. [`CacheError::LockContention`] says that another
/// caller holds the lock. What is returned otherwise, [`clear_in`] states of
/// the cache that the lock gave.
pub fn clear(resource: &LruCacheResource) -> (r: Result<(), CacheError>)
    ensures
        !(r matches Err(e) && e == CacheError::UnsupportedType),
        !(r matches Err(e) && e == CacheError::NotFound),
{
    match resource.acquire() {
        Err(_) => clear_in(None),
        Ok(mut guard) => clear_in(Some(guarded(&mut guard))),
    }
}

/// The keys, from the most recently used to the least recently used, each
/// of them once. [`CacheError::LockContention`] says that another caller
/// holds the lock. What is returned otherwise, [`keys_in`] states of the
/// cache that the lock gave.
pub fn keys(resource: &LruCacheResource) -> (r: Result<Vec<SupportedTerm>, CacheError>)
    ensures
        !(r matches Err(e) && e == CacheError::UnsupportedType),
        !(r matches Err(e) && e == CacheError::NotFound),
        r matches Ok(keys) ==> distinct_terms(items_view(keys@)),
{
    match resource.acquire() {
        Err(_) => keys_in(None),
        Ok(mut guard) => keys_in(Some(&*guarded(&mut guard))),
    }
}

/// The values, in the order of their keys. [`CacheError::LockContention`]
/// says that another caller holds the lock. What is returned otherwise,
/// [`values_in`] states of the cache that the lock gave.
pub fn values(resource: &LruCacheResource) -> (r: Result<Vec<SupportedTerm>, CacheError>)
    ensures
        !(r matches Err(e) && e == CacheError::UnsupportedType),
        !(r matches Err(e) && e == CacheError::NotFound),
{
    match resource.acquire() {
        Err(_) => values_in(None),
        Ok(mut guard) => values_in(Some(&*guarded(&mut guard))),
    }
}

/// The entries, from the most recently used to the least recently used,
/// each key once. [`CacheError::LockContention`] says that another caller
/// holds the lock. What is returned otherwise, [`to_list_in`] states of the
/// cache that the lock gave.
pub fn to_list(
    resource: &LruCacheResource,
) -> (r: Result<Vec<(SupportedTerm, SupportedTerm)>, CacheError>)
    ensures
        !(r matches Err(e) && e == CacheError::UnsupportedType),
        !(r matches Err(e) && e == CacheError::NotFound),
        r matches Ok(list) ==> distinct_entry_keys(entries_view(list@)),
{
    match resource.acquire() {
        Err(_) => to_list_in(None),
        Ok(mut guard) => to_list_in(Some(&*guarded(&mut guard))),
    }
}

} // verus!
