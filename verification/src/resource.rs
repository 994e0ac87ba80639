//! The shared handle: one cache behind a lock that is never waited for.

use crate::lru_cache::{LruCache, MAX_CAPACITY};
use crate::model::CacheModel;
use crate::supported_term::{entries_view, items_view, SupportedTerm, TermView};
use std::sync::{Mutex, MutexGuard};
use vstd::prelude::*;

verus! {

/// `std::sync::Mutex`, which Verus carries through without looking inside.
#[verifier::external_type_specification]
#[verifier::external_body]
#[verifier::reject_recursive_types(T)]
pub struct ExMutex<T: ?Sized>(std::sync::Mutex<T>);

/// `std::sync::MutexGuard`: the held lock, released when it is dropped.
#[verifier::external_type_specification]
#[verifier::external_body]
#[verifier::reject_recursive_types(T)]
pub struct ExMutexGuard<'a, T: ?Sized + 'a>(std::sync::MutexGuard<'a, T>);

/// Why an operation on a shared cache gave no result. A caller can recover
/// from each of them.
#[derive(Debug, Clone, Copy, PartialEq, Eq, Structural)]
pub enum CacheError {
    /// A key or a value is of a kind that the cache does not hold.
    UnsupportedType,
    /// The cache has no entry to answer with.
    NotFound,
    /// Another caller holds the lock. Trying again later may succeed.
    LockContention,
}

impl CacheError {
    /// The name under which the error is reported to the host.
    pub fn signal(&self) -> (name: &'static str)
        ensures
            name@ == match self {
                CacheError::UnsupportedType => "unsupported_type"@,
                CacheError::NotFound => "not_found"@,
                CacheError::LockContention => "lock_fail"@,
            },
    {
        match self {
            CacheError::UnsupportedType => "unsupported_type",
            CacheError::NotFound => "not_found",
            CacheError::LockContention => "lock_fail",
        }
    }
}

/// The names of the three errors differ from one another, so that a caller
/// can tell the errors apart.
pub proof fn law_signals_differ()
    ensures
        "unsupported_type"@ != "not_found"@,
        "unsupported_type"@ != "lock_fail"@,
        "not_found"@ != "lock_fail"@,
{
    reveal_strlit("unsupported_type");
    reveal_strlit("not_found");
    reveal_strlit("lock_fail");
    assert("unsupported_type"@.len() == 16);
    assert("not_found"@.len() == 9);
    assert("not_found"@[0] == 'n');
    assert("lock_fail"@[0] == 'l');
}

/// A cache behind a lock, to be shared by any number of callers. The cache
/// lives as long as the longest-lived of them holds the handle.
pub struct LruCacheResource(Mutex<LruCache>);

/// The cache that a lock was made with. What the lock holds later is what
/// its holders have made of that cache, and has no name.
pub uninterp spec fn lock_made_with(lock: Mutex<LruCache>) -> CacheModel;

/// `std::sync::Mutex::new`: puts the cache behind a lock of its own. The
/// lock is made with the cache that is handed in, and with nothing else.
#[verifier::external_body]
fn share(cache: LruCache) -> (resource: LruCacheResource)
    ensures
        lock_made_with(resource.0) == cache@,
{
    LruCacheResource(Mutex::new(cache))
}

/// `std::sync::Mutex::try_lock`: takes the lock if it is free and returns
/// at once if it is not. Whether the lock is free depends on the other
/// callers, so nothing is claimed of the result. A lock that a panicking
/// holder left behind counts as not free.
#[verifier::external_body]
fn try_lock<'a>(resource: &'a LruCacheResource) -> Option<MutexGuard<'a, LruCache>> {
    resource.0.try_lock().ok()
}

/// `DerefMut::deref_mut` of `std::sync::MutexGuard`: the cache that the
/// held lock protects. Nothing is claimed of what it holds.
#[verifier::external_body]
pub(crate) fn guarded<'a, 'b>(guard: &'a mut MutexGuard<'b, LruCache>) -> &'a mut LruCache {
    &mut **guard
}

impl LruCacheResource {
    /// The cache that the handle was made with: the state in which its
    /// first holder finds it.
    pub closed spec fn made_with(&self) -> CacheModel {
        lock_made_with(self.0)
    }

    /// A handle to a new, empty cache that holds at most `capacity`
    /// entries.
    pub fn new(capacity: usize) -> (resource: LruCacheResource)
        requires
            capacity <= MAX_CAPACITY,
        ensures
            resource.made_with() == CacheModel::empty(capacity as nat),
    {
        share(LruCache::new(capacity))
    }

    /// Exclusive access to the cache, without waiting: if another caller
    /// holds the lock, the attempt fails at once with
    /// [`CacheError::LockContention`], and with nothing else.
    pub fn acquire(&self) -> (r: Result<MutexGuard<'_, LruCache>, CacheError>)
        ensures
            r matches Err(e) ==> e == CacheError::LockContention,
    {
        match try_lock(self) {
            Some(guard) => Ok(guard),
            None => Err(CacheError::LockContention),
        }
    }
}

/// No term occurs twice in the sequence.
pub open spec fn distinct_terms(s: Seq<TermView>) -> bool {
    forall|i: int, j: int| 0 <= i < j < s.len() ==> s[i] != s[j]
}

/// No key occurs twice among the entries.
pub open spec fn distinct_entry_keys(e: Seq<(TermView, TermView)>) -> bool {
    forall|i: int, j: int| 0 <= i < j < e.len() ==> e[i].0 != e[j].0
}

/// The outcome of a lookup: the value, or [`CacheError::NotFound`].
pub fn found(value: Option<&SupportedTerm>) -> (r: Result<SupportedTerm, CacheError>)
    ensures
        match value {
            Some(v) => r matches Ok(t) && t@ == v@,
            None => r matches Err(e) && e == CacheError::NotFound,
        },
{
    match value {
        None => Err(CacheError::NotFound),
        Some(v) => Ok(v.clone()),
    }
}

/// Puts `v` under `k` where access was gained: the cache changes as by
/// [`LruCache::put`], and the evicted entry, if any, is returned. Without
/// access the answer is [`CacheError::LockContention`].
pub fn put_in(
    access: Option<&mut LruCache>,
    k: SupportedTerm,
    v: SupportedTerm,
) -> (r: Result<Option<(SupportedTerm, SupportedTerm)>, CacheError>)
    ensures
        match access {
            None => r matches Err(e) && e == CacheError::LockContention,
            Some(cache) => final(cache)@ == cache@.put(k@, v@) && match r {
                Ok(Some((ek, ev))) => cache@.evicted_by(k@) == Some((ek@, ev@)),
                Ok(None) => cache@.evicted_by(k@) is None,
                Err(_) => false,
            },
        },
{
    match access {
        None => Err(CacheError::LockContention),
        Some(cache) => Ok(cache.put(k, v)),
    }
}

/// Looks `k` up where access was gained, and promotes it. A key that is not
/// there gives [`CacheError::NotFound`] and changes nothing. Without access
/// the answer is [`CacheError::LockContention`].
pub fn get_in(
    access: Option<&mut LruCache>,
    k: &SupportedTerm,
) -> (r: Result<SupportedTerm, CacheError>)
    ensures
        match access {
            None => r matches Err(e) && e == CacheError::LockContention,
            Some(cache) => final(cache)@ == cache@.promote(k@) && match r {
                Ok(v) => cache@.peek(k@) == Some(v@),
                Err(e) => e == CacheError::NotFound && cache@.peek(k@) is None,
            },
        },
{
    match access {
        None => Err(CacheError::LockContention),
        Some(cache) => found(cache.get(k)),
    }
}

/// Looks `k` up where access was gained, without promoting it. Without access
/// the answer is [`CacheError::LockContention`].
pub fn peek_in(
    access: Option<&LruCache>,
    k: &SupportedTerm,
) -> (r: Result<SupportedTerm, CacheError>)
    ensures
        match access {
            None => r matches Err(e) && e == CacheError::LockContention,
            Some(cache) => match r {
                Ok(v) => cache@.peek(k@) == Some(v@),
                Err(e) => e == CacheError::NotFound && cache@.peek(k@) is None,
            },
        },
{
    match access {
        None => Err(CacheError::LockContention),
        Some(cache) => found(cache.peek(k)),
    }
}

/// The least recently used entry where access was gained;
/// [`CacheError::NotFound`] if the cache is empty. Without access the answer
/// is [`CacheError::LockContention`].
pub fn peek_lru_in(
    access: Option<&LruCache>,
) -> (r: Result<(SupportedTerm, SupportedTerm), CacheError>)
    ensures
        match access {
            None => r matches Err(e) && e == CacheError::LockContention,
            Some(cache) => match r {
                Ok((k, v)) => cache@.peek_lru() == Some((k@, v@)),
                Err(e) => e == CacheError::NotFound && cache@.peek_lru() is None,
            },
        },
{
    match access {
        None => Err(CacheError::LockContention),
        Some(cache) => match cache.peek_lru() {
            None => Err(CacheError::NotFound),
            Some((k, v)) => Ok((k.clone(), v.clone())),
        },
    }
}

/// Whether `k` is in the cache, where access was gained. Without access the
/// answer is [`CacheError::LockContention`].
pub fn contains_in(access: Option<&LruCache>, k: &SupportedTerm) -> (r: Result<bool, CacheError>)
    ensures
        match access {
            None => r matches Err(e) && e == CacheError::LockContention,
            Some(cache) => r == Ok::<bool, CacheError>(cache@.contains(k@)),
        },
{
    match access {
        None => Err(CacheError::LockContention),
        Some(cache) => Ok(cache.contains(k)),
    }
}

/// Removes `k` where access was gained and returns its value;
/// [`CacheError::NotFound`], and no change, if it is not there. Without
/// access the answer is [`CacheError::LockContention`].
pub fn pop_in(
    access: Option<&mut LruCache>,
    k: &SupportedTerm,
) -> (r: Result<SupportedTerm, CacheError>)
    ensures
        match access {
            None => r matches Err(e) && e == CacheError::LockContention,
            Some(cache) => final(cache)@ == cache@.without(k@) && match r {
                Ok(v) => cache@.peek(k@) == Some(v@),
                Err(e) => e == CacheError::NotFound && cache@.peek(k@) is None,
            },
        },
{
    match access {
        None => Err(CacheError::LockContention),
        Some(cache) => match cache.pop(k) {
            None => Err(CacheError::NotFound),
            Some(v) => Ok(v),
        },
    }
}

/// Removes the least recently used entry where access was gained and returns
/// it; [`CacheError::NotFound`] if the cache is empty. Without access the
/// answer is [`CacheError::LockContention`].
pub fn pop_lru_in(
    access: Option<&mut LruCache>,
) -> (r: Result<(SupportedTerm, SupportedTerm), CacheError>)
    ensures
        match access {
            None => r matches Err(e) && e == CacheError::LockContention,
            Some(cache) => final(cache)@ == cache@.without_lru() && match r {
                Ok((k, v)) => cache@.peek_lru() == Some((k@, v@)),
                Err(e) => e == CacheError::NotFound && cache@.peek_lru() is None,
            },
        },
{
    match access {
        None => Err(CacheError::LockContention),
        Some(cache) => match cache.pop_lru() {
            None => Err(CacheError::NotFound),
            Some(kv) => Ok(kv),
        },
    }
}

/// The number of entries, where access was gained. Without access the answer
/// is [`CacheError::LockContention`].
pub fn len_in(access: Option<&LruCache>) -> (r: Result<usize, CacheError>)
    ensures
        match access {
            None => r matches Err(e) && e == CacheError::LockContention,
            Some(cache) => r matches Ok(n) && n == cache@.len() && n <= cache@.capacity,
        },
{
    match access {
        None => Err(CacheError::LockContention),
        Some(cache) => Ok(cache.len()),
    }
}

/// Whether the cache is empty, where access was gained. Without access the
/// answer is [`CacheError::LockContention`].
pub fn is_empty_in(access: Option<&LruCache>) -> (r: Result<bool, CacheError>)
    ensures
        match access {
            None => r matches Err(e) && e == CacheError::LockContention,
            Some(cache) => r == Ok::<bool, CacheError>(cache@.len() == 0),
        },
{
    match access {
        None => Err(CacheError::LockContention),
        Some(cache) => Ok(cache.is_empty()),
    }
}

/// The capacity of the cache, where access was gained. Without access the
/// answer is [`CacheError::LockContention`].
pub fn cap_in(access: Option<&LruCache>) -> (r: Result<usize, CacheError>)
    ensures
        match access {
            None => r matches Err(e) && e == CacheError::LockContention,
            Some(cache) => r matches Ok(n) && n == cache@.capacity,
        },
{
    match access {
        None => Err(CacheError::LockContention),
        Some(cache) => Ok(cache.cap()),
    }
}

/// Removes every entry where access was gained. Without access the answer is
/// [`CacheError::LockContention`].
pub fn clear_in(access: Option<&mut LruCache>) -> (r: Result<(), CacheError>)
    ensures
        match access {
            None => r matches Err(e) && e == CacheError::LockContention,
            Some(cache) => final(cache)@ == cache@.clear() && r is Ok,
        },
{
    match access {
        None => Err(CacheError::LockContention),
        Some(cache) => {
            cache.clear();
            Ok(())
        },
    }
}

/// The keys from the most recently used to the least recently used, where
/// access was gained; none of them occurs twice. Without access the answer
/// is [`CacheError::LockContention`].
pub fn keys_in(access: Option<&LruCache>) -> (r: Result<Vec<SupportedTerm>, CacheError>)
    ensures
        match access {
            None => r matches Err(e) && e == CacheError::LockContention,
            Some(cache) => r matches Ok(keys) && items_view(keys@) == cache@.keys()
                && distinct_terms(items_view(keys@)),
        },
{
    match access {
        None => Err(CacheError::LockContention),
        Some(cache) => {
            let keys = cache.keys();
            assert(distinct_terms(cache@.keys())) by {
                let all = cache@.keys();
                assert forall|i: int, j: int| 0 <= i < j < all.len() implies all[i] != all[j] by {
                    assert(cache@.entries[i].0 != cache@.entries[j].0);
                }
            }
            Ok(keys)
        },
    }
}

/// The values in the order of their keys, where access was gained. Without
/// access the answer is [`CacheError::LockContention`].
pub fn values_in(access: Option<&LruCache>) -> (r: Result<Vec<SupportedTerm>, CacheError>)
    ensures
        match access {
            None => r matches Err(e) && e == CacheError::LockContention,
            Some(cache) => r matches Ok(values) && items_view(values@) == cache@.values(),
        },
{
    match access {
        None => Err(CacheError::LockContention),
        Some(cache) => Ok(cache.values()),
    }
}

/// The entries from the most recently used to the least recently used, where
/// access was gained; no key occurs twice among them. Without access the
/// answer is [`CacheError::LockContention`].
pub fn to_list_in(
    access: Option<&LruCache>,
) -> (r: Result<Vec<(SupportedTerm, SupportedTerm)>, CacheError>)
    ensures
        match access {
            None => r matches Err(e) && e == CacheError::LockContention,
            Some(cache) => r matches Ok(list) && entries_view(list@) == cache@.entries
                && distinct_entry_keys(entries_view(list@)),
        },
{
    match access {
        None => Err(CacheError::LockContention),
        Some(cache) => Ok(cache.to_vec()),
    }
}

} // verus!
