//! The cache engine: a bounded store of terms that keeps its entries in the
//! order of their last use.

use crate::model::CacheModel;
use crate::supported_term::{entries_view, items_view, SupportedTerm, TermView};
use vstd::prelude::*;

verus! {

/// The largest capacity a cache can be made with. The index of the store
/// is allocated at once for the whole capacity, and up to this bound the
/// size of that allocation is computed without overflow.
pub const MAX_CAPACITY: usize = usize::MAX / 128;

/// The store of the `lru` crate: a hash index over a doubly linked list
/// that is ordered by recency. Verus does not look inside it. What it holds
/// is named by [`store_entries`] and [`store_limit`], and the functions
/// below state what each of its methods does to them. The store finds a
/// key by its `Hash` and its `==`: the statements rest on `==` of terms
/// being equality of their values, which is proved, and on the derived
/// `Hash` giving equal terms equal hashes. None of the methods unwinds.
#[verifier::external_body]
pub struct Store {
    inner: lru::LruCache<SupportedTerm, SupportedTerm>,
}

/// The entries that a store holds, most recently used first.
pub uninterp spec fn store_entries(store: Store) -> Seq<(TermView, TermView)>;

/// The capacity that a store was made with.
pub uninterp spec fn store_limit(store: Store) -> nat;

/// What a store holds, as a cache state.
pub open spec fn store_model(store: Store) -> CacheModel {
    CacheModel { entries: store_entries(store), capacity: store_limit(store) }
}

/// `lru::LruCache::new`: an empty store with the capacity `cap`. The hash
/// index is allocated for `cap` entries at once; its size is computed
/// without overflow, and so without a panic, up to [`MAX_CAPACITY`].
#[verifier::external_body]
fn store_new(cap: usize) -> (store: Store)
    requires
        cap <= MAX_CAPACITY,
    ensures
        store_entries(store) == Seq::<(TermView, TermView)>::empty(),
        store_limit(store) == cap,
{
    Store { inner: lru::LruCache::new(cap) }
}

/// `lru::LruCache::put`. A present key keeps its entry, which gets the
/// value `v` and moves to the front; the old value is returned. A new key
/// enters at the front, in place of the last entry if the store is full; a
/// store of capacity zero takes nothing. `None` is returned for a new key.
#[verifier::external_body]
fn store_put(store: &mut Store, k: SupportedTerm, v: SupportedTerm) -> (previous: Option<
    SupportedTerm,
>)
    ensures
        store_limit(*final(store)) == store_limit(*old(store)),
        ({
            let before = store_model(*old(store));
            let after = store_entries(*final(store));
            match previous {
                Some(p) => exists|i: int|
                    #[trigger] before.key_at(k@, i) && p@ == before.entries[i].1 && after == seq![
                        (k@, v@),
                    ] + before.entries.remove(i),
                None => before.lacks(k@) && after == if before.capacity == 0 {
                    before.entries
                } else if before.entries.len() == before.capacity {
                    seq![(k@, v@)] + before.entries.drop_last()
                } else {
                    seq![(k@, v@)] + before.entries
                },
            }
        }),
    no_unwind
{
    store.inner.put(k, v)
}

/// `lru::LruCache::get`: the value under `k`, whose entry moves to the
/// front; `None`, and no change, if no entry has that key.
#[verifier::external_body]
fn store_get<'a>(store: &'a mut Store, k: &SupportedTerm) -> (found: Option<&'a SupportedTerm>)
    ensures
        store_limit(*final(store)) == store_limit(*old(store)),
        ({
            let before = store_model(*old(store));
            let after = store_entries(*final(store));
            match found {
                Some(v) => exists|i: int|
                    #[trigger] before.key_at(k@, i) && v@ == before.entries[i].1 && after == seq![
                        before.entries[i],
                    ] + before.entries.remove(i),
                None => before.lacks(k@) && after == before.entries,
            }
        }),
    no_unwind
{
    store.inner.get(k)
}

/// `lru::LruCache::peek`: the value under `k`, or `None` if no entry has
/// that key.
#[verifier::external_body]
fn store_peek<'a>(store: &'a Store, k: &SupportedTerm) -> (found: Option<&'a SupportedTerm>)
    ensures
        match found {
            Some(v) => exists|i: int|
                #[trigger] store_model(*store).key_at(k@, i) && v@ == store_entries(*store)[i].1,
            None => store_model(*store).lacks(k@),
        },
{
    store.inner.peek(k)
}

/// `lru::LruCache::peek_lru`: the last entry, or `None` if the store is
/// empty.
#[verifier::external_body]
fn store_peek_lru<'a>(store: &'a Store) -> (last: Option<(&'a SupportedTerm, &'a SupportedTerm)>)
    ensures
        match last {
            Some((k, v)) => store_entries(*store).len() > 0 && store_entries(*store).last() == (
                k@,
                v@,
            ),
            None => store_entries(*store).len() == 0,
        },
{
    store.inner.peek_lru()
}

/// `lru::LruCache::contains`: whether an entry has the key `k`.
#[verifier::external_body]
fn store_contains(store: &Store, k: &SupportedTerm) -> (found: bool)
    ensures
        found ==> exists|i: int| #[trigger] store_model(*store).key_at(k@, i),
        !found ==> store_model(*store).lacks(k@),
{
    store.inner.contains(k)
}

/// `lru::LruCache::pop`: removes the entry of `k` and returns its value;
/// `None`, and no change, if no entry has that key.
#[verifier::external_body]
fn store_pop(store: &mut Store, k: &SupportedTerm) -> (removed: Option<SupportedTerm>)
    ensures
        store_limit(*final(store)) == store_limit(*old(store)),
        ({
            let before = store_model(*old(store));
            let after = store_entries(*final(store));
            match removed {
                Some(v) => exists|i: int|
                    #[trigger] before.key_at(k@, i) && v@ == before.entries[i].1 && after
                        == before.entries.remove(i),
                None => before.lacks(k@) && after == before.entries,
            }
        }),
    no_unwind
{
    store.inner.pop(k)
}

/// `lru::LruCache::pop_lru`: removes and returns the last entry; `None`,
/// and no change, if the store is empty.
#[verifier::external_body]
fn store_pop_lru(store: &mut Store) -> (removed: Option<(SupportedTerm, SupportedTerm)>)
    ensures
        store_limit(*final(store)) == store_limit(*old(store)),
        ({
            let before = store_entries(*old(store));
            let after = store_entries(*final(store));
            match removed {
                Some((k, v)) => before.len() > 0 && before.last() == (k@, v@) && after
                    == before.drop_last(),
                None => before.len() == 0 && after == before,
            }
        }),
    no_unwind
{
    store.inner.pop_lru()
}

/// `lru::LruCache::len`: the number of entries.
#[verifier::external_body]
fn store_len(store: &Store) -> (n: usize)
    ensures
        n == store_entries(*store).len(),
{
    store.inner.len()
}

/// `lru::LruCache::is_empty`: whether there is no entry.
#[verifier::external_body]
fn store_is_empty(store: &Store) -> (empty: bool)
    ensures
        empty == (store_entries(*store).len() == 0),
{
    store.inner.is_empty()
}

/// `lru::LruCache::cap`: the capacity that the store was made with.
#[verifier::external_body]
fn store_cap(store: &Store) -> (cap: usize)
    ensures
        cap == store_limit(*store),
{
    store.inner.cap()
}

/// `lru::LruCache::clear`: removes every entry.
#[verifier::external_body]
fn store_clear(store: &mut Store)
    ensures
        store_limit(*final(store)) == store_limit(*old(store)),
        store_entries(*final(store)) == Seq::<(TermView, TermView)>::empty(),
    no_unwind
{
    store.inner.clear()
}

/// `lru::LruCache::iter`: the entries in their order, most recently used
/// first, collected into a vector.
#[verifier::external_body]
fn store_iter<'a>(store: &'a Store) -> (all: Vec<(&'a SupportedTerm, &'a SupportedTerm)>)
    ensures
        all@.len() == store_entries(*store).len(),
        forall|i: int|
            0 <= i < all@.len() ==> store_entries(*store)[i] == (#[trigger] all@[i].0@, all@[i].1@),
{
    store.inner.iter().collect()
}

/// A cache of terms with a fixed capacity. When a new key arrives at a full
/// cache, the entry that was used least recently leaves.
pub struct LruCache {
    cache: Store,
}

impl View for LruCache {
    type V = CacheModel;

    closed spec fn view(&self) -> CacheModel {
        store_model(self.cache)
    }
}

impl LruCache {
    /// Every cache holds no more entries than its capacity, and no key
    /// twice.
    #[verifier::type_invariant]
    pub closed spec fn inv(&self) -> bool {
        self@.wf()
    }

    /// An empty cache that holds at most `cap` entries. With `cap` zero it
    /// stays empty for good.
    pub fn new(cap: usize) -> (c: LruCache)
        requires
            cap <= MAX_CAPACITY,
        ensures
            c@ == CacheModel::empty(cap as nat),
            c@.wf(),
    {
        LruCache { cache: store_new(cap) }
    }

    /// Stores `v` under `k` and makes `k` the most recently used key.
    /// Returns the entry that had to leave, if any: the least recently used
    /// one, when `k` is new and the cache is full.
    pub fn put(&mut self, k: SupportedTerm, v: SupportedTerm) -> (r: Option<
        (SupportedTerm, SupportedTerm),
    >)
        ensures
            final(self)@ == old(self)@.put(k@, v@),
            final(self)@.wf(),
            match r {
                Some((ek, ev)) => old(self)@.evicted_by(k@) == Some((ek@, ev@)),
                None => old(self)@.evicted_by(k@) is None,
            },
    {
        proof {
            use_type_invariant(&*self);
        }
        if store_contains(&self.cache, &k) {
            store_put(&mut self.cache, k, v);
            return None;
        }
        if store_len(&self.cache) == store_cap(&self.cache) {
            let removed = store_pop_lru(&mut self.cache);
            store_put(&mut self.cache, k, v);
            return removed;
        }
        store_put(&mut self.cache, k, v);
        None
    }

    /// Looks `k` up and, if it is there, makes it the most recently used
    /// key.
    pub fn get(&mut self, k: &SupportedTerm) -> (r: Option<&SupportedTerm>)
        ensures
            final(self)@ == old(self)@.promote(k@),
            final(self)@.wf(),
            match r {
                Some(v) => old(self)@.peek(k@) == Some(v@),
                None => old(self)@.peek(k@) is None,
            },
    {
        proof {
            use_type_invariant(&*self);
        }
        store_get(&mut self.cache, k)
    }

    /// Looks `k` up and leaves the order of use as it is.
    pub fn peek(&self, k: &SupportedTerm) -> (r: Option<&SupportedTerm>)
        ensures
            match r {
                Some(v) => self@.peek(k@) == Some(v@),
                None => self@.peek(k@) is None,
            },
    {
        proof {
            use_type_invariant(self);
        }
        store_peek(&self.cache, k)
    }

    /// The least recently used entry, which stays where it is.
    pub fn peek_lru(&self) -> (r: Option<(&SupportedTerm, &SupportedTerm)>)
        ensures
            match r {
                Some((k, v)) => self@.peek_lru() == Some((k@, v@)),
                None => self@.peek_lru() is None,
            },
    {
        store_peek_lru(&self.cache)
    }

    /// Whether `k` is in the cache. The order of use stays as it is.
    pub fn contains(&self, k: &SupportedTerm) -> (r: bool)
        ensures
            r == self@.contains(k@),
    {
        store_contains(&self.cache, k)
    }

    /// Removes `k`, wherever it stands in the order of use, and returns its
    /// value.
    pub fn pop(&mut self, k: &SupportedTerm) -> (r: Option<SupportedTerm>)
        ensures
            final(self)@ == old(self)@.without(k@),
            final(self)@.wf(),
            match r {
                Some(v) => old(self)@.peek(k@) == Some(v@),
                None => old(self)@.peek(k@) is None,
            },
    {
        proof {
            use_type_invariant(&*self);
        }
        store_pop(&mut self.cache, k)
    }

    /// Removes the least recently used entry and returns it.
    pub fn pop_lru(&mut self) -> (r: Option<(SupportedTerm, SupportedTerm)>)
        ensures
            final(self)@ == old(self)@.without_lru(),
            final(self)@.wf(),
            match r {
                Some((k, v)) => old(self)@.peek_lru() == Some((k@, v@)),
                None => old(self)@.peek_lru() is None,
            },
    {
        proof {
            use_type_invariant(&*self);
        }
        store_pop_lru(&mut self.cache)
    }

    /// The number of entries, which never exceeds the capacity.
    pub fn len(&self) -> (n: usize)
        ensures
            n == self@.len(),
            n <= self@.capacity,
    {
        proof {
            use_type_invariant(self);
        }
        store_len(&self.cache)
    }

    /// Whether the cache holds no entry.
    pub fn is_empty(&self) -> (r: bool)
        ensures
            r == (self@.len() == 0),
    {
        store_is_empty(&self.cache)
    }

    /// The capacity that the cache was made with.
    pub fn cap(&self) -> (n: usize)
        ensures
            n == self@.capacity,
    {
        store_cap(&self.cache)
    }

    /// Removes every entry. The capacity stays.
    pub fn clear(&mut self)
        ensures
            final(self)@ == old(self)@.clear(),
            final(self)@.wf(),
    {
        store_clear(&mut self.cache)
    }

    /// The keys, from the most recently used to the least recently used.
    pub fn keys(&self) -> (r: Vec<SupportedTerm>)
        ensures
            items_view(r@) == self@.keys(),
            self@.wf(),
    {
        proof {
            use_type_invariant(self);
        }
        let all = store_iter(&self.cache);
        let mut key_vec: Vec<SupportedTerm> = Vec::with_capacity(all.len());
        let mut i: usize = 0;
        while i < all.len()
            invariant
                i <= all.len(),
                key_vec.len() == i,
                all@.len() == self@.entries.len(),
                forall|j: int| 0 <= j < i ==> key_vec@[j]@ == all@[j].0@,
                forall|j: int|
                    0 <= j < all@.len() ==> self@.entries[j] == (#[trigger] all@[j].0@, all@[j].1@),
            decreases all.len() - i,
        {
            key_vec.push(all[i].0.clone());
            i += 1;
        }
        key_vec
    }

    /// The values, in the order of their keys.
    pub fn values(&self) -> (r: Vec<SupportedTerm>)
        ensures
            items_view(r@) == self@.values(),
    {
        let all = store_iter(&self.cache);
        let mut value_vec: Vec<SupportedTerm> = Vec::with_capacity(all.len());
        let mut i: usize = 0;
        while i < all.len()
            invariant
                i <= all.len(),
                value_vec.len() == i,
                all@.len() == self@.entries.len(),
                forall|j: int| 0 <= j < i ==> value_vec@[j]@ == all@[j].1@,
                forall|j: int|
                    0 <= j < all@.len() ==> self@.entries[j] == (all@[j].0@, #[trigger] all@[j].1@),
            decreases all.len() - i,
        {
            value_vec.push(all[i].1.clone());
            i += 1;
        }
        value_vec
    }

    /// The entries, from the most recently used to the least recently used.
    pub fn to_vec(&self) -> (r: Vec<(SupportedTerm, SupportedTerm)>)
        ensures
            entries_view(r@) == self@.entries,
            self@.wf(),
    {
        proof {
            use_type_invariant(self);
        }
        let all = store_iter(&self.cache);
        let mut new_vec: Vec<(SupportedTerm, SupportedTerm)> = Vec::with_capacity(all.len());
        let mut i: usize = 0;
        while i < all.len()
            invariant
                i <= all.len(),
                new_vec.len() == i,
                all@.len() == self@.entries.len(),
                forall|j: int|
                    0 <= j < i ==> new_vec@[j].0@ == all@[j].0@ && new_vec@[j].1@ == all@[j].1@,
                forall|j: int|
                    0 <= j < all@.len() ==> self@.entries[j] == (#[trigger] all@[j].0@, all@[j].1@),
            decreases all.len() - i,
        {
            new_vec.push((all[i].0.clone(), all[i].1.clone()));
            i += 1;
        }
        new_vec
    }
}

} // verus!
