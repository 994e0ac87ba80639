//! The mathematical model of the cache: a capacity and a sequence of entries
//! ordered from the most recently used to the least recently used.

use crate::supported_term::TermView;
use vstd::prelude::*;

verus! {

/// The state of a cache as a mathematical value.
pub ghost struct CacheModel {
    /// The entries, most recently used first.
    pub entries: Seq<(TermView, TermView)>,
    /// The number of entries that the cache may hold.
    pub capacity: nat,
}

/// One operation on a cache.
pub ghost enum CacheOp {
    /// Stores a value under a key.
    Put(TermView, TermView),
    /// Looks a key up and promotes it.
    Get(TermView),
    /// Looks a key up without promoting it.
    Peek(TermView),
    /// Looks at the least recently used entry.
    PeekLru,
    /// Asks whether a key is there.
    Contains(TermView),
    /// Removes a key.
    Pop(TermView),
    /// Removes the least recently used entry.
    PopLru,
    /// Asks for the number of entries.
    Len,
    /// Asks whether there is no entry.
    IsEmpty,
    /// Asks for the capacity.
    Cap,
    /// Removes every entry.
    Clear,
    /// Lists the keys.
    Keys,
    /// Lists the values.
    Values,
    /// Lists the entries.
    ToVec,
}

impl CacheModel {
    /// The cache without entries.
    pub open spec fn empty(capacity: nat) -> CacheModel {
        CacheModel { entries: Seq::empty(), capacity }
    }

    /// The entry at position `i` has the key `k`.
    pub open spec fn key_at(self, k: TermView, i: int) -> bool {
        0 <= i < self.entries.len() && self.entries[i].0 == k
    }

    /// No key occurs twice.
    pub open spec fn distinct_keys(self) -> bool {
        forall|i: int, j: int|
            0 <= i < j < self.entries.len() ==> self.entries[i].0 != self.entries[j].0
    }

    /// The invariant of every cache: it holds no more entries than its
    /// capacity, and no key twice.
    pub open spec fn wf(self) -> bool {
        self.entries.len() <= self.capacity && self.distinct_keys()
    }

    /// The number of entries.
    pub open spec fn len(self) -> nat {
        self.entries.len()
    }

    /// Some entry has the key `k`.
    pub open spec fn contains(self, k: TermView) -> bool {
        exists|i: int| self.key_at(k, i)
    }

    /// No entry has the key `k`.
    pub open spec fn lacks(self, k: TermView) -> bool {
        forall|i: int| 0 <= i < self.entries.len() ==> self.entries[i].0 != k
    }

    /// The position of the entry with the key `k`, where there is one.
    pub open spec fn position(self, k: TermView) -> int {
        choose|i: int| self.key_at(k, i)
    }

    /// The value stored under `k`.
    pub open spec fn peek(self, k: TermView) -> Option<TermView> {
        if self.contains(k) {
            Some(self.entries[self.position(k)].1)
        } else {
            None
        }
    }

    /// The least recently used entry.
    pub open spec fn peek_lru(self) -> Option<(TermView, TermView)> {
        if self.entries.len() == 0 {
            None
        } else {
            Some(self.entries.last())
        }
    }

    /// The state after a lookup of `k` that promotes: the entry of `k`, if
    /// there is one, has moved to the front and nothing else has changed.
    pub open spec fn promote(self, k: TermView) -> CacheModel {
        if self.contains(k) {
            let i = self.position(k);
            CacheModel { entries: seq![self.entries[i]] + self.entries.remove(i), ..self }
        } else {
            self
        }
    }

    /// The state after `k` was removed.
    pub open spec fn without(self, k: TermView) -> CacheModel {
        if self.contains(k) {
            CacheModel { entries: self.entries.remove(self.position(k)), ..self }
        } else {
            self
        }
    }

    /// The state after the least recently used entry was removed.
    pub open spec fn without_lru(self) -> CacheModel {
        if self.entries.len() == 0 {
            self
        } else {
            CacheModel { entries: self.entries.drop_last(), ..self }
        }
    }

    /// The entry that leaves when `k` is put: the least recently used one,
    /// if `k` is new and the cache is full.
    pub open spec fn evicted_by(self, k: TermView) -> Option<(TermView, TermView)> {
        if !self.contains(k) && self.entries.len() >= self.capacity && self.entries.len() > 0 {
            Some(self.entries.last())
        } else {
            None
        }
    }

    /// The state after `v` was put under `k`. A present key gets the new
    /// value and moves to the front. A new key enters at the front, after
    /// the least recently used entry has left if the cache was full. A cache
    /// of capacity zero stays empty.
    pub open spec fn put(self, k: TermView, v: TermView) -> CacheModel {
        if self.contains(k) {
            CacheModel { entries: seq![(k, v)] + self.entries.remove(self.position(k)), ..self }
        } else if self.capacity == 0 {
            self
        } else if self.entries.len() >= self.capacity {
            CacheModel { entries: seq![(k, v)] + self.entries.drop_last(), ..self }
        } else {
            CacheModel { entries: seq![(k, v)] + self.entries, ..self }
        }
    }

    /// The state after all entries were removed.
    pub open spec fn clear(self) -> CacheModel {
        CacheModel { entries: Seq::empty(), ..self }
    }

    /// The keys, most recently used first.
    pub open spec fn keys(self) -> Seq<TermView> {
        Seq::new(self.entries.len(), |i: int| self.entries[i].0)
    }

    /// The values, in the order of their keys.
    pub open spec fn values(self) -> Seq<TermView> {
        Seq::new(self.entries.len(), |i: int| self.entries[i].1)
    }

    /// The state after one operation.
    pub open spec fn step(self, op: CacheOp) -> CacheModel {
        match op {
            CacheOp::Put(k, v) => self.put(k, v),
            CacheOp::Get(k) => self.promote(k),
            CacheOp::Pop(k) => self.without(k),
            CacheOp::PopLru => self.without_lru(),
            CacheOp::Clear => self.clear(),
            _ => self,
        }
    }

    /// The state after a sequence of operations, the first of them first.
    pub open spec fn run(self, ops: Seq<CacheOp>) -> CacheModel
        decreases ops.len(),
    {
        if ops.len() == 0 {
            self
        } else {
            self.run(ops.drop_last()).step(ops.last())
        }
    }

    /// Where no key occurs twice, a key found at `i` has its position there.
    pub proof fn lemma_position(self, k: TermView, i: int)
        requires
            self.distinct_keys(),
            self.key_at(k, i),
        ensures
            self.contains(k),
            self.position(k) == i,
    {
    }

    /// A key that no position holds is not contained.
    proof fn lemma_absent(self, k: TermView)
        requires
            self.lacks(k),
        ensures
            !self.contains(k),
    {
        if self.contains(k) {
            let p = self.position(k);
            assert(self.key_at(k, p));
        }
    }

    /// Moving an entry to the front, with a new value or the old one, keeps
    /// the keys distinct and the length.
    proof fn lemma_move_to_front(self, i: int, v: TermView)
        requires
            self.wf(),
            0 <= i < self.entries.len(),
        ensures
            (CacheModel {
                entries: seq![(self.entries[i].0, v)] + self.entries.remove(i),
                ..self
            }).wf(),
    {
        let rest = self.entries.remove(i);
        let moved = seq![(self.entries[i].0, v)] + rest;
        assert(moved.len() == self.entries.len());
        assert forall|a: int, b: int| 0 <= a < b < moved.len() implies moved[a].0 != moved[b].0 by {
            let ob = if b - 1 < i { b - 1 } else { b };
            assert(moved[b] == self.entries[ob]);
            if a == 0 {
                assert(moved[a].0 == self.entries[i].0);
                if ob < i {
                    assert(self.entries[ob].0 != self.entries[i].0);
                } else {
                    assert(self.entries[i].0 != self.entries[ob].0);
                }
            } else {
                let oa = if a - 1 < i { a - 1 } else { a };
                assert(moved[a] == self.entries[oa]);
                assert(self.entries[oa].0 != self.entries[ob].0);
            }
        }
    }

    /// A lookup that promotes keeps the invariant.
    proof fn lemma_promote_wf(self, k: TermView)
        requires
            self.wf(),
        ensures
            self.promote(k).wf(),
    {
        if self.contains(k) {
            let i = self.position(k);
            assert(self.key_at(k, i));
            self.lemma_move_to_front(i, self.entries[i].1);
        }
    }

    /// Removing a key keeps the invariant.
    proof fn lemma_without_wf(self, k: TermView)
        requires
            self.wf(),
        ensures
            self.without(k).wf(),
            !self.without(k).contains(k),
    {
        if self.contains(k) {
            let i = self.position(k);
            assert(self.key_at(k, i));
            let rest = self.entries.remove(i);
            assert forall|a: int| 0 <= a < rest.len() implies rest[a].0 != k by {
                let oa = if a < i { a } else { a + 1 };
                assert(rest[a] == self.entries[oa]);
                if oa < i {
                    assert(self.entries[oa].0 != self.entries[i].0);
                } else {
                    assert(self.entries[i].0 != self.entries[oa].0);
                }
            }
            assert forall|a: int, b: int| 0 <= a < b < rest.len() implies rest[a].0
                != rest[b].0 by {
                let oa = if a < i { a } else { a + 1 };
                let ob = if b < i { b } else { b + 1 };
                assert(rest[a] == self.entries[oa]);
                assert(rest[b] == self.entries[ob]);
                assert(self.entries[oa].0 != self.entries[ob].0);
            }
            self.without(k).lemma_absent(k);
        }
    }

    /// Removing the least recently used entry keeps the invariant.
    proof fn lemma_without_lru_wf(self)
        requires
            self.wf(),
        ensures
            self.without_lru().wf(),
    {
        if self.entries.len() > 0 {
            let rest = self.entries.drop_last();
            assert forall|a: int, b: int| 0 <= a < b < rest.len() implies rest[a].0
                != rest[b].0 by {
                assert(rest[a] == self.entries[a]);
                assert(rest[b] == self.entries[b]);
            }
        }
    }

    /// A new key at the front of entries that lack it keeps the keys
    /// distinct.
    proof fn lemma_push_front(self, k: TermView, v: TermView)
        requires
            self.distinct_keys(),
            !self.contains(k),
        ensures
            (CacheModel { entries: seq![(k, v)] + self.entries, ..self }).distinct_keys(),
    {
        let grown = seq![(k, v)] + self.entries;
        assert forall|a: int, b: int| 0 <= a < b < grown.len() implies grown[a].0 != grown[b].0 by {
            assert(grown[b] == self.entries[b - 1]);
            if a == 0 {
                assert(grown[a].0 == k);
                if self.entries[b - 1].0 == k {
                    assert(self.key_at(k, b - 1));
                }
            } else {
                assert(grown[a] == self.entries[a - 1]);
            }
        }
    }

    /// A put keeps the invariant, and afterwards `k` is at the front with
    /// the value `v`.
    proof fn lemma_put_wf(self, k: TermView, v: TermView)
        requires
            self.wf(),
        ensures
            self.put(k, v).wf(),
            self.capacity > 0 ==> self.put(k, v).peek(k) == Some(v),
            self.capacity > 0 ==> self.put(k, v).entries[0] == (k, v),
    {
        let after = self.put(k, v);
        if self.contains(k) {
            let i = self.position(k);
            assert(self.key_at(k, i));
            self.lemma_move_to_front(i, v);
        } else if self.capacity == 0 {
        } else if self.entries.len() >= self.capacity {
            let rest = self.without_lru();
            self.lemma_without_lru_wf();
            if rest.contains(k) {
                let p = rest.position(k);
                assert(rest.key_at(k, p));
                assert(self.key_at(k, p));
            }
            rest.lemma_push_front(k, v);
        } else {
            self.lemma_push_front(k, v);
        }
        if self.capacity > 0 {
            assert(after.entries[0] == (k, v));
            assert(after.key_at(k, 0));
            after.lemma_position(k, 0);
        }
    }

    /// One operation keeps the invariant and the capacity.
    pub proof fn law_step_keeps_invariant(self, op: CacheOp)
        requires
            self.wf(),
        ensures
            self.step(op).wf(),
            self.step(op).capacity == self.capacity,
    {
        match op {
            CacheOp::Put(k, v) => {
                self.lemma_put_wf(k, v);
            },
            CacheOp::Get(k) => {
                self.lemma_promote_wf(k);
            },
            CacheOp::Pop(k) => {
                self.lemma_without_wf(k);
            },
            CacheOp::PopLru => {
                self.lemma_without_lru_wf();
            },
            _ => {},
        }
    }

    /// After any sequence of operations on a cache that was empty at first,
    /// the cache holds no more entries than its capacity, which is the one
    /// it was made with, and no key twice.
    pub proof fn law_len_within_capacity(capacity: nat, ops: Seq<CacheOp>)
        ensures
            CacheModel::empty(capacity).run(ops).wf(),
            CacheModel::empty(capacity).run(ops).len() <= capacity,
            CacheModel::empty(capacity).run(ops).capacity == capacity,
        decreases ops.len(),
    {
        if ops.len() > 0 {
            Self::law_len_within_capacity(capacity, ops.drop_last());
            CacheModel::empty(capacity).run(ops.drop_last()).law_step_keeps_invariant(ops.last());
        }
    }

    /// A put on a key that is there changes its value and makes it the most
    /// recently used key. Nothing leaves, the length stays, and every other
    /// key keeps its value.
    pub proof fn law_put_updates(self, k: TermView, v: TermView, q: TermView)
        requires
            self.wf(),
            self.contains(k),
        ensures
            self.evicted_by(k) is None,
            self.put(k, v).len() == self.len(),
            self.put(k, v).entries[0] == (k, v),
            self.put(k, v).peek(k) == Some(v),
            q != k ==> self.put(k, v).peek(q) == self.peek(q),
    {
        let after = self.put(k, v);
        let i = self.position(k);
        self.law_step_keeps_invariant(CacheOp::Put(k, v));
        after.lemma_position(k, 0);
        if q != k {
            self.lemma_moved_keeps_others(i, v, q);
        }
    }

    /// A put of a new key makes it the most recently used key. If the cache
    /// was full, exactly the least recently used entry leaves, and it is
    /// returned; else nothing leaves. Every other key that stays keeps its
    /// value.
    pub proof fn law_put_inserts(self, k: TermView, v: TermView, q: TermView)
        requires
            self.wf(),
            !self.contains(k),
            self.capacity > 0,
        ensures
            self.put(k, v).entries[0] == (k, v),
            self.put(k, v).peek(k) == Some(v),
            self.len() < self.capacity ==> self.evicted_by(k) is None && self.put(k, v).len()
                == self.len() + 1,
            self.len() == self.capacity ==> self.evicted_by(k) == self.peek_lru() && self.put(
                k,
                v,
            ).len() == self.len() && !self.put(k, v).contains(self.entries.last().0),
            q != k && self.put(k, v).contains(q) ==> self.put(k, v).peek(q) == self.peek(q),
            q != k && self.contains(q) && !self.put(k, v).contains(q) ==> self.peek_lru()
                == Some((q, self.peek(q)->0)),
    {
        let after = self.put(k, v);
        self.law_step_keeps_invariant(CacheOp::Put(k, v));
        after.lemma_position(k, 0);
        let kept = if self.len() == self.capacity {
            self.entries.drop_last()
        } else {
            self.entries
        };
        assert(after.entries =~= seq![(k, v)] + kept);
        if self.len() == self.capacity {
            let gone = self.entries.last().0;
            assert(self.key_at(gone, self.len() - 1));
            if after.contains(gone) {
                let p = after.position(gone);
                assert(after.key_at(gone, p));
                assert(self.key_at(gone, p - 1));
            }
        }
        if q != k {
            if after.contains(q) {
                let p = after.position(q);
                assert(self.key_at(q, p - 1));
                self.lemma_position(q, p - 1);
            } else if self.contains(q) {
                let p = self.position(q);
                if p < kept.len() {
                    assert(after.key_at(q, p + 1));
                }
            }
        }
    }

    /// Moving the entry at `i` to the front leaves every other key with its
    /// value.
    proof fn lemma_moved_keeps_others(self, i: int, v: TermView, q: TermView)
        requires
            self.wf(),
            0 <= i < self.entries.len(),
            q != self.entries[i].0,
        ensures
            (CacheModel {
                entries: seq![(self.entries[i].0, v)] + self.entries.remove(i),
                ..self
            }).peek(q) == self.peek(q),
    {
        let moved = CacheModel {
            entries: seq![(self.entries[i].0, v)] + self.entries.remove(i),
            ..self
        };
        self.law_step_keeps_invariant(CacheOp::Put(self.entries[i].0, v));
        self.lemma_position(self.entries[i].0, i);
        assert(moved == self.put(self.entries[i].0, v));
        if self.contains(q) {
            let p = self.position(q);
            let np = if p < i {
                p + 1
            } else {
                p
            };
            assert(moved.key_at(q, np));
            moved.lemma_position(q, np);
        } else if moved.contains(q) {
            let np = moved.position(q);
            let p = if np - 1 < i {
                np - 1
            } else {
                np
            };
            assert(self.key_at(q, p));
        }
    }

    /// A lookup that finds its key makes it the most recently used key and
    /// changes nothing else: the length stays, and every key keeps its
    /// value.
    pub proof fn law_get_promotes(self, k: TermView, q: TermView)
        requires
            self.wf(),
            self.contains(k),
        ensures
            self.promote(k).len() == self.len(),
            self.promote(k).entries[0] == (k, self.peek(k)->0),
            self.promote(k).peek(q) == self.peek(q),
    {
        let i = self.position(k);
        let after = self.promote(k);
        self.law_step_keeps_invariant(CacheOp::Get(k));
        after.lemma_position(k, 0);
        if q != k {
            self.lemma_moved_keeps_others(i, self.entries[i].1, q);
        }
    }

    /// A lookup that does not find its key changes nothing.
    pub proof fn law_get_miss(self, k: TermView)
        requires
            !self.contains(k),
        ensures
            self.promote(k) == self,
            self.peek(k) is None,
    {
    }

    /// Removing a key takes exactly its entry away: the key is gone, and
    /// every other key keeps its value.
    pub proof fn law_pop_removes(self, k: TermView, q: TermView)
        requires
            self.wf(),
        ensures
            !self.without(k).contains(k),
            self.contains(k) ==> self.without(k).len() == self.len() - 1,
            !self.contains(k) ==> self.without(k) == self,
            q != k ==> self.without(k).peek(q) == self.peek(q),
    {
        if self.contains(k) {
            let i = self.position(k);
            let after = self.without(k);
            self.law_step_keeps_invariant(CacheOp::Pop(k));
            if after.contains(k) {
                let p = after.position(k);
                let op = if p < i {
                    p
                } else {
                    p + 1
                };
                assert(self.key_at(k, op));
                self.lemma_position(k, op);
            }
            if q != k {
                if self.contains(q) {
                    let p = self.position(q);
                    let np = if p < i {
                        p
                    } else {
                        p - 1
                    };
                    assert(after.key_at(q, np));
                    after.lemma_position(q, np);
                } else if after.contains(q) {
                    let np = after.position(q);
                    let p = if np < i {
                        np
                    } else {
                        np + 1
                    };
                    assert(self.key_at(q, p));
                }
            }
        }
    }

    /// Removing the least recently used entry takes exactly that entry
    /// away.
    pub proof fn law_pop_lru_removes(self, q: TermView)
        requires
            self.wf(),
            self.len() > 0,
        ensures
            self.without_lru().len() == self.len() - 1,
            !self.without_lru().contains(self.entries.last().0),
            q != self.entries.last().0 ==> self.without_lru().peek(q) == self.peek(q),
    {
        let gone = self.entries.last().0;
        let after = self.without_lru();
        self.law_step_keeps_invariant(CacheOp::PopLru);
        if after.contains(gone) {
            let p = after.position(gone);
            assert(self.key_at(gone, p));
            assert(self.key_at(gone, self.len() - 1));
        }
        if q != gone {
            if self.contains(q) {
                let p = self.position(q);
                assert(after.key_at(q, p));
                after.lemma_position(q, p);
            } else if after.contains(q) {
                assert(self.key_at(q, after.position(q)));
            }
        }
    }

    /// The list of entries is the keys paired with the values, position by
    /// position.
    pub proof fn law_entries_pair_keys_with_values(self)
        ensures
            self.keys().len() == self.entries.len(),
            self.values().len() == self.entries.len(),
            forall|i: int|
                0 <= i < self.entries.len() ==> self.entries[i] == (
                    #[trigger] self.keys()[i],
                    self.values()[i],
                ),
            self.entries == self.keys().zip_with(self.values()),
    {
        assert(self.entries =~= self.keys().zip_with(self.values()));
    }

    /// However often and for whatever keys `peek` is called, the least
    /// recently used entry stays what it was, and so does the whole state.
    pub proof fn law_peek_keeps_lru(self, keys: Seq<TermView>)
        ensures
            self.run(keys.map_values(|k: TermView| CacheOp::Peek(k))) == self,
            self.run(keys.map_values(|k: TermView| CacheOp::Peek(k))).peek_lru()
                == self.peek_lru(),
        decreases keys.len(),
    {
        let ops = keys.map_values(|k: TermView| CacheOp::Peek(k));
        if keys.len() > 0 {
            self.law_peek_keeps_lru(keys.drop_last());
            assert(ops.drop_last() =~= keys.drop_last().map_values(|k: TermView| CacheOp::Peek(k)));
        }
    }

    /// After `clear` the cache is empty, its capacity is what it was, and no
    /// key is found in it.
    pub proof fn law_clear_empties(self, k: TermView)
        ensures
            self.clear().len() == 0,
            self.clear().capacity == self.capacity,
            !self.clear().contains(k),
            self.clear().peek(k) is None,
            self.clear().promote(k) == self.clear(),
    {
    }
}

} // verus!
