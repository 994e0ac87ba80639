//! The canonical form of a dict: its entries in the order of their keys,
//! each key once. Two dicts that bind the same keys to the same values have
//! the same canonical form, so they are the same term.

use crate::rank::{law_rank_flip, law_rank_same_iff_equal, law_rank_transitive, rank_terms, Rank};
use crate::supported_term::{entries_view, SupportedTerm, TermView};
use vstd::prelude::*;

verus! {

/// The keys of the entries rise strictly.
pub open spec fn sorted(e: Seq<(TermView, TermView)>) -> bool {
    forall|i: int, j: int| 0 <= i < j < e.len() ==> rank_terms(e[i].0, e[j].0) == Rank::Before
}

/// The value that the entries bind `k` to: the one of the last entry with
/// that key.
pub open spec fn binding(e: Seq<(TermView, TermView)>, k: TermView) -> Option<TermView>
    decreases e.len(),
{
    if e.len() == 0 {
        None
    } else if e.last().0 == k {
        Some(e.last().1)
    } else {
        binding(e.drop_last(), k)
    }
}

/// The entries after `v` was bound to `k`: the entry stands where the order
/// of the keys puts it, in place of an entry with the same key.
pub open spec fn dict_put(e: Seq<(TermView, TermView)>, k: TermView, v: TermView) -> Seq<
    (TermView, TermView),
>
    decreases e.len(),
{
    if e.len() == 0 {
        seq![(k, v)]
    } else {
        match rank_terms(e.last().0, k) {
            Rank::Before => e.push((k, v)),
            Rank::Same => e.drop_last().push((k, v)),
            Rank::After => dict_put(e.drop_last(), k, v).push(e.last()),
        }
    }
}

/// The canonical form of entries that came in any order: each is put in
/// turn, so that a later entry replaces an earlier one with the same key.
pub open spec fn canonical(e: Seq<(TermView, TermView)>) -> Seq<(TermView, TermView)>
    decreases e.len(),
{
    if e.len() == 0 {
        Seq::empty()
    } else {
        dict_put(canonical(e.drop_last()), e.last().0, e.last().1)
    }
}

impl TermView {
    /// The term is in normal form: every dict in it, at any depth, has its
    /// entries in the strictly rising order of their keys.
    pub open spec fn normal(self) -> bool
        decreases self,
    {
        match self {
            TermView::List(s) => forall|i: int| 0 <= i < s.len() ==> (#[trigger] s[i]).normal(),
            TermView::Tuple(s) => forall|i: int| 0 <= i < s.len() ==> (#[trigger] s[i]).normal(),
            TermView::Dict(e) => sorted(e) && forall|i: int|
                0 <= i < e.len() ==> (#[trigger] e[i]).0.normal() && e[i].1.normal(),
            _ => true,
        }
    }
}

/// Binds `value` to `key` in entries that are held in the order of their
/// keys.
pub fn dict_insert(
    entries: &mut Vec<(SupportedTerm, SupportedTerm)>,
    key: SupportedTerm,
    value: SupportedTerm,
)
    ensures
        entries_view(final(entries)@) == dict_put(entries_view(old(entries)@), key@, value@),
{
    let ghost before = entries_view(entries@);
    let ghost k = key@;
    let ghost v = value@;
    let mut i: usize = entries.len();
    assert(before.take(i as int) =~= before);
    assert(dict_put(before, k, v) =~= dict_put(before, k, v) + before.skip(i as int));
    while i > 0
        invariant
            i <= entries.len(),
            entries_view(entries@) == before,
            before == entries_view(old(entries)@),
            k == key@,
            v == value@,
            dict_put(before, k, v) == dict_put(before.take(i as int), k, v) + before.skip(i as int),
        decreases i,
    {
        let ghost head = before.take(i as int);
        assert(head.last() == before[i - 1]);
        assert(before[i - 1].0 == entries@[i - 1].0@);
        assert(head.drop_last() =~= before.take(i - 1));
        match entries[i - 1].0.rank(&key) {
            Rank::After => {
                assert(dict_put(head, k, v) + before.skip(i as int) =~= dict_put(
                    before.take(i - 1),
                    k,
                    v,
                ) + before.skip(i - 1));
                i -= 1;
            },
            Rank::Same => {
                entries.set(i - 1, (key, value));
                assert(entries_view(entries@) =~= dict_put(head, k, v) + before.skip(i as int));
                return ;
            },
            Rank::Before => {
                entries.insert(i, (key, value));
                assert(entries_view(entries@) =~= dict_put(head, k, v) + before.skip(i as int));
                return ;
            },
        }
    }
    entries.insert(0, (key, value));
    assert(before.take(0) =~= Seq::empty());
    assert(entries_view(entries@) =~= seq![(k, v)] + before.skip(0));
}

/// Every entry after a put is the new entry or was there before.
proof fn lemma_dict_put_entries(e: Seq<(TermView, TermView)>, k: TermView, v: TermView)
    ensures
        dict_put(e, k, v).len() > 0,
        forall|i: int|
            0 <= i < dict_put(e, k, v).len() ==> #[trigger] dict_put(e, k, v)[i] == (k, v)
                || exists|j: int| 0 <= j < e.len() && e[j] == dict_put(e, k, v)[i],
    decreases e.len(),
{
    let r = dict_put(e, k, v);
    if e.len() > 0 {
        match rank_terms(e.last().0, k) {
            Rank::Before => {
                assert forall|i: int| 0 <= i < r.len() implies #[trigger] r[i] == (k, v)
                    || exists|j: int| 0 <= j < e.len() && e[j] == r[i] by {
                    if i < e.len() {
                        assert(e[i] == r[i]);
                    }
                }
            },
            Rank::Same => {
                assert forall|i: int| 0 <= i < r.len() implies #[trigger] r[i] == (k, v)
                    || exists|j: int| 0 <= j < e.len() && e[j] == r[i] by {
                    if i < e.len() - 1 {
                        assert(e[i] == r[i]);
                    }
                }
            },
            Rank::After => {
                let d = e.drop_last();
                lemma_dict_put_entries(d, k, v);
                let inner = dict_put(d, k, v);
                assert forall|i: int| 0 <= i < r.len() implies #[trigger] r[i] == (k, v)
                    || exists|j: int| 0 <= j < e.len() && e[j] == r[i] by {
                    if i < inner.len() {
                        assert(r[i] == inner[i]);
                        if inner[i] != (k, v) {
                            let j = choose|j: int| 0 <= j < d.len() && d[j] == inner[i];
                            assert(e[j] == r[i]);
                        }
                    } else {
                        assert(e[e.len() - 1] == r[i]);
                    }
                }
            },
        }
    }
}

/// A put keeps the keys in strictly rising order.
proof fn lemma_dict_put_sorted(e: Seq<(TermView, TermView)>, k: TermView, v: TermView)
    requires
        sorted(e),
    ensures
        sorted(dict_put(e, k, v)),
    decreases e.len(),
{
    let r = dict_put(e, k, v);
    if e.len() > 0 {
        let last = e.last();
        match rank_terms(last.0, k) {
            Rank::Before => {
                assert forall|i: int, j: int| 0 <= i < j < r.len() implies rank_terms(
                    r[i].0,
                    r[j].0,
                ) == Rank::Before by {
                    if j == e.len() {
                        if i < e.len() - 1 {
                            assert(rank_terms(e[i].0, last.0) == Rank::Before);
                            law_rank_transitive(e[i].0, last.0, k);
                        }
                    }
                }
            },
            Rank::Same => {
                law_rank_same_iff_equal(last.0, k);
                assert forall|i: int, j: int| 0 <= i < j < r.len() implies rank_terms(
                    r[i].0,
                    r[j].0,
                ) == Rank::Before by {
                    assert(r[i].0 == e[i].0);
                    assert(r[j].0 == e[j].0);
                }
            },
            Rank::After => {
                let d = e.drop_last();
                assert(sorted(d)) by {
                    assert forall|i: int, j: int| 0 <= i < j < d.len() implies rank_terms(
                        d[i].0,
                        d[j].0,
                    ) == Rank::Before by {
                        assert(d[i] == e[i] && d[j] == e[j]);
                    }
                }
                lemma_dict_put_sorted(d, k, v);
                lemma_dict_put_entries(d, k, v);
                law_rank_flip(last.0, k);
                let inner = dict_put(d, k, v);
                assert forall|i: int, j: int| 0 <= i < j < r.len() implies rank_terms(
                    r[i].0,
                    r[j].0,
                ) == Rank::Before by {
                    if j < inner.len() {
                        assert(r[i] == inner[i] && r[j] == inner[j]);
                    } else {
                        assert(r[j] == last);
                        assert(r[i] == inner[i]);
                        if inner[i] != (k, v) {
                            let m = choose|m: int| 0 <= m < d.len() && d[m] == inner[i];
                            assert(e[m] == d[m]);
                            assert(rank_terms(e[m].0, e[e.len() - 1].0) == Rank::Before);
                        }
                    }
                }
            },
        }
    }
}

/// After a put the key is bound to the new value, and every other key to
/// what it was bound to.
proof fn lemma_dict_put_binding(
    e: Seq<(TermView, TermView)>,
    k: TermView,
    v: TermView,
    q: TermView,
)
    ensures
        binding(dict_put(e, k, v), q) == if q == k {
            Some(v)
        } else {
            binding(e, q)
        },
    decreases e.len(),
{
    let r = dict_put(e, k, v);
    if e.len() == 0 {
        assert(r.drop_last() =~= e);
    } else {
        let last = e.last();
        let d = e.drop_last();
        law_rank_same_iff_equal(last.0, k);
        match rank_terms(last.0, k) {
            Rank::Before => {
                assert(r.drop_last() =~= e);
            },
            Rank::Same => {
                assert(r.drop_last() =~= d);
            },
            Rank::After => {
                lemma_dict_put_binding(d, k, v, q);
                assert(r.drop_last() =~= dict_put(d, k, v));
            },
        }
    }
}

/// The canonical form has its keys in strictly rising order.
pub proof fn lemma_canonical_sorted(e: Seq<(TermView, TermView)>)
    ensures
        sorted(canonical(e)),
    decreases e.len(),
{
    if e.len() > 0 {
        lemma_canonical_sorted(e.drop_last());
        lemma_dict_put_sorted(canonical(e.drop_last()), e.last().0, e.last().1);
    }
}

/// The canonical form binds every key to what the entries bind it to.
pub proof fn lemma_canonical_binding(e: Seq<(TermView, TermView)>, q: TermView)
    ensures
        binding(canonical(e), q) == binding(e, q),
    decreases e.len(),
{
    if e.len() > 0 {
        lemma_canonical_binding(e.drop_last(), q);
        lemma_dict_put_binding(canonical(e.drop_last()), e.last().0, e.last().1, q);
    }
}

/// Every entry of the canonical form is one of the entries it was made
/// from.
pub proof fn lemma_canonical_entries(e: Seq<(TermView, TermView)>)
    ensures
        forall|i: int|
            0 <= i < canonical(e).len() ==> exists|j: int|
                0 <= j < e.len() && e[j] == #[trigger] canonical(e)[i],
    decreases e.len(),
{
    if e.len() > 0 {
        let d = e.drop_last();
        let c = canonical(e);
        lemma_canonical_entries(d);
        lemma_dict_put_entries(canonical(d), e.last().0, e.last().1);
        assert forall|i: int| 0 <= i < c.len() implies exists|j: int|
            0 <= j < e.len() && e[j] == #[trigger] c[i] by {
            if c[i] == e.last() {
                assert(e[e.len() - 1] == c[i]);
            } else {
                let m = choose|m: int| 0 <= m < canonical(d).len() && canonical(d)[m] == c[i];
                let j = choose|j: int| 0 <= j < d.len() && d[j] == canonical(d)[m];
                assert(e[j] == c[i]);
            }
        }
    }
}

/// A key that is bound is the key of some entry.
proof fn lemma_bound_key(e: Seq<(TermView, TermView)>, k: TermView) -> (i: int)
    requires
        binding(e, k) is Some,
    ensures
        0 <= i < e.len(),
        e[i].0 == k,
    decreases e.len(),
{
    if e.last().0 == k {
        e.len() - 1
    } else {
        let i = lemma_bound_key(e.drop_last(), k);
        assert(e.drop_last()[i] == e[i]);
        i
    }
}

/// In entries with strictly rising keys, the last key is bound to the last
/// value and to nothing in the entries before.
proof fn lemma_sorted_last(e: Seq<(TermView, TermView)>)
    requires
        sorted(e),
        e.len() > 0,
    ensures
        sorted(e.drop_last()),
        binding(e, e.last().0) == Some(e.last().1),
        binding(e.drop_last(), e.last().0) is None,
{
    let d = e.drop_last();
    assert forall|i: int, j: int| 0 <= i < j < d.len() implies rank_terms(d[i].0, d[j].0)
        == Rank::Before by {
        assert(d[i] == e[i] && d[j] == e[j]);
    }
    if binding(d, e.last().0) is Some {
        let i = lemma_bound_key(d, e.last().0);
        assert(d[i] == e[i]);
        assert(rank_terms(e[i].0, e[e.len() - 1].0) == Rank::Before);
        law_rank_same_iff_equal(e[i].0, e.last().0);
    }
}

/// Entries with strictly rising keys are determined by what they bind:
/// two such sequences that bind every key alike are the same sequence.
pub proof fn lemma_sorted_unique(a: Seq<(TermView, TermView)>, b: Seq<(TermView, TermView)>)
    requires
        sorted(a),
        sorted(b),
        forall|q: TermView| binding(a, q) == binding(b, q),
    ensures
        a == b,
    decreases a.len(),
{
    if a.len() == 0 {
        if b.len() > 0 {
            assert(binding(b, b.last().0) is Some);
            assert(binding(a, b.last().0) is None);
        }
        assert(a =~= b);
    } else {
        lemma_sorted_last(a);
        let ka = a.last().0;
        assert(binding(b, ka) is Some);
        assert(b.len() > 0);
        lemma_sorted_last(b);
        let kb = b.last().0;
        let j = lemma_bound_key(b, ka);
        assert(binding(a, kb) is Some);
        let i = lemma_bound_key(a, kb);
        if ka != kb {
            assert(j < b.len() - 1);
            assert(i < a.len() - 1);
            assert(rank_terms(b[j].0, b[b.len() - 1].0) == Rank::Before);
            assert(rank_terms(a[i].0, a[a.len() - 1].0) == Rank::Before);
            law_rank_flip(ka, kb);
        }
        assert(a.last() == b.last());
        let da = a.drop_last();
        let db = b.drop_last();
        assert forall|q: TermView| binding(da, q) == binding(db, q) by {
            if q != ka {
                assert(binding(a, q) == binding(da, q));
                assert(binding(b, q) == binding(db, q));
            }
        }
        lemma_sorted_unique(da, db);
        assert(a =~= da.push(a.last()));
        assert(b =~= db.push(b.last()));
    }
}

/// The order in which entries arrive is irrelevant: two sequences of
/// entries that bind every key alike have the same canonical form.
pub proof fn law_canonical_order_irrelevant(
    a: Seq<(TermView, TermView)>,
    b: Seq<(TermView, TermView)>,
)
    requires
        forall|q: TermView| binding(a, q) == binding(b, q),
    ensures
        canonical(a) == canonical(b),
{
    lemma_canonical_sorted(a);
    lemma_canonical_sorted(b);
    assert forall|q: TermView| binding(canonical(a), q) == binding(canonical(b), q) by {
        lemma_canonical_binding(a, q);
        lemma_canonical_binding(b, q);
    }
    lemma_sorted_unique(canonical(a), canonical(b));
}

/// The canonical form of a canonical form is itself.
pub proof fn law_canonical_idempotent(e: Seq<(TermView, TermView)>)
    ensures
        canonical(canonical(e)) == canonical(e),
{
    let c = canonical(e);
    lemma_canonical_sorted(c);
    lemma_canonical_sorted(e);
    assert forall|q: TermView| binding(canonical(c), q) == binding(c, q) by {
        lemma_canonical_binding(c, q);
    }
    lemma_sorted_unique(canonical(c), c);
}

} // verus!
