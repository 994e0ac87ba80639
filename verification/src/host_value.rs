//! Values as the host hands them over, and their conversion to terms.

use crate::dict::{
    binding, canonical, dict_insert, law_canonical_order_irrelevant, lemma_canonical_entries,
    lemma_canonical_sorted,
};
use crate::supported_term::{entries_view, items_view, SupportedTerm, TermView};
use vstd::prelude::*;

verus! {

/// A value of the host, before it is known whether the cache can hold it.
#[derive(Debug)]
pub enum HostValue {
    /// A signed integer.
    Integer(i64),
    /// An unsigned integer.
    Unsigned(u64),
    /// A floating-point number, as its IEEE 754 bit pattern.
    Float(u64),
    /// A boolean.
    Boolean(bool),
    /// UTF-8 text.
    Text(String),
    /// Raw bytes.
    Bytes(Vec<u8>),
    /// An ordered sequence of values.
    List(Vec<HostValue>),
    /// A tuple of fixed arity.
    Tuple(Vec<HostValue>),
    /// A map, as its entries in any order. Where a key occurs twice, the
    /// later entry counts.
    Dict(Vec<(HostValue, HostValue)>),
    /// A handle that only the host can use, such as a function or a process.
    Opaque,
}

/// The mathematical value of a [`HostValue`].
pub ghost enum HostView {
    Integer(i64),
    Unsigned(u64),
    Float(u64),
    Boolean(bool),
    Text(Seq<char>),
    Bytes(Seq<u8>),
    List(Seq<HostView>),
    Tuple(Seq<HostView>),
    Dict(Seq<(HostView, HostView)>),
    Opaque,
}

impl View for HostValue {
    type V = HostView;

    open spec fn view(&self) -> HostView
        decreases self,
    {
        match self {
            HostValue::Integer(n) => HostView::Integer(*n),
            HostValue::Unsigned(n) => HostView::Unsigned(*n),
            HostValue::Float(bits) => HostView::Float(*bits),
            HostValue::Boolean(b) => HostView::Boolean(*b),
            HostValue::Text(s) => HostView::Text(s@),
            HostValue::Bytes(b) => HostView::Bytes(b@),
            HostValue::List(items) => HostView::List(host_items_view(items@)),
            HostValue::Tuple(items) => HostView::Tuple(host_items_view(items@)),
            HostValue::Dict(entries) => HostView::Dict(host_entries_view(entries@)),
            HostValue::Opaque => HostView::Opaque,
        }
    }
}

/// The values of a sequence of host values, item by item.
pub open spec fn host_items_view(items: Seq<HostValue>) -> Seq<HostView>
    decreases items,
{
    Seq::new(
        items.len(),
        |i: int|
            if 0 <= i < items.len() {
                items[i]@
            } else {
                HostView::Opaque
            },
    )
}

/// The values of a sequence of host entries, entry by entry.
pub open spec fn host_entries_view(entries: Seq<(HostValue, HostValue)>) -> Seq<
    (HostView, HostView),
>
    decreases entries,
{
    Seq::new(
        entries.len(),
        |i: int|
            if 0 <= i < entries.len() {
                (entries[i].0@, entries[i].1@)
            } else {
                (HostView::Opaque, HostView::Opaque)
            },
    )
}

impl HostView {
    /// The cache can hold the value: no part of it is opaque.
    pub open spec fn supported(self) -> bool
        decreases self,
    {
        match self {
            HostView::List(items) => forall|i: int|
                0 <= i < items.len() ==> (#[trigger] items[i]).supported(),
            HostView::Tuple(items) => forall|i: int|
                0 <= i < items.len() ==> (#[trigger] items[i]).supported(),
            HostView::Dict(entries) => forall|i: int|
                0 <= i < entries.len() ==> (#[trigger] entries[i]).0.supported()
                    && entries[i].1.supported(),
            HostView::Opaque => false,
            _ => true,
        }
    }

    /// The term that stands for a supported value. The entries of a dict
    /// stand in the order of their keys, each key once.
    pub open spec fn term(self) -> TermView
        decreases self,
    {
        match self {
            HostView::Integer(n) => TermView::Integer(n),
            HostView::Unsigned(n) => TermView::Unsigned(n),
            HostView::Float(bits) => TermView::Float(bits),
            HostView::Boolean(b) => TermView::Boolean(b),
            HostView::Text(s) => TermView::Text(s),
            HostView::Bytes(b) => TermView::Bytes(b),
            HostView::List(items) => TermView::List(host_items_terms(items)),
            HostView::Tuple(items) => TermView::Tuple(host_items_terms(items)),
            HostView::Dict(entries) => TermView::Dict(canonical(host_entries_terms(entries))),
            HostView::Opaque => TermView::Boolean(false),
        }
    }
}

/// The terms of a sequence of supported values, item by item.
pub open spec fn host_items_terms(items: Seq<HostView>) -> Seq<TermView>
    decreases items,
{
    Seq::new(
        items.len(),
        |i: int|
            if 0 <= i < items.len() {
                items[i].term()
            } else {
                TermView::Boolean(false)
            },
    )
}

/// The terms of a sequence of supported entries, entry by entry.
pub open spec fn host_entries_terms(entries: Seq<(HostView, HostView)>) -> Seq<
    (TermView, TermView),
>
    decreases entries,
{
    Seq::new(
        entries.len(),
        |i: int|
            if 0 <= i < entries.len() {
                (entries[i].0.term(), entries[i].1.term())
            } else {
                (TermView::Boolean(false), TermView::Boolean(false))
            },
    )
}

impl SupportedTerm {
    /// The term of a host value, or `None` if the value or a part of it is
    /// of a kind that the cache does not hold. The term is in normal form.
    pub fn from(host: &HostValue) -> (r: Option<SupportedTerm>)
        ensures
            match r {
                Some(t) => host@.supported() && t@ == host@.term() && t@.normal(),
                None => !host@.supported(),
            },
        decreases host,
    {
        proof {
            if host@.supported() {
                law_term_normal(host@);
            }
        }
        match host {
            HostValue::Integer(n) => Some(SupportedTerm::Integer(*n)),
            HostValue::Unsigned(n) => Some(SupportedTerm::Unsigned(*n)),
            HostValue::Float(bits) => Some(SupportedTerm::Float(*bits)),
            HostValue::Boolean(b) => Some(SupportedTerm::Boolean(*b)),
            HostValue::Text(s) => Some(SupportedTerm::Text(s.clone())),
            HostValue::Bytes(bytes) => Some(SupportedTerm::Bytes(bytes.clone())),
            HostValue::List(items) => match terms_of(items) {
                Some(terms) => Some(SupportedTerm::List(terms)),
                None => None,
            },
            HostValue::Tuple(items) => match terms_of(items) {
                Some(terms) => Some(SupportedTerm::Tuple(terms)),
                None => None,
            },
            HostValue::Dict(entries) => match entries_of(entries) {
                Some(terms) => Some(SupportedTerm::Dict(terms)),
                None => None,
            },
            HostValue::Opaque => None,
        }
    }
}

fn terms_of(items: &Vec<HostValue>) -> (r: Option<Vec<SupportedTerm>>)
    ensures
        match r {
            Some(terms) => {
                &&& forall|i: int|
                    0 <= i < items@.len() ==> (#[trigger] host_items_view(items@)[i]).supported()
                &&& items_view(terms@) == host_items_terms(host_items_view(items@))
            },
            None => exists|i: int|
                0 <= i < items@.len() && !(#[trigger] host_items_view(items@)[i]).supported(),
        },
    decreases items,
{
    let ghost views = host_items_view(items@);
    let mut terms: Vec<SupportedTerm> = Vec::with_capacity(items.len());
    let mut i: usize = 0;
    while i < items.len()
        invariant
            i <= items.len(),
            terms.len() == i,
            views == host_items_view(items@),
            forall|j: int| 0 <= j < i ==> (#[trigger] views[j]).supported(),
            forall|j: int| 0 <= j < i ==> (#[trigger] terms@[j])@ == views[j].term(),
        decreases items.len() - i,
    {
        assert(views[i as int] == items@[i as int]@);
        match SupportedTerm::from(&items[i]) {
            Some(term) => {
                terms.push(term);
            },
            None => {
                return None;
            },
        }
        i += 1;
    }
    Some(terms)
}

fn entries_of(entries: &Vec<(HostValue, HostValue)>) -> (r: Option<
    Vec<(SupportedTerm, SupportedTerm)>,
>)
    ensures
        match r {
            Some(terms) => {
                &&& forall|i: int|
                    0 <= i < entries@.len() ==> (#[trigger] host_entries_view(
                        entries@,
                    )[i]).0.supported() && host_entries_view(entries@)[i].1.supported()
                &&& entries_view(terms@) == canonical(
                    host_entries_terms(host_entries_view(entries@)),
                )
            },
            None => exists|i: int|
                0 <= i < entries@.len() && !((#[trigger] host_entries_view(
                    entries@,
                )[i]).0.supported() && host_entries_view(entries@)[i].1.supported()),
        },
    decreases entries,
{
    let ghost views = host_entries_view(entries@);
    let ghost all = host_entries_terms(views);
    let mut terms: Vec<(SupportedTerm, SupportedTerm)> = Vec::with_capacity(entries.len());
    let mut i: usize = 0;
    while i < entries.len()
        invariant
            i <= entries.len(),
            views == host_entries_view(entries@),
            all == host_entries_terms(views),
            forall|j: int|
                0 <= j < i ==> (#[trigger] views[j]).0.supported() && views[j].1.supported(),
            entries_view(terms@) == canonical(all.take(i as int)),
        decreases entries.len() - i,
    {
        assert(views[i as int] == (entries@[i as int].0@, entries@[i as int].1@));
        let key = match SupportedTerm::from(&entries[i].0) {
            Some(term) => term,
            None => {
                return None;
            },
        };
        let value = match SupportedTerm::from(&entries[i].1) {
            Some(term) => term,
            None => {
                return None;
            },
        };
        proof {
            let next = all.take(i + 1);
            assert(next.drop_last() =~= all.take(i as int));
        }
        dict_insert(&mut terms, key, value);
        i += 1;
    }
    assert(all.take(i as int) =~= all);
    Some(terms)
}

/// The term of a supported value is in normal form.
pub proof fn law_term_normal(h: HostView)
    requires
        h.supported(),
    ensures
        h.term().normal(),
    decreases h,
{
    match h {
        HostView::List(items) => {
            lemma_items_normal(items);
        },
        HostView::Tuple(items) => {
            lemma_items_normal(items);
        },
        HostView::Dict(entries) => {
            let all = host_entries_terms(entries);
            let c = canonical(all);
            lemma_canonical_sorted(all);
            lemma_canonical_entries(all);
            assert forall|i: int| 0 <= i < c.len() implies (#[trigger] c[i]).0.normal()
                && c[i].1.normal() by {
                let j = choose|j: int| 0 <= j < all.len() && all[j] == c[i];
                law_term_normal(entries[j].0);
                law_term_normal(entries[j].1);
            }
        },
        _ => {},
    }
}

/// The terms of supported values are in normal form, each of them.
proof fn lemma_items_normal(items: Seq<HostView>)
    requires
        forall|i: int| 0 <= i < items.len() ==> (#[trigger] items[i]).supported(),
    ensures
        forall|i: int|
            0 <= i < items.len() ==> (#[trigger] host_items_terms(items)[i]).normal(),
        host_items_terms(items).len() == items.len(),
    decreases items,
{
    assert forall|i: int| 0 <= i < items.len() implies (#[trigger] host_items_terms(
        items,
    )[i]).normal() by {
        law_term_normal(items[i]);
    }
}

/// The order of a dict's entries is irrelevant: two dicts of supported
/// values whose entries bind every key alike stand for the same term.
pub proof fn law_dict_order_irrelevant(a: Seq<(HostView, HostView)>, b: Seq<(HostView, HostView)>)
    requires
        forall|q: TermView|
            binding(host_entries_terms(a), q) == binding(host_entries_terms(b), q),
    ensures
        HostView::Dict(a).term() == HostView::Dict(b).term(),
{
    law_canonical_order_irrelevant(host_entries_terms(a), host_entries_terms(b));
}

} // verus!
