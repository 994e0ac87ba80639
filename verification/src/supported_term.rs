//! The terms that the cache holds as keys and as values: a closed set of
//! kinds with structural equality.

use vstd::prelude::*;

verus! {

/// A value that the cache can hold as a key or as a value.
#[derive(Debug, Eq, Hash)]
pub enum SupportedTerm {
    /// A signed integer.
    Integer(i64),
    /// An unsigned integer.
    Unsigned(u64),
    /// A floating-point number, held as its IEEE 754 bit pattern.
    Float(u64),
    /// A boolean.
    Boolean(bool),
    /// UTF-8 text.
    Text(String),
    /// Raw bytes.
    Bytes(Vec<u8>),
    /// An ordered sequence of terms.
    List(Vec<SupportedTerm>),
    /// A tuple of fixed arity.
    Tuple(Vec<SupportedTerm>),
    /// A map, held as its entries. The terms that [`SupportedTerm::from`]
    /// makes hold them in the order of their keys, each key once.
    Dict(Vec<(SupportedTerm, SupportedTerm)>),
}

/// The mathematical value of a [`SupportedTerm`].
pub ghost enum TermView {
    Integer(i64),
    Unsigned(u64),
    Float(u64),
    Boolean(bool),
    Text(Seq<char>),
    Bytes(Seq<u8>),
    List(Seq<TermView>),
    Tuple(Seq<TermView>),
    Dict(Seq<(TermView, TermView)>),
}

impl View for SupportedTerm {
    type V = TermView;

    open spec fn view(&self) -> TermView
        decreases self,
    {
        match self {
            SupportedTerm::Integer(n) => TermView::Integer(*n),
            SupportedTerm::Unsigned(n) => TermView::Unsigned(*n),
            SupportedTerm::Float(bits) => TermView::Float(*bits),
            SupportedTerm::Boolean(b) => TermView::Boolean(*b),
            SupportedTerm::Text(s) => TermView::Text(s@),
            SupportedTerm::Bytes(b) => TermView::Bytes(b@),
            SupportedTerm::List(items) => TermView::List(items_view(items@)),
            SupportedTerm::Tuple(items) => TermView::Tuple(items_view(items@)),
            SupportedTerm::Dict(entries) => TermView::Dict(entries_view(entries@)),
        }
    }
}

/// The values of a sequence of terms, item by item.
pub open spec fn items_view(items: Seq<SupportedTerm>) -> Seq<TermView>
    decreases items,
{
    Seq::new(
        items.len(),
        |i: int|
            if 0 <= i < items.len() {
                items[i]@
            } else {
                TermView::Boolean(false)
            },
    )
}

/// The values of a sequence of entries, entry by entry.
pub open spec fn entries_view(entries: Seq<(SupportedTerm, SupportedTerm)>) -> Seq<
    (TermView, TermView),
>
    decreases entries,
{
    Seq::new(
        entries.len(),
        |i: int|
            if 0 <= i < entries.len() {
                (entries[i].0@, entries[i].1@)
            } else {
                (TermView::Boolean(false), TermView::Boolean(false))
            },
    )
}

impl SupportedTerm {
    /// Structural equality: `true` exactly when both terms have the same value.
    pub fn equals(&self, other: &SupportedTerm) -> (r: bool)
        ensures
            r == (self@ == other@),
        decreases self,
    {
        match self {
            SupportedTerm::Integer(a) => match other {
                SupportedTerm::Integer(b) => *a == *b,
                _ => false,
            },
            SupportedTerm::Unsigned(a) => match other {
                SupportedTerm::Unsigned(b) => *a == *b,
                _ => false,
            },
            SupportedTerm::Float(a) => match other {
                SupportedTerm::Float(b) => *a == *b,
                _ => false,
            },
            SupportedTerm::Boolean(a) => match other {
                SupportedTerm::Boolean(b) => *a == *b,
                _ => false,
            },
            SupportedTerm::Text(a) => match other {
                SupportedTerm::Text(b) => *a == *b,
                _ => false,
            },
            SupportedTerm::Bytes(a) => match other {
                SupportedTerm::Bytes(b) => {
                    let r = a == b;
                    assert(r == (a@ == b@)) by {
                        if r {
                            assert(a@ =~= b@);
                        }
                    }
                    r
                },
                _ => false,
            },
            SupportedTerm::List(a) => match other {
                SupportedTerm::List(b) => items_equal(a, b),
                _ => false,
            },
            SupportedTerm::Tuple(a) => match other {
                SupportedTerm::Tuple(b) => items_equal(a, b),
                _ => false,
            },
            SupportedTerm::Dict(a) => match other {
                SupportedTerm::Dict(b) => entries_equal(a, b),
                _ => false,
            },
        }
    }
}

fn items_equal(a: &Vec<SupportedTerm>, b: &Vec<SupportedTerm>) -> (r: bool)
    ensures
        r == (items_view(a@) == items_view(b@)),
    decreases a,
{
    if a.len() != b.len() {
        return false;
    }
    let mut i: usize = 0;
    while i < a.len()
        invariant
            i <= a.len(),
            a.len() == b.len(),
            forall|j: int| 0 <= j < i ==> a@[j]@ == b@[j]@,
        decreases a.len() - i,
    {
        if !a[i].equals(&b[i]) {
            assert(items_view(a@)[i as int] != items_view(b@)[i as int]);
            return false;
        }
        i += 1;
    }
    assert(items_view(a@) =~= items_view(b@));
    true
}

fn entries_equal(
    a: &Vec<(SupportedTerm, SupportedTerm)>,
    b: &Vec<(SupportedTerm, SupportedTerm)>,
) -> (r: bool)
    ensures
        r == (entries_view(a@) == entries_view(b@)),
    decreases a,
{
    if a.len() != b.len() {
        return false;
    }
    let mut i: usize = 0;
    while i < a.len()
        invariant
            i <= a.len(),
            a.len() == b.len(),
            forall|j: int| 0 <= j < i ==> a@[j].0@ == b@[j].0@ && a@[j].1@ == b@[j].1@,
        decreases a.len() - i,
    {
        if !a[i].0.equals(&b[i].0) || !a[i].1.equals(&b[i].1) {
            assert(entries_view(a@)[i as int] != entries_view(b@)[i as int]);
            return false;
        }
        i += 1;
    }
    assert(entries_view(a@) =~= entries_view(b@));
    true
}

impl Clone for SupportedTerm {
    /// A structural copy: the clone has the value of the original.
    fn clone(&self) -> (r: SupportedTerm)
        ensures
            r@ == self@,
        decreases self,
    {
        match self {
            SupportedTerm::Integer(n) => SupportedTerm::Integer(*n),
            SupportedTerm::Unsigned(n) => SupportedTerm::Unsigned(*n),
            SupportedTerm::Float(bits) => SupportedTerm::Float(*bits),
            SupportedTerm::Boolean(b) => SupportedTerm::Boolean(*b),
            SupportedTerm::Text(s) => SupportedTerm::Text(s.clone()),
            SupportedTerm::Bytes(bytes) => SupportedTerm::Bytes(bytes.clone()),
            SupportedTerm::List(items) => SupportedTerm::List(clone_items(items)),
            SupportedTerm::Tuple(items) => SupportedTerm::Tuple(clone_items(items)),
            SupportedTerm::Dict(entries) => SupportedTerm::Dict(clone_entries(entries)),
        }
    }
}

fn clone_items(items: &Vec<SupportedTerm>) -> (r: Vec<SupportedTerm>)
    ensures
        items_view(r@) == items_view(items@),
    decreases items,
{
    let mut copy: Vec<SupportedTerm> = Vec::with_capacity(items.len());
    let mut i: usize = 0;
    while i < items.len()
        invariant
            i <= items.len(),
            copy.len() == i,
            forall|j: int| 0 <= j < i ==> copy@[j]@ == items@[j]@,
        decreases items.len() - i,
    {
        copy.push(items[i].clone());
        i += 1;
    }
    copy
}

fn clone_entries(entries: &Vec<(SupportedTerm, SupportedTerm)>) -> (r: Vec<
    (SupportedTerm, SupportedTerm),
>)
    ensures
        entries_view(r@) == entries_view(entries@),
    decreases entries,
{
    let mut copy: Vec<(SupportedTerm, SupportedTerm)> = Vec::with_capacity(entries.len());
    let mut i: usize = 0;
    while i < entries.len()
        invariant
            i <= entries.len(),
            copy.len() == i,
            forall|j: int|
                0 <= j < i ==> copy@[j].0@ == entries@[j].0@ && copy@[j].1@ == entries@[j].1@,
        decreases entries.len() - i,
    {
        copy.push((entries[i].0.clone(), entries[i].1.clone()));
        i += 1;
    }
    copy
}

impl PartialEq for SupportedTerm {
    fn eq(&self, other: &SupportedTerm) -> (r: bool) {
        self.equals(other)
    }
}

impl vstd::std_specs::cmp::PartialEqSpecImpl for SupportedTerm {
    open spec fn obeys_eq_spec() -> bool {
        true
    }

    open spec fn eq_spec(&self, other: &SupportedTerm) -> bool {
        self@ == other@
    }
}

} // verus!

