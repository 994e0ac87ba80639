//! A total order on terms. It gives the entries of a dict one canonical
//! sequence, whatever order they arrived in.

use crate::supported_term::{entries_view, items_view, SupportedTerm, TermView};
use vstd::prelude::*;
use vstd::utf8::encode_utf8;

verus! {

/// How one value stands to another in the order.
#[derive(Debug, Clone, Copy, PartialEq, Eq, Structural)]
pub enum Rank {
    /// The first comes before the second.
    Before,
    /// The two are the same value.
    Same,
    /// The first comes after the second.
    After,
}

impl Rank {
    /// The rank of the second to the first.
    pub open spec fn flip(self) -> Rank {
        match self {
            Rank::Before => Rank::After,
            Rank::Same => Rank::Same,
            Rank::After => Rank::Before,
        }
    }
}

/// The place of a term's kind among the kinds.
pub open spec fn kind(t: TermView) -> int {
    match t {
        TermView::Integer(_) => 0,
        TermView::Unsigned(_) => 1,
        TermView::Float(_) => 2,
        TermView::Boolean(_) => 3,
        TermView::Text(_) => 4,
        TermView::Bytes(_) => 5,
        TermView::List(_) => 6,
        TermView::Tuple(_) => 7,
        TermView::Dict(_) => 8,
    }
}

/// The order of the integers.
pub open spec fn rank_ints(a: int, b: int) -> Rank {
    if a < b {
        Rank::Before
    } else if a == b {
        Rank::Same
    } else {
        Rank::After
    }
}

/// The order of two byte sequences from position `i` on: the first
/// position where they differ decides, and a sequence that ends there comes
/// first.
pub open spec fn rank_bytes_from(a: Seq<u8>, b: Seq<u8>, i: int) -> Rank
    decreases a.len() - i,
{
    if i < 0 || i >= a.len() {
        if i < 0 || i >= b.len() {
            Rank::Same
        } else {
            Rank::Before
        }
    } else if i >= b.len() {
        Rank::After
    } else if a[i] != b[i] {
        rank_ints(a[i] as int, b[i] as int)
    } else {
        rank_bytes_from(a, b, i + 1)
    }
}

/// The order of the terms: by kind first, then integers and bit patterns by
/// their number, `false` before `true`, text by its UTF-8 bytes, and bytes,
/// lists, tuples and dicts by the first position where they differ.
pub open spec fn rank_terms(a: TermView, b: TermView) -> Rank
    decreases a, 0nat,
{
    if kind(a) != kind(b) {
        rank_ints(kind(a), kind(b))
    } else {
        match a {
            TermView::Integer(x) => rank_ints(x as int, b->Integer_0 as int),
            TermView::Unsigned(x) => rank_ints(x as int, b->Unsigned_0 as int),
            TermView::Float(x) => rank_ints(x as int, b->Float_0 as int),
            TermView::Boolean(x) => rank_ints(
                if x {
                    1
                } else {
                    0
                },
                if b->Boolean_0 {
                    1
                } else {
                    0
                },
            ),
            TermView::Text(s) => rank_bytes_from(encode_utf8(s), encode_utf8(b->Text_0), 0),
            TermView::Bytes(s) => rank_bytes_from(s, b->Bytes_0, 0),
            TermView::List(s) => rank_items_from(s, b->List_0, 0),
            TermView::Tuple(s) => rank_items_from(s, b->Tuple_0, 0),
            TermView::Dict(e) => rank_entries_from(e, b->Dict_0, 0),
        }
    }
}

/// The order of two sequences of terms from position `i` on.
pub open spec fn rank_items_from(a: Seq<TermView>, b: Seq<TermView>, i: int) -> Rank
    decreases a, a.len() - i,
{
    if i < 0 || i >= a.len() {
        if i < 0 || i >= b.len() {
            Rank::Same
        } else {
            Rank::Before
        }
    } else if i >= b.len() {
        Rank::After
    } else {
        match rank_terms(a[i], b[i]) {
            Rank::Same => rank_items_from(a, b, i + 1),
            other => other,
        }
    }
}

/// The order of two sequences of entries from position `i` on: at each
/// position the key decides before the value.
pub open spec fn rank_entries_from(
    a: Seq<(TermView, TermView)>,
    b: Seq<(TermView, TermView)>,
    i: int,
) -> Rank
    decreases a, a.len() - i,
{
    if i < 0 || i >= a.len() {
        if i < 0 || i >= b.len() {
            Rank::Same
        } else {
            Rank::Before
        }
    } else if i >= b.len() {
        Rank::After
    } else {
        match rank_terms(a[i].0, b[i].0) {
            Rank::Same => match rank_terms(a[i].1, b[i].1) {
                Rank::Same => rank_entries_from(a, b, i + 1),
                other => other,
            },
            other => other,
        }
    }
}

/// The order of two byte slices.
pub fn rank_bytes(a: &[u8], b: &[u8]) -> (r: Rank)
    ensures
        r == rank_bytes_from(a@, b@, 0),
{
    let mut i: usize = 0;
    while i < a.len() && i < b.len()
        invariant
            i <= a.len(),
            i <= b.len(),
            rank_bytes_from(a@, b@, 0) == rank_bytes_from(a@, b@, i as int),
        decreases a.len() - i,
    {
        if a[i] < b[i] {
            return Rank::Before;
        }
        if a[i] > b[i] {
            return Rank::After;
        }
        i += 1;
    }
    if i < b.len() {
        Rank::Before
    } else if i < a.len() {
        Rank::After
    } else {
        Rank::Same
    }
}

fn rank_numbers(a: u64, b: u64) -> (r: Rank)
    ensures
        r == rank_ints(a as int, b as int),
{
    if a < b {
        Rank::Before
    } else if a == b {
        Rank::Same
    } else {
        Rank::After
    }
}

impl SupportedTerm {
    /// The place of the term's kind among the kinds.
    fn kind(&self) -> (n: u8)
        ensures
            n == kind(self@),
    {
        match self {
            SupportedTerm::Integer(_) => 0,
            SupportedTerm::Unsigned(_) => 1,
            SupportedTerm::Float(_) => 2,
            SupportedTerm::Boolean(_) => 3,
            SupportedTerm::Text(_) => 4,
            SupportedTerm::Bytes(_) => 5,
            SupportedTerm::List(_) => 6,
            SupportedTerm::Tuple(_) => 7,
            SupportedTerm::Dict(_) => 8,
        }
    }

    /// How the term stands to `other` in the order of the terms.
    pub fn rank(&self, other: &SupportedTerm) -> (r: Rank)
        ensures
            r == rank_terms(self@, other@),
        decreases self,
    {
        let mine = self.kind();
        let theirs = other.kind();
        if mine != theirs {
            return rank_numbers(mine as u64, theirs as u64);
        }
        match self {
            SupportedTerm::Integer(a) => match other {
                SupportedTerm::Integer(b) => {
                    if *a < *b {
                        Rank::Before
                    } else if *a == *b {
                        Rank::Same
                    } else {
                        Rank::After
                    }
                },
                _ => Rank::Same,
            },
            SupportedTerm::Unsigned(a) => match other {
                SupportedTerm::Unsigned(b) => rank_numbers(*a, *b),
                _ => Rank::Same,
            },
            SupportedTerm::Float(a) => match other {
                SupportedTerm::Float(b) => rank_numbers(*a, *b),
                _ => Rank::Same,
            },
            SupportedTerm::Boolean(a) => match other {
                SupportedTerm::Boolean(b) => rank_numbers(
                    if *a {
                        1
                    } else {
                        0
                    },
                    if *b {
                        1
                    } else {
                        0
                    },
                ),
                _ => Rank::Same,
            },
            SupportedTerm::Text(a) => match other {
                SupportedTerm::Text(b) => rank_bytes(a.as_str().as_bytes(), b.as_str().as_bytes()),
                _ => Rank::Same,
            },
            SupportedTerm::Bytes(a) => match other {
                SupportedTerm::Bytes(b) => rank_bytes(a.as_slice(), b.as_slice()),
                _ => Rank::Same,
            },
            SupportedTerm::List(a) => match other {
                SupportedTerm::List(b) => rank_items(a, b),
                _ => Rank::Same,
            },
            SupportedTerm::Tuple(a) => match other {
                SupportedTerm::Tuple(b) => rank_items(a, b),
                _ => Rank::Same,
            },
            SupportedTerm::Dict(a) => match other {
                SupportedTerm::Dict(b) => rank_entries(a, b),
                _ => Rank::Same,
            },
        }
    }
}

fn rank_items(a: &Vec<SupportedTerm>, b: &Vec<SupportedTerm>) -> (r: Rank)
    ensures
        r == rank_items_from(items_view(a@), items_view(b@), 0),
    decreases a,
{
    let ghost av = items_view(a@);
    let ghost bv = items_view(b@);
    let mut i: usize = 0;
    while i < a.len() && i < b.len()
        invariant
            i <= a.len(),
            i <= b.len(),
            av == items_view(a@),
            bv == items_view(b@),
            rank_items_from(av, bv, 0) == rank_items_from(av, bv, i as int),
        decreases a.len() - i,
    {
        match a[i].rank(&b[i]) {
            Rank::Same => {},
            other => {
                return other;
            },
        }
        i += 1;
    }
    if i < b.len() {
        Rank::Before
    } else if i < a.len() {
        Rank::After
    } else {
        Rank::Same
    }
}

fn rank_entries(
    a: &Vec<(SupportedTerm, SupportedTerm)>,
    b: &Vec<(SupportedTerm, SupportedTerm)>,
) -> (r: Rank)
    ensures
        r == rank_entries_from(entries_view(a@), entries_view(b@), 0),
    decreases a,
{
    let ghost av = entries_view(a@);
    let ghost bv = entries_view(b@);
    let mut i: usize = 0;
    while i < a.len() && i < b.len()
        invariant
            i <= a.len(),
            i <= b.len(),
            av == entries_view(a@),
            bv == entries_view(b@),
            rank_entries_from(av, bv, 0) == rank_entries_from(av, bv, i as int),
        decreases a.len() - i,
    {
        match a[i].0.rank(&b[i].0) {
            Rank::Same => {},
            other => {
                return other;
            },
        }
        match a[i].1.rank(&b[i].1) {
            Rank::Same => {},
            other => {
                return other;
            },
        }
        i += 1;
    }
    if i < b.len() {
        Rank::Before
    } else if i < a.len() {
        Rank::After
    } else {
        Rank::Same
    }
}

/// Two byte sequences rank the same from `i` on exactly when they agree
/// from there on.
proof fn lemma_bytes_same(a: Seq<u8>, b: Seq<u8>, i: int)
    requires
        0 <= i <= a.len(),
        i <= b.len(),
    ensures
        rank_bytes_from(a, b, i) == Rank::Same <==> (a.len() == b.len() && forall|j: int|
            i <= j < a.len() ==> a[j] == b[j]),
    decreases a.len() - i,
{
    if i < a.len() && i < b.len() && a[i] == b[i] {
        lemma_bytes_same(a, b, i + 1);
    }
}

/// Swapping two byte sequences flips their rank.
proof fn lemma_bytes_flip(a: Seq<u8>, b: Seq<u8>, i: int)
    ensures
        rank_bytes_from(b, a, i) == rank_bytes_from(a, b, i).flip(),
    decreases a.len() - i,
{
    if 0 <= i < a.len() && i < b.len() && a[i] == b[i] {
        lemma_bytes_flip(a, b, i + 1);
    }
}

/// Coming before is transitive on byte sequences.
proof fn lemma_bytes_transitive(a: Seq<u8>, b: Seq<u8>, c: Seq<u8>, i: int)
    requires
        rank_bytes_from(a, b, i) == Rank::Before,
        rank_bytes_from(b, c, i) == Rank::Before,
    ensures
        rank_bytes_from(a, c, i) == Rank::Before,
    decreases a.len() - i,
{
    if 0 <= i < a.len() && i < b.len() && i < c.len() && a[i] == b[i] && b[i] == c[i] {
        lemma_bytes_transitive(a, b, c, i + 1);
    }
}

/// Two terms rank the same exactly when they are the same term.
pub proof fn law_rank_same_iff_equal(a: TermView, b: TermView)
    ensures
        rank_terms(a, b) == Rank::Same <==> a == b,
    decreases a, 0nat,
{
    if kind(a) == kind(b) {
        match a {
            TermView::Text(s) => {
                let t = b->Text_0;
                lemma_bytes_same(encode_utf8(s), encode_utf8(t), 0);
                vstd::utf8::encode_utf8_decode_utf8(s);
                vstd::utf8::encode_utf8_decode_utf8(t);
                if rank_terms(a, b) == Rank::Same {
                    assert(encode_utf8(s) =~= encode_utf8(t));
                }
            },
            TermView::Bytes(s) => {
                let t = b->Bytes_0;
                lemma_bytes_same(s, t, 0);
                if rank_terms(a, b) == Rank::Same {
                    assert(s =~= t);
                }
            },
            TermView::List(s) => {
                let t = b->List_0;
                lemma_items_same(s, t, 0);
                if rank_terms(a, b) == Rank::Same {
                    assert(s =~= t);
                }
            },
            TermView::Tuple(s) => {
                let t = b->Tuple_0;
                lemma_items_same(s, t, 0);
                if rank_terms(a, b) == Rank::Same {
                    assert(s =~= t);
                }
            },
            TermView::Dict(s) => {
                let t = b->Dict_0;
                lemma_entries_same(s, t, 0);
                if rank_terms(a, b) == Rank::Same {
                    assert(s =~= t);
                }
            },
            _ => {},
        }
    }
}

/// Two sequences of terms rank the same from `i` on exactly when they
/// agree from there on.
proof fn lemma_items_same(a: Seq<TermView>, b: Seq<TermView>, i: int)
    requires
        0 <= i <= a.len(),
        i <= b.len(),
    ensures
        rank_items_from(a, b, i) == Rank::Same <==> (a.len() == b.len() && forall|j: int|
            i <= j < a.len() ==> a[j] == b[j]),
    decreases a, a.len() - i,
{
    if i < a.len() && i < b.len() {
        law_rank_same_iff_equal(a[i], b[i]);
        if a[i] == b[i] {
            lemma_items_same(a, b, i + 1);
        }
    }
}

/// Two sequences of entries rank the same from `i` on exactly when they
/// agree from there on.
proof fn lemma_entries_same(a: Seq<(TermView, TermView)>, b: Seq<(TermView, TermView)>, i: int)
    requires
        0 <= i <= a.len(),
        i <= b.len(),
    ensures
        rank_entries_from(a, b, i) == Rank::Same <==> (a.len() == b.len() && forall|j: int|
            i <= j < a.len() ==> a[j] == b[j]),
    decreases a, a.len() - i,
{
    if i < a.len() && i < b.len() {
        law_rank_same_iff_equal(a[i].0, b[i].0);
        law_rank_same_iff_equal(a[i].1, b[i].1);
        if a[i] == b[i] {
            lemma_entries_same(a, b, i + 1);
        }
    }
}

/// Swapping two terms flips their rank: one comes before the other exactly
/// when the other comes after it.
pub proof fn law_rank_flip(a: TermView, b: TermView)
    ensures
        rank_terms(b, a) == rank_terms(a, b).flip(),
    decreases a, 0nat,
{
    if kind(a) == kind(b) {
        match a {
            TermView::Text(s) => {
                lemma_bytes_flip(encode_utf8(s), encode_utf8(b->Text_0), 0);
            },
            TermView::Bytes(s) => {
                lemma_bytes_flip(s, b->Bytes_0, 0);
            },
            TermView::List(s) => {
                lemma_items_flip(s, b->List_0, 0);
            },
            TermView::Tuple(s) => {
                lemma_items_flip(s, b->Tuple_0, 0);
            },
            TermView::Dict(s) => {
                lemma_entries_flip(s, b->Dict_0, 0);
            },
            _ => {},
        }
    }
}

/// Swapping two sequences of terms flips their rank.
proof fn lemma_items_flip(a: Seq<TermView>, b: Seq<TermView>, i: int)
    ensures
        rank_items_from(b, a, i) == rank_items_from(a, b, i).flip(),
    decreases a, a.len() - i,
{
    if 0 <= i < a.len() && i < b.len() {
        law_rank_flip(a[i], b[i]);
        if rank_terms(a[i], b[i]) == Rank::Same {
            lemma_items_flip(a, b, i + 1);
        }
    }
}

/// Swapping two sequences of entries flips their rank.
proof fn lemma_entries_flip(a: Seq<(TermView, TermView)>, b: Seq<(TermView, TermView)>, i: int)
    ensures
        rank_entries_from(b, a, i) == rank_entries_from(a, b, i).flip(),
    decreases a, a.len() - i,
{
    if 0 <= i < a.len() && i < b.len() {
        law_rank_flip(a[i].0, b[i].0);
        law_rank_flip(a[i].1, b[i].1);
        if rank_terms(a[i].0, b[i].0) == Rank::Same && rank_terms(a[i].1, b[i].1) == Rank::Same {
            lemma_entries_flip(a, b, i + 1);
        }
    }
}

/// Coming before is transitive: a term before a second one that is before
/// a third is before the third.
pub proof fn law_rank_transitive(a: TermView, b: TermView, c: TermView)
    requires
        rank_terms(a, b) == Rank::Before,
        rank_terms(b, c) == Rank::Before,
    ensures
        rank_terms(a, c) == Rank::Before,
    decreases a, 0nat,
{
    if kind(a) == kind(b) && kind(b) == kind(c) {
        match a {
            TermView::Text(s) => {
                lemma_bytes_transitive(
                    encode_utf8(s),
                    encode_utf8(b->Text_0),
                    encode_utf8(c->Text_0),
                    0,
                );
            },
            TermView::Bytes(s) => {
                lemma_bytes_transitive(s, b->Bytes_0, c->Bytes_0, 0);
            },
            TermView::List(s) => {
                lemma_items_transitive(s, b->List_0, c->List_0, 0);
            },
            TermView::Tuple(s) => {
                lemma_items_transitive(s, b->Tuple_0, c->Tuple_0, 0);
            },
            TermView::Dict(s) => {
                lemma_entries_transitive(s, b->Dict_0, c->Dict_0, 0);
            },
            _ => {},
        }
    }
}

/// Coming before is transitive on sequences of terms.
proof fn lemma_items_transitive(
    a: Seq<TermView>,
    b: Seq<TermView>,
    c: Seq<TermView>,
    i: int,
)
    requires
        rank_items_from(a, b, i) == Rank::Before,
        rank_items_from(b, c, i) == Rank::Before,
    ensures
        rank_items_from(a, c, i) == Rank::Before,
    decreases a, a.len() - i,
{
    if 0 <= i < a.len() && i < b.len() && i < c.len() {
        law_rank_same_iff_equal(a[i], b[i]);
        law_rank_same_iff_equal(b[i], c[i]);
        let ab = rank_terms(a[i], b[i]);
        let bc = rank_terms(b[i], c[i]);
        if ab == Rank::Before && bc == Rank::Before {
            law_rank_transitive(a[i], b[i], c[i]);
        } else if ab == Rank::Same && bc == Rank::Same {
            lemma_items_transitive(a, b, c, i + 1);
        }
    }
}

/// Coming before is transitive on sequences of entries.
proof fn lemma_entries_transitive(
    a: Seq<(TermView, TermView)>,
    b: Seq<(TermView, TermView)>,
    c: Seq<(TermView, TermView)>,
    i: int,
)
    requires
        rank_entries_from(a, b, i) == Rank::Before,
        rank_entries_from(b, c, i) == Rank::Before,
    ensures
        rank_entries_from(a, c, i) == Rank::Before,
    decreases a, a.len() - i,
{
    if 0 <= i < a.len() && i < b.len() && i < c.len() {
        law_rank_same_iff_equal(a[i].0, b[i].0);
        law_rank_same_iff_equal(b[i].0, c[i].0);
        law_rank_same_iff_equal(a[i].1, b[i].1);
        law_rank_same_iff_equal(b[i].1, c[i].1);
        let kab = rank_terms(a[i].0, b[i].0);
        let kbc = rank_terms(b[i].0, c[i].0);
        let vab = rank_terms(a[i].1, b[i].1);
        let vbc = rank_terms(b[i].1, c[i].1);
        if kab == Rank::Before && kbc == Rank::Before {
            law_rank_transitive(a[i].0, b[i].0, c[i].0);
        } else if kab == Rank::Same && kbc == Rank::Same {
            if vab == Rank::Before && vbc == Rank::Before {
                law_rank_transitive(a[i].1, b[i].1, c[i].1);
            } else if vab == Rank::Same && vbc == Rank::Same {
                lemma_entries_transitive(a, b, c, i + 1);
            }
        }
    }
}

} // verus!
