//! A hash of terms that depends on nothing but their value: equal terms
//! have equal hashes on every machine and in every run.

use crate::supported_term::{entries_view, items_view, SupportedTerm, TermView};
use vstd::prelude::*;
use vstd::utf8::encode_utf8;

verus! {

/// The hash of nothing.
pub const HASH_BASIS: u64 = 0xcbf2_9ce4_8422_2325;

/// The multiplier of every mixing step.
pub const HASH_PRIME: u64 = 0x0000_0100_0000_01b3;

/// One step: `x` is mixed into the hash `h`.
pub open spec fn mix(h: u64, x: u64) -> u64 {
    (h ^ x).wrapping_mul(HASH_PRIME)
}

/// The bytes from position `i` on, mixed into `h` one by one.
pub open spec fn hash_bytes_from(s: Seq<u8>, h: u64, i: int) -> u64
    decreases s.len() - i,
{
    if i < 0 || i >= s.len() {
        h
    } else {
        hash_bytes_from(s, mix(h, s[i] as u64), i + 1)
    }
}

/// A term mixed into `h`: its kind, then its number, or its length and its
/// parts in their order. Text goes by its UTF-8 bytes.
pub open spec fn hash_term_into(t: TermView, h: u64) -> u64
    decreases t, 0nat,
{
    match t {
        TermView::Integer(n) => mix(mix(h, 0), n as u64),
        TermView::Unsigned(n) => mix(mix(h, 1), n),
        TermView::Float(bits) => mix(mix(h, 2), bits),
        TermView::Boolean(b) => mix(
            mix(h, 3),
            if b {
                1
            } else {
                0
            },
        ),
        TermView::Text(s) => hash_bytes_from(
            encode_utf8(s),
            mix(mix(h, 4), encode_utf8(s).len() as u64),
            0,
        ),
        TermView::Bytes(s) => hash_bytes_from(s, mix(mix(h, 5), s.len() as u64), 0),
        TermView::List(s) => hash_items_from(s, mix(mix(h, 6), s.len() as u64), 0),
        TermView::Tuple(s) => hash_items_from(s, mix(mix(h, 7), s.len() as u64), 0),
        TermView::Dict(e) => hash_entries_from(e, mix(mix(h, 8), e.len() as u64), 0),
    }
}

/// The terms from position `i` on, mixed into `h` one by one.
pub open spec fn hash_items_from(s: Seq<TermView>, h: u64, i: int) -> u64
    decreases s, s.len() - i,
{
    if i < 0 || i >= s.len() {
        h
    } else {
        hash_items_from(s, hash_term_into(s[i], h), i + 1)
    }
}

/// The entries from position `i` on, mixed into `h`: of each its key, then
/// its value.
pub open spec fn hash_entries_from(e: Seq<(TermView, TermView)>, h: u64, i: int) -> u64
    decreases e, e.len() - i,
{
    if i < 0 || i >= e.len() {
        h
    } else {
        hash_entries_from(e, hash_term_into(e[i].1, hash_term_into(e[i].0, h)), i + 1)
    }
}

/// The hash of a term.
pub open spec fn hash_term(t: TermView) -> u64 {
    hash_term_into(t, HASH_BASIS)
}

fn mixed(h: u64, x: u64) -> (r: u64)
    ensures
        r == mix(h, x),
{
    (h ^ x).wrapping_mul(HASH_PRIME)
}

fn hash_bytes(bytes: &[u8], seed: u64) -> (r: u64)
    ensures
        r == hash_bytes_from(bytes@, seed, 0),
{
    let mut h: u64 = seed;
    let mut i: usize = 0;
    while i < bytes.len()
        invariant
            i <= bytes.len(),
            hash_bytes_from(bytes@, seed, 0) == hash_bytes_from(bytes@, h, i as int),
        decreases bytes.len() - i,
    {
        h = mixed(h, bytes[i] as u64);
        i += 1;
    }
    h
}

impl SupportedTerm {
    /// The hash of the term. It is a function of the term's value alone:
    /// terms that [`equals`](SupportedTerm::equals) holds of have the same
    /// hash.
    pub fn hash(&self) -> (r: u64)
        ensures
            r == hash_term(self@),
    {
        self.hash_into(HASH_BASIS)
    }

    fn hash_into(&self, h: u64) -> (r: u64)
        ensures
            r == hash_term_into(self@, h),
        decreases self,
    {
        match self {
            SupportedTerm::Integer(n) => mixed(mixed(h, 0), *n as u64),
            SupportedTerm::Unsigned(n) => mixed(mixed(h, 1), *n),
            SupportedTerm::Float(bits) => mixed(mixed(h, 2), *bits),
            SupportedTerm::Boolean(b) => mixed(
                mixed(h, 3),
                if *b {
                    1
                } else {
                    0
                },
            ),
            SupportedTerm::Text(s) => {
                let bytes = s.as_str().as_bytes();
                hash_bytes(bytes, mixed(mixed(h, 4), bytes.len() as u64))
            },
            SupportedTerm::Bytes(b) => hash_bytes(
                b.as_slice(),
                mixed(mixed(h, 5), b.len() as u64),
            ),
            SupportedTerm::List(items) => hash_items(items, mixed(mixed(h, 6), items.len() as u64)),
            SupportedTerm::Tuple(items) => hash_items(
                items,
                mixed(mixed(h, 7), items.len() as u64),
            ),
            SupportedTerm::Dict(entries) => hash_entries(
                entries,
                mixed(mixed(h, 8), entries.len() as u64),
            ),
        }
    }
}

fn hash_items(items: &Vec<SupportedTerm>, seed: u64) -> (r: u64)
    ensures
        r == hash_items_from(items_view(items@), seed, 0),
    decreases items,
{
    let ghost views = items_view(items@);
    let mut h: u64 = seed;
    let mut i: usize = 0;
    while i < items.len()
        invariant
            i <= items.len(),
            views == items_view(items@),
            hash_items_from(views, seed, 0) == hash_items_from(views, h, i as int),
        decreases items.len() - i,
    {
        h = items[i].hash_into(h);
        i += 1;
    }
    h
}

fn hash_entries(entries: &Vec<(SupportedTerm, SupportedTerm)>, seed: u64) -> (r: u64)
    ensures
        r == hash_entries_from(entries_view(entries@), seed, 0),
    decreases entries,
{
    let ghost views = entries_view(entries@);
    let mut h: u64 = seed;
    let mut i: usize = 0;
    while i < entries.len()
        invariant
            i <= entries.len(),
            views == entries_view(entries@),
            hash_entries_from(views, seed, 0) == hash_entries_from(views, h, i as int),
        decreases entries.len() - i,
    {
        h = entries[i].0.hash_into(h);
        h = entries[i].1.hash_into(h);
        i += 1;
    }
    h
}

/// Equal terms have equal hashes.
pub proof fn law_equal_terms_hash_alike(a: SupportedTerm, b: SupportedTerm)
    requires
        a@ == b@,
    ensures
        hash_term(a@) == hash_term(b@),
{
}

} // verus!
