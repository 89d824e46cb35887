//! The two orders on keys: by the bytes of their UTF-8 text, and by Unicode
//! collation.

use core::cmp::Ordering;
use vstd::prelude::*;
use vstd::string::StringSliceAdditionalSpecFns;
use vstd::utf8::encode_utf8;

verus! {

/// feruca's collator, carried opaque: it holds the chosen options and
/// scratch buffers.
#[verifier::external_type_specification]
#[verifier::external_body]
pub struct ExCollator(feruca::Collator);

/// How the keys of a drained table are ordered.
#[derive(Clone, Copy, Debug)]
pub enum KeyOrder {
    /// By the bytes of the UTF-8 text, as `String` compares.
    Bytes,
    /// By the Unicode Collation Algorithm, root locale.
    Collation,
}

/// Lexicographic order of two byte sequences.
pub open spec fn bytes_order(a: Seq<u8>, b: Seq<u8>) -> Ordering
    decreases a.len(),
{
    if a.len() == 0 {
        if b.len() == 0 {
            Ordering::Equal
        } else {
            Ordering::Less
        }
    } else if b.len() == 0 {
        Ordering::Greater
    } else if a[0] < b[0] {
        Ordering::Less
    } else if a[0] > b[0] {
        Ordering::Greater
    } else {
        bytes_order(a.drop_first(), b.drop_first())
    }
}

/// What the root-locale collator answers for two texts.
pub uninterp spec fn collation_order(a: Seq<char>, b: Seq<char>) -> Ordering;

/// The order of two keys under `order`.
pub open spec fn key_order(order: KeyOrder, a: Seq<char>, b: Seq<char>) -> Ordering {
    match order {
        KeyOrder::Bytes => bytes_order(encode_utf8(a), encode_utf8(b)),
        KeyOrder::Collation => collation_order(a, b),
    }
}

/// Swapping the operands of `bytes_order` swaps `Less` and `Greater`.
pub proof fn lemma_bytes_order_antisymmetric(a: Seq<u8>, b: Seq<u8>)
    ensures
        bytes_order(a, b) == Ordering::Greater <==> bytes_order(b, a) == Ordering::Less,
        bytes_order(a, b) == Ordering::Equal <==> a == b,
    decreases a.len(),
{
    if a.len() > 0 && b.len() > 0 && a[0] == b[0] {
        lemma_bytes_order_antisymmetric(a.drop_first(), b.drop_first());
        if a.drop_first() == b.drop_first() {
            assert(a =~= seq![a[0]] + a.drop_first());
            assert(b =~= seq![b[0]] + b.drop_first());
        }
    }
    if a.len() > 0 && b.len() > 0 && a[0] != b[0] {
        assert(a != b);
    }
    if a.len() == 0 && b.len() == 0 {
        assert(a =~= b);
    }
    if a.len() == 0 && b.len() != 0 {
        assert(a != b);
    }
    if a.len() != 0 && b.len() == 0 {
        assert(a != b);
    }
}

/// Compares two byte sequences lexicographically.
pub fn compare_bytes(a: &[u8], b: &[u8]) -> (r: Ordering)
    ensures
        r == bytes_order(a@, b@),
{
    let mut i: usize = 0;
    assert(a@.skip(0) =~= a@);
    assert(b@.skip(0) =~= b@);
    while i < a.len() && i < b.len()
        invariant
            i <= a.len(),
            i <= b.len(),
            bytes_order(a@, b@) == bytes_order(a@.skip(i as int), b@.skip(i as int)),
        decreases a.len() - i,
    {
        if a[i] < b[i] {
            return Ordering::Less;
        }
        if a[i] > b[i] {
            return Ordering::Greater;
        }
        assert(a@.skip(i as int).drop_first() =~= a@.skip(i + 1));
        assert(b@.skip(i as int).drop_first() =~= b@.skip(i + 1));
        i += 1;
    }
    if i == a.len() {
        if i == b.len() {
            Ordering::Equal
        } else {
            Ordering::Less
        }
    } else {
        Ordering::Greater
    }
}

/// Relies on feruca's `Collator::default`: the CLDR root collator, with
/// shifted variable weights and a byte-value tiebreak.
#[verifier::external_body]
fn default_collator() -> feruca::Collator {
    feruca::Collator::default()
}

/// Relies on feruca's `Collator::collate`: its answer depends on the two texts
/// alone, equal texts compare `Equal`, and, being meant for `sort_by`, it
/// orders consistently in both directions.
#[verifier::external_body]
fn collate(collator: &mut feruca::Collator, a: &String, b: &String) -> (r: Ordering)
    ensures
        r == collation_order(a@, b@),
        a@ == b@ ==> r == Ordering::Equal,
        r == Ordering::Greater ==> collation_order(b@, a@) == Ordering::Less,
{
    collator.collate(a.as_str(), b.as_str())
}

/// A comparer of keys under one order.
pub struct KeyComparer {
    order: KeyOrder,
    collator: feruca::Collator,
}

impl KeyComparer {
    pub closed spec fn order(&self) -> KeyOrder {
        self.order
    }

    /// A comparer for `order`.
    pub fn new(order: KeyOrder) -> (r: Self)
        ensures
            r.order() == order,
    {
        KeyComparer { order, collator: default_collator() }
    }

    /// Compares two keys; `Greater` one way is `Less` the other way.
    pub fn compare(&mut self, a: &String, b: &String) -> (r: Ordering)
        ensures
            final(self).order() == old(self).order(),
            r == key_order(old(self).order(), a@, b@),
            r == Ordering::Greater ==> key_order(old(self).order(), b@, a@) == Ordering::Less,
    {
        match self.order {
            KeyOrder::Bytes => {
                let r = compare_bytes(a.as_str().as_bytes(), b.as_str().as_bytes());
                proof {
                    lemma_bytes_order_antisymmetric(encode_utf8(a@), encode_utf8(b@));
                }
                r
            },
            KeyOrder::Collation => collate(&mut self.collator, a, b),
        }
    }
}

} // verus!
