//! Canonical keys: a word's characters rearranged into ascending code-point order.

use itertools::Itertools;
use vstd::prelude::*;
use vstd::relations::{sorted_by, total_ordering};

verus! {

/// The fixed total order on characters that keys are sorted by: code points, ascending.
pub open spec fn code_order() -> spec_fn(char, char) -> bool {
    |a: char, b: char| (a as u32) <= (b as u32)
}

/// The canonical key of a word: its characters sorted by `code_order`.
pub open spec fn canonical(w: Seq<char>) -> Seq<char> {
    w.sort_by(code_order())
}

/// Code-point order is a total order on characters.
pub proof fn lemma_code_order_total()
    ensures
        total_ordering(code_order()),
{
    let leq = code_order();
    assert forall|x: char, y: char| #[trigger] leq(x, y) && #[trigger] leq(y, x) implies x == y by {
        vstd::utf8::char_u32_cast(x, x as u32);
        vstd::utf8::char_u32_cast(y, y as u32);
    }
    assert(vstd::relations::antisymmetric(leq));
}

/// A key is the canonical key of a word exactly when it is sorted and holds the
/// same characters.
pub proof fn lemma_canonical_characterized(w: Seq<char>, k: Seq<char>)
    ensures
        (k == canonical(w)) <==> (sorted_by(k, code_order()) && k.to_multiset()
            == w.to_multiset()),
{
    lemma_code_order_total();
    w.lemma_sort_by_ensures(code_order());
    if sorted_by(k, code_order()) && k.to_multiset() == w.to_multiset() {
        vstd::seq_lib::lemma_sorted_unique(k, canonical(w), code_order());
    }
}

/// Two words have the same canonical key exactly when one is a permutation of
/// the other (they hold the same multiset of characters).
pub proof fn lemma_canonical_iff_permutation(w1: Seq<char>, w2: Seq<char>)
    ensures
        (canonical(w1) == canonical(w2)) <==> (w1.to_multiset() == w2.to_multiset()),
{
    lemma_code_order_total();
    w1.lemma_sort_by_ensures(code_order());
    w2.lemma_sort_by_ensures(code_order());
    if w1.to_multiset() == w2.to_multiset() {
        vstd::seq_lib::lemma_sorted_unique(canonical(w1), canonical(w2), code_order());
    }
}

/// Every permutation of a word has the word's canonical key.
pub proof fn lemma_canonical_invariance(w: Seq<char>, p: Seq<char>)
    requires
        p.to_multiset() == w.to_multiset(),
    ensures
        canonical(p) == canonical(w),
{
    lemma_canonical_iff_permutation(w, p);
}

/// Relies on itertools::Itertools::sorted over `str::chars`: the same characters,
/// collected in ascending order (`char`'s order is its code point).
#[verifier::external_body]
fn sorted_chars(s: &str) -> (r: String)
    ensures
        r@.to_multiset() == s@.to_multiset(),
        sorted_by(r@, code_order()),
{
    s.chars().sorted().collect::<String>()
}

/// The canonical key of `word`.
pub fn canonicalize(word: &str) -> (r: String)
    ensures
        r@ == canonical(word@),
{
    let r = sorted_chars(word);
    proof {
        lemma_canonical_characterized(word@, r@);
    }
    r
}

} // verus!
