//! Text as sequences of characters, and the three operations on string slices
//! that the library takes from std without a proof.

use vstd::prelude::*;

verus! {

/// `s` with each occurrence of `from` replaced by `to`.
pub open spec fn replaced(s: Seq<char>, from: char, to: Seq<char>) -> Seq<char>
    decreases s.len(),
{
    if s.len() == 0 {
        s
    } else if s.last() == from {
        replaced(s.drop_last(), from, to) + to
    } else {
        replaced(s.drop_last(), from, to).push(s.last())
    }
}

/// std's `==` on string slices: two slices are equal when they hold the same
/// characters in the same order.
#[verifier::external_body]
pub(crate) fn str_eq(a: &str, b: &str) -> (same: bool)
    ensures
        same == (a@ == b@),
{
    a == b
}

/// std's `str::starts_with` with a string slice as the pattern: whether the
/// pattern's characters are the first characters of `s`.
#[verifier::external_body]
pub(crate) fn str_starts_with(s: &str, prefix: &str) -> (found: bool)
    ensures
        found == prefix@.is_prefix_of(s@),
{
    s.starts_with(prefix)
}

/// std's `str::replace` with a character as the pattern: a new string in which
/// every occurrence of `from` has given way to `to`, and every other character
/// stands as it stood.
#[verifier::external_body]
pub(crate) fn str_replace(s: &str, from: char, to: &str) -> (out: String)
    ensures
        out@ == replaced(s@, from, to@),
{
    s.replace(from, to)
}

/// Replacing a character by nothing leaves the other characters, in order.
pub proof fn lemma_replaced_by_nothing(s: Seq<char>, from: char)
    ensures
        replaced(s, from, Seq::empty()) == s.filter(|c: char| c != from),
    decreases s.len(),
{
    reveal(Seq::filter);
    if s.len() > 0 {
        lemma_replaced_by_nothing(s.drop_last(), from);
        assert(replaced(s.drop_last(), from, Seq::empty()) + Seq::<char>::empty()
            =~= replaced(s.drop_last(), from, Seq::empty()));
    }
}

} // verus!
