//! Strings as sequences of characters: comparison, and the plain form of
//! named values.

use vstd::prelude::*;

verus! {

/// A list of named values, each name as its characters.
pub open spec fn pair_views(pairs: Seq<(String, i32)>) -> Seq<(Seq<char>, i32)> {
    Seq::new(pairs.len(), |i: int| (pairs[i].0@, pairs[i].1))
}

/// Whether two string slices hold the same characters.
///
/// The slices are compared byte by byte; two strings with the same UTF-8
/// encoding decode to the same characters, and the other way round.
pub fn same_text(a: &str, b: &str) -> (same: bool)
    ensures
        same == (a@ == b@),
{
    let left = a.as_bytes();
    let right = b.as_bytes();
    if left.len() != right.len() {
        return false;
    }
    let mut i: usize = 0;
    while i < left.len()
        invariant
            left@ == vstd::utf8::encode_utf8(a@),
            right@ == vstd::utf8::encode_utf8(b@),
            left@.len() == right@.len(),
            i <= left@.len(),
            forall|j: int| 0 <= j < i ==> left@[j] == right@[j],
        decreases left@.len() - i,
    {
        if left[i] != right[i] {
            assert(vstd::utf8::encode_utf8(a@)[i as int] != vstd::utf8::encode_utf8(b@)[i as int]);
            return false;
        }
        i += 1;
    }
    proof {
        assert(left@ =~= right@);
        vstd::utf8::encode_utf8_decode_utf8(a@);
        vstd::utf8::encode_utf8_decode_utf8(b@);
    }
    true
}

} // verus!
