//! Small helpers for building and reading `String`s character by character.
use vstd::prelude::*;

verus! {

/// `String::push` of the standard library: appends the character `c` to the
/// end of `s` and leaves the characters before it as they were. This contract
/// is taken from the documentation of `String::push`; it is not proved here.
pub assume_specification[ String::push ](s: &mut String, c: char)
    ensures
        final(s)@ == old(s)@.push(c),
;

/// The views of the elements of `s`, in order.
pub open spec fn views<T: View>(s: Seq<T>) -> Seq<T::V> {
    Seq::new(s.len(), |i: int| s[i]@)
}

/// The characters of `s`, in order, as a vector that can be indexed in
/// constant time.
pub fn chars_of(s: &str) -> (chars: Vec<char>)
    ensures
        chars@ == s@,
{
    let mut chars: Vec<char> = Vec::new();
    let it = s.chars();
    for c in iter: it
        invariant
            chars@ == iter.seq().take(iter.index() as int),
    {
        chars.push(c);
    }
    chars
}

} // verus!
