//! Character-level helpers for `String` and `str`.

use vstd::prelude::*;

verus! {

/// Relies on `String::push`: the character is appended (it panics only when
/// the byte length would pass `isize::MAX`).
#[verifier::external_body]
pub(crate) fn push_char(s: &mut String, c: char)
    requires
        4 * (old(s)@.len() + 1) <= isize::MAX,
    ensures
        final(s)@ == old(s)@.push(c),
{
    s.push(c)
}

/// The characters of `s`, in order.
pub fn chars_of(s: &str) -> (r: Vec<char>)
    ensures
        r@ == s@,
{
    let mut out: Vec<char> = Vec::new();
    for c in it: s.chars()
        invariant
            out@ == it.seq().take(it.index() as int),
    {
        out.push(c);
    }
    out
}

} // verus!
