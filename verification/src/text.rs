//! Words as owned strings.

use vstd::prelude::*;

verus! {

/// `String::push` of the standard library: the string afterwards is the string
/// before with `ch` added at its end. Taken from the documentation of the
/// method; nothing here proves it.
pub assume_specification[ String::push ](s: &mut String, ch: char)
    ensures
        final(s)@ == old(s)@.push(ch),
;

/// The string that holds the characters of `chars`, in their order.
pub fn string_of(chars: &[char]) -> (s: String)
    ensures
        s@ == chars@,
{
    let mut s = String::new();
    let mut i: usize = 0;
    while i < chars.len()
        invariant
            i <= chars@.len(),
            s@ == chars@.take(i as int),
        decreases chars@.len() - i,
    {
        s.push(chars[i]);
        assert(chars@.take(i as int).push(chars@[i as int]) =~= chars@.take(i + 1));
        i = i + 1;
    }
    assert(chars@.take(i as int) =~= chars@);
    s
}

} // verus!
