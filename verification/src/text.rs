//! Appending to a `String`, with the effect stated over its view.

use vstd::prelude::*;

verus! {

/// `String::push`. Trusted: the string afterwards is the string before with
/// `c` added at its end, as std documents.
#[verifier::external_body]
pub(crate) fn push_char(s: &mut String, c: char)
    ensures
        final(s)@ == old(s)@.push(c),
{
    s.push(c);
}

/// `String::push_str`. Trusted: the string afterwards is the string before
/// followed by the characters of `t`, as std documents.
#[verifier::external_body]
pub(crate) fn push_text(s: &mut String, t: &str)
    ensures
        final(s)@ == old(s)@ + t@,
{
    s.push_str(t);
}

} // verus!
