use vstd::prelude::*;

verus! {

/// Relies on `String::push`: appends one character.
#[verifier::external_body]
pub(crate) fn push_char(s: &mut String, c: char)
    ensures
        final(s)@ == old(s)@.push(c),
{
    s.push(c)
}

/// Relies on `String::push_str`: appends the characters of `t`.
#[verifier::external_body]
pub(crate) fn push_text(s: &mut String, t: &str)
    ensures
        final(s)@ == old(s)@ + t@,
{
    s.push_str(t)
}

/// The characters of the bytes `s[start..end]`, one character per byte.
pub open spec fn chars_of(s: Seq<u8>, start: int, end: int) -> Seq<char> {
    s.subrange(start, end).map_values(|b: u8| b as char)
}

/// A `String` that holds the bytes `s[start..end]`, one character per byte.
pub fn string_of(s: &[u8], start: usize, end: usize) -> (r: String)
    requires
        start <= end <= s@.len(),
    ensures
        r@ == chars_of(s@, start as int, end as int),
{
    let mut out = String::new();
    let mut i: usize = start;
    while i < end
        invariant
            start <= i <= end <= s@.len(),
            out@ =~= chars_of(s@, start as int, i as int),
        decreases end - i,
    {
        push_char(&mut out, s[i] as char);
        i = i + 1;
    }
    out
}

} // verus!
