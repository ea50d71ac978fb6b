use vstd::prelude::*;

verus! {

/// What `snailquote::unescape` makes of `raw`: the text between its quotes with
/// backslash escapes resolved, or `None` when an escape is invalid.
pub uninterp spec fn unescaped(raw: Seq<char>) -> Option<Seq<char>>;

/// Relies on `snailquote::unescape`: resolves the quotes and backslash escapes of a
/// string literal; its result depends on the characters alone.
#[verifier::external_body]
pub(crate) fn unescape(raw: &str) -> (r: Option<String>)
    ensures
        r is Some <==> unescaped(raw@) is Some,
        r matches Some(t) ==> unescaped(raw@) == Some(t@),
{
    snailquote::unescape(raw).ok()
}

/// Relies on `str::chars` collected into a `Vec`: the characters of `s`, in order.
#[verifier::external_body]
pub(crate) fn chars_of(s: &str) -> (r: Vec<char>)
    ensures
        r@ == s@,
{
    s.chars().collect()
}

/// Relies on `String`'s `FromIterator<char>`: the string of `cs[from..to]`.
#[verifier::external_body]
pub(crate) fn string_from(cs: &Vec<char>, from: usize, to: usize) -> (r: String)
    requires
        from <= to <= cs.len(),
    ensures
        r@ == cs@.subrange(from as int, to as int),
{
    cs[from..to].iter().collect()
}

} // verus!
