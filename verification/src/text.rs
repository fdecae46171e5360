//! Character classes and text helpers shared by selection and highlighting.

use vstd::prelude::*;

verus! {

/// Whether `c` has the Unicode `White_Space` property (what `char::is_whitespace` returns).
pub uninterp spec fn unicode_whitespace(c: char) -> bool;

/// Whether `c` is alphabetic or numeric in Unicode (what `char::is_alphanumeric` returns).
pub uninterp spec fn unicode_alphanumeric(c: char) -> bool;

/// The lowercase mapping of `s` (what `str::to_lowercase` returns).
pub uninterp spec fn unicode_lowercase(s: Seq<char>) -> Seq<char>;

/// An ASCII letter or digit.
pub open spec fn ascii_alphanumeric(c: char) -> bool {
    ('a' <= c && c <= 'z') || ('A' <= c && c <= 'Z') || ('0' <= c && c <= '9')
}

/// Calls `char::is_whitespace`.  Its result is named `unicode_whitespace`;
/// for ASCII input the documented White_Space characters are stated: space
/// and the controls U+0009 to U+000D.
#[verifier::external_body]
pub(crate) fn is_whitespace(c: char) -> (r: bool)
    ensures
        r == unicode_whitespace(c),
        (c as u32) < 128 ==> (r <==> (c == ' ' || (9 <= (c as u32) && (c as u32) <= 13))),
{
    c.is_whitespace()
}

/// Calls `char::is_alphanumeric` (alphabetic or numeric in Unicode).  Its
/// result is named `unicode_alphanumeric`; for ASCII input it is stated to be
/// exactly the letters and digits.
#[verifier::external_body]
pub(crate) fn is_alphanumeric(c: char) -> (r: bool)
    ensures
        r == unicode_alphanumeric(c),
        (c as u32) < 128 ==> (r <==> ascii_alphanumeric(c)),
{
    c.is_alphanumeric()
}

/// Collects the characters of `v` into a `String` (`Iterator::collect`).
#[verifier::external_body]
pub(crate) fn string_from_chars(v: &Vec<char>) -> (s: String)
    ensures
        s@ == v@,
{
    v.iter().collect()
}

/// `s` without its trailing whitespace (what `str::trim_end` keeps).
pub open spec fn trim_end(s: Seq<char>) -> Seq<char>
    decreases s.len(),
{
    if s.len() > 0 && unicode_whitespace(s.last()) { trim_end(s.drop_last()) } else { s }
}

/// Removes the trailing whitespace of `v`.
pub fn trim_end_chars(v: &mut Vec<char>)
    ensures
        final(v)@ == trim_end(old(v)@),
{
    while v.len() > 0 && is_whitespace(v[v.len() - 1])
        invariant
            trim_end(v@) == trim_end(old(v)@),
        decreases v@.len(),
    {
        let _ = v.pop();
    }
}


/// The characters of `s`, in order.
pub fn chars_of(s: &str) -> (v: Vec<char>)
    ensures
        v@ == s@,
{
    broadcast use vstd::string::group_string_axioms;
    let mut v: Vec<char> = Vec::new();
    for c in it: s.chars()
        invariant
            v@ == it.seq().take(it.index() as int),
            it.seq() == s@,
    {
        v.push(c);
    }
    v
}


/// Whether two texts are equal.
pub fn same_text(a: &str, b: &str) -> (r: bool)
    ensures
        r == (a@ == b@),
{
    let x: String = a.to_owned();
    let y: String = b.to_owned();
    x == y
}

/// `s` without its leading whitespace (what `str::trim_start` keeps).
pub open spec fn trim_start(s: Seq<char>) -> Seq<char>
    decreases s.len(),
{
    if s.len() > 0 && unicode_whitespace(s[0]) { trim_start(s.drop_first()) } else { s }
}

/// `s` without leading and trailing whitespace (what `str::trim` keeps).
pub open spec fn trim(s: Seq<char>) -> Seq<char> {
    trim_start(trim_end(s))
}

/// The text of `s` without leading and trailing whitespace.
pub fn trimmed(s: &str) -> (r: String)
    ensures
        r@ == trim(s@),
{
    let mut v = chars_of(s);
    trim_end_chars(&mut v);
    let ghost e = v@;
    let mut i: usize = 0;
    assert(e.skip(0) =~= e);
    while i < v.len() && is_whitespace(v[i])
        invariant
            i <= v@.len(),
            v@ == e,
            trim_start(e.skip(i as int)) == trim_start(e),
        decreases v@.len() - i,
    {
        assert(e.skip(i as int).drop_first() =~= e.skip(i + 1));
        i = i + 1;
    }
    let mut out: Vec<char> = Vec::new();
    let mut j: usize = i;
    while j < v.len()
        invariant
            i <= j <= v@.len(),
            v@ == e,
            out@ == e.subrange(i as int, j as int),
        decreases v@.len() - j,
    {
        out.push(v[j]);
        j = j + 1;
        assert(out@ =~= e.subrange(i as int, j as int));
    }
    assert(out@ =~= e.skip(i as int));
    string_from_chars(&out)
}

/// Calls `str::to_lowercase`; its result is named `unicode_lowercase`.
#[verifier::external_body]
pub(crate) fn to_lowercase(s: &str) -> (r: String)
    ensures
        r@ == unicode_lowercase(s@),
{
    s.to_lowercase()
}

} // verus!