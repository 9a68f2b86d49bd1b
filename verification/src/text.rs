use vstd::prelude::*;
use vstd::string::StringExecFns;

verus! {

/// Whether two pieces of text hold the same characters.
pub fn same_text(a: &str, b: &str) -> (r: bool)
    ensures
        r == (a@ == b@),
{
    let n = a.unicode_len();
    let m = b.unicode_len();
    if n != m {
        return false;
    }
    let mut i: usize = 0;
    while i < n
        invariant
            n == a@.len(),
            m == b@.len(),
            n == m,
            i <= n,
            forall|j: int| 0 <= j < i ==> a@[j] == b@[j],
        decreases n - i,
    {
        if a.get_char(i) != b.get_char(i) {
            return false;
        }
        i = i + 1;
    }
    assert(a@ =~= b@);
    true
}

} // verus!

verus! {

/// What `textwrap::fill` makes of a text at a width: the text broken into
/// lines of at most `width` columns, joined by newlines.
pub uninterp spec fn wrapped(text: Seq<char>, width: usize) -> Seq<char>;

/// Wraps a text at `width` columns (`textwrap::fill`). The result depends
/// on the text and the width alone; how the lines are broken is not
/// stated here.
#[verifier::external_body]
pub(crate) fn fill(text: &str, width: usize) -> (r: String)
    ensures
        r@ == wrapped(text@, width),
{
    textwrap::fill(text, width)
}

/// Appends one character to a string (`String::push`).
#[verifier::external_body]
pub(crate) fn push_char(s: &mut String, c: char)
    ensures
        final(s)@ == old(s)@.push(c),
{
    s.push(c);
}

/// A new string holding the characters of `s` (`str::to_string`).
pub fn owned(s: &str) -> (r: String)
    ensures
        r@ == s@,
{
    let mut r = String::new();
    r.append(s);
    r
}

} // verus!
