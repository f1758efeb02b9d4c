//! Normalisation of user-supplied text.
use vstd::prelude::*;

verus! {

/// What `str::trim` returns for the given characters.
pub uninterp spec fn trim_of(s: Seq<char>) -> Seq<char>;

/// What `str::to_lowercase` returns for the given characters.
pub uninterp spec fn lower_of(s: Seq<char>) -> Seq<char>;

/// Relies on `str::trim`: leading and trailing white space removed, the result
/// depending on the characters alone; an empty string stays empty.
#[verifier::external_body]
pub(crate) fn trimmed(s: &str) -> (r: String)
    ensures
        r@ == trim_of(s@),
        s@.len() == 0 ==> r@.len() == 0,
{
    s.trim().to_string()
}

/// Relies on `str::to_lowercase`: the result depends on the characters alone;
/// an empty string stays empty.
#[verifier::external_body]
pub(crate) fn lowercased(s: &str) -> (r: String)
    ensures
        r@ == lower_of(s@),
        s@.len() == 0 ==> r@.len() == 0,
{
    s.to_lowercase()
}

/// `s` with every '-' removed, the other characters kept in order.
pub open spec fn without_dashes(s: Seq<char>) -> Seq<char>
    decreases s.len(),
{
    if s.len() == 0 {
        s
    } else if s.last() == '-' {
        without_dashes(s.drop_last())
    } else {
        without_dashes(s.drop_last()).push(s.last())
    }
}

/// Removes the '-' separators of a code.
pub fn strip_dashes(s: &str) -> (r: String)
    ensures
        r@ == without_dashes(s@),
{
    let n = s.unicode_len();
    let mut out = String::new();
    let mut i: usize = 0;
    while i < n
        invariant
            n == s@.len(),
            i <= n,
            out@ == without_dashes(s@.subrange(0, i as int)),
        decreases n - i,
    {
        let c = s.get_char(i);
        assert(s@.subrange(0, i as int + 1).drop_last() == s@.subrange(0, i as int));
        if c != '-' {
            out.append(s.substring_char(i, i + 1));
            assert(s@.subrange(i as int, i as int + 1) == seq![c]);
        }
        i = i + 1;
    }
    assert(s@.subrange(0, n as int) == s@);
    out
}

/// The form of a registration code that is checked against its hash: trimmed,
/// lower case, without separators.
pub open spec fn normalized_code(code: Seq<char>) -> Seq<char> {
    without_dashes(lower_of(trim_of(code)))
}

pub fn normalize_registration_code(code: &str) -> (r: String)
    ensures
        r@ == normalized_code(code@),
{
    let t = trimmed(code);
    let l = lowercased(t.as_str());
    strip_dashes(l.as_str())
}

/// An email as stored and compared: trimmed and lower case.
pub open spec fn normalized_email(email: Seq<char>) -> Seq<char> {
    lower_of(trim_of(email))
}

pub fn normalize_email(email: &str) -> (r: String)
    ensures
        r@ == normalized_email(email@),
{
    let t = trimmed(email);
    lowercased(t.as_str())
}

} // verus!
