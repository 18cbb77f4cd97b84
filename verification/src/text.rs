//! Text helpers: case folding behind a trusted boundary, and verified
//! character-level string operations used by the classifier and the parsers.

use vstd::prelude::*;

verus! {

/// The Unicode lowercase folding of a character sequence. Its value depends
/// on the characters alone; what it is on given characters is left to the
/// standard library.
pub uninterp spec fn lower_of(s: Seq<char>) -> Seq<char>;

/// Whether a character counts as alphanumeric under the Unicode tables.
pub uninterp spec fn is_alnum(c: char) -> bool;

/// Relies on str::to_lowercase: the result is the Unicode lowercase of the
/// input and depends on the input characters alone.
#[verifier::external_body]
pub fn lowercase(s: &str) -> (r: String)
    ensures
        r@ == lower_of(s@),
{
    s.to_lowercase()
}

/// Relies on char::is_alphanumeric: the answer is a fixed property of the
/// character under the Unicode tables.
#[verifier::external_body]
pub fn alnum_check(c: char) -> (r: bool)
    ensures
        r == is_alnum(c),
{
    c.is_alphanumeric()
}

/// Relies on String::from_iter through Iterator::collect: collecting
/// characters yields the string made of exactly those characters in order.
#[verifier::external_body]
pub fn chars_to_string(v: &Vec<char>) -> (r: String)
    ensures
        r@ == v@,
{
    v.iter().collect()
}

/// Compares two strings character by character.
pub fn str_eq(a: &str, b: &str) -> (r: bool)
    ensures
        r == (a@ == b@),
{
    let na = a.unicode_len();
    let nb = b.unicode_len();
    if na != nb {
        return false;
    }
    let mut i: usize = 0;
    while i < na
        invariant
            na == a@.len(),
            na == b@.len(),
            i <= na,
            forall|p: int| 0 <= p < i ==> a@[p] == b@[p],
        decreases na - i,
    {
        if a.get_char(i) != b.get_char(i) {
            return false;
        }
        i += 1;
    }
    proof {
        assert(a@ =~= b@);
    }
    true
}

/// `s` without its trailing '/' characters.
pub open spec fn strip_trailing_slashes(s: Seq<char>) -> Seq<char>
    decreases s.len(),
{
    if s.len() > 0 && s.last() == '/' {
        strip_trailing_slashes(s.drop_last())
    } else {
        s
    }
}

/// Returns the prefix of `s` that stops before its trailing '/' characters.
pub fn strip_trailing_slash(s: &str) -> (r: &str)
    ensures
        r@ == strip_trailing_slashes(s@),
{
    let n = s.unicode_len();
    let mut m: usize = n;
    proof {
        assert(s@.subrange(0, n as int) =~= s@);
    }
    while m > 0 && s.get_char(m - 1) == '/'
        invariant
            n == s@.len(),
            m <= n,
            strip_trailing_slashes(s@.subrange(0, m as int)) == strip_trailing_slashes(s@),
        decreases m,
    {
        proof {
            assert(s@.subrange(0, m as int).drop_last() =~= s@.subrange(0, m - 1));
        }
        m -= 1;
    }
    proof {
        assert(s@.subrange(0, n as int) =~= s@);
        assert(strip_trailing_slashes(s@.subrange(0, m as int)) == s@.subrange(0, m as int));
    }
    s.substring_char(0, m)
}

/// The marketplace marker begins at position `i`.
pub open spec fn marker_at(s: Seq<char>, i: int) -> bool {
    &&& 0 <= i
    &&& i + 4 <= s.len()
    &&& s[i] == 'E'
    &&& s[i + 1] == 'b'
    &&& s[i + 2] == 'a'
    &&& s[i + 3] == 'y'
}

/// The text contains the marketplace marker as a substring.
pub open spec fn contains_marker(s: Seq<char>) -> bool {
    exists|i: int| marker_at(s, i)
}

/// Scans for the marketplace marker.
pub fn find_marker(s: &str) -> (r: bool)
    ensures
        r == contains_marker(s@),
{
    let n = s.unicode_len();
    if n < 4 {
        proof {
            assert(forall|i: int| !marker_at(s@, i));
        }
        return false;
    }
    let mut i: usize = 0;
    while i <= n - 4
        invariant
            n == s@.len(),
            4 <= n,
            i <= n - 3,
            forall|p: int| 0 <= p < i ==> !marker_at(s@, p),
        decreases n - i,
    {
        if s.get_char(i) == 'E' && s.get_char(i + 1) == 'b' && s.get_char(i + 2) == 'a'
            && s.get_char(i + 3) == 'y' {
            proof {
                assert(marker_at(s@, i as int));
            }
            return true;
        }
        i += 1;
    }
    proof {
        assert forall|p: int| !marker_at(s@, p) by {
            if marker_at(s@, p) {
                assert(p + 4 <= n);
            }
        }
    }
    false
}

} // verus!
