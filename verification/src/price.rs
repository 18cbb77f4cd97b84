//! Price normalization: scans free-form price text for the first substring
//! of the shape "digit, then digits or thousands separators, then a decimal
//! point and exactly two digits", and reads it as a value in whole cents.

use vstd::prelude::*;
use crate::Cents;

verus! {

/// True of an ASCII decimal digit.
pub open spec fn is_digit(c: char) -> bool {
    '0' <= c && c <= '9'
}

/// The numeric value of an ASCII decimal digit.
pub open spec fn digit_val(c: char) -> nat {
    (c as nat - '0' as nat) as nat
}

/// Executable digit test, equal to the spec-level one.
pub fn digit_check(c: char) -> (r: bool)
    ensures
        r == is_digit(c),
{
    '0' <= c && c <= '9'
}

/// A character allowed in the integer part of a price: a digit or a
/// thousands separator.
pub open spec fn is_sep_or_digit(c: char) -> bool {
    is_digit(c) || c == ','
}

/// Executable test matching `is_sep_or_digit`.
pub fn sep_or_digit_check(c: char) -> (r: bool)
    ensures
        r == is_sep_or_digit(c),
{
    digit_check(c) || c == ','
}

/// A price pattern occupies `s[i .. i + k + 4]`: a digit, then `k` digits or
/// separators, then a decimal point and two digits.
pub open spec fn price_match_at(s: Seq<char>, i: int, k: int) -> bool {
    &&& 0 <= i
    &&& 0 <= k
    &&& i + k + 4 <= s.len()
    &&& is_digit(s[i])
    &&& (forall|j: int| i + 1 <= j < i + 1 + k ==> is_sep_or_digit(#[trigger] s[j]))
    &&& s[i + 1 + k] == '.'
    &&& is_digit(s[i + k + 2])
    &&& is_digit(s[i + k + 3])
}

/// Some price pattern begins at position `i`.
pub open spec fn price_match_starts_at(s: Seq<char>, i: int) -> bool {
    exists|k: int| price_match_at(s, i, k)
}

/// The text contains a price pattern somewhere.
pub open spec fn has_price_match(s: Seq<char>) -> bool {
    exists|i: int| price_match_starts_at(s, i)
}

/// The pattern at `(i, k)` is the first one: no pattern begins earlier.
pub open spec fn first_price_match(s: Seq<char>, i: int, k: int) -> bool {
    &&& price_match_at(s, i, k)
    &&& (forall|i2: int| 0 <= i2 < i ==> !price_match_starts_at(s, i2))
}

/// The value of an integer part read left to right, separators skipped.
pub open spec fn int_part_val(s: Seq<char>) -> nat
    decreases s.len(),
{
    if s.len() == 0 {
        0
    } else if is_digit(s.last()) {
        int_part_val(s.drop_last()) * 10 + digit_val(s.last())
    } else {
        int_part_val(s.drop_last())
    }
}

/// The value in cents of the pattern at `(i, k)`: the integer part times
/// one hundred plus the two digits after the decimal point.
pub open spec fn match_cents(s: Seq<char>, i: int, k: int) -> nat {
    int_part_val(s.subrange(i, i + 1 + k)) * 100 + digit_val(s[i + k + 2]) * 10 + digit_val(
        s[i + k + 3],
    )
}

/// What `parse_price` returns: the cents value of the first price pattern,
/// or nothing when no pattern occurs or the value does not fit in `u64`.
pub open spec fn spec_parse_price(s: Seq<char>) -> Option<Cents> {
    if has_price_match(s) {
        let (i, k) = choose|i: int, k: int| first_price_match(s, i, k);
        if match_cents(s, i, k) <= u64::MAX {
            Some(match_cents(s, i, k) as Cents)
        } else {
            None
        }
    } else {
        None
    }
}

/// At one starting position only one pattern length is possible, because the
/// decimal point can stand nowhere inside the run of digits and separators.
pub proof fn lemma_match_len_unique(s: Seq<char>, i: int, k1: int, k2: int)
    requires
        price_match_at(s, i, k1),
        price_match_at(s, i, k2),
    ensures
        k1 == k2,
{
    if k1 < k2 {
        assert(is_sep_or_digit(s[i + 1 + k1]));
        assert(false);
    }
    if k2 < k1 {
        assert(is_sep_or_digit(s[i + 1 + k2]));
        assert(false);
    }
}

/// Reading further into the integer part never lowers its value.
proof fn lemma_int_part_val_monotone(s: Seq<char>, a: int, p: int, q: int)
    requires
        0 <= a <= p <= q <= s.len(),
    ensures
        int_part_val(s.subrange(a, p)) <= int_part_val(s.subrange(a, q)),
    decreases q - p,
{
    if p < q {
        lemma_int_part_val_monotone(s, a, p, q - 1);
        let t = s.subrange(a, q);
        assert(t.drop_last() =~= s.subrange(a, q - 1));
    }
}

/// For all price strings containing a price pattern, `parse_price` returns
/// the value of the first such pattern, read with separators removed as a
/// two-decimal number in cents, whenever that value fits in `u64`.
pub proof fn lemma_parse_price_finds_first_match(s: Seq<char>, i: int, k: int)
    requires
        first_price_match(s, i, k),
        match_cents(s, i, k) <= u64::MAX,
    ensures
        spec_parse_price(s) == Some(match_cents(s, i, k) as Cents),
{
    lemma_first_match_unique(s, i, k);
}

/// For all price strings without a price pattern, `parse_price` returns
/// nothing.
pub proof fn lemma_parse_price_no_match(s: Seq<char>)
    requires
        !has_price_match(s),
    ensures
        spec_parse_price(s) is None,
{
}

/// The first pattern is unique, so `spec_parse_price` speaks of the pattern
/// handed to this lemma.
proof fn lemma_first_match_unique(s: Seq<char>, i: int, k: int)
    requires
        first_price_match(s, i, k),
    ensures
        has_price_match(s),
        (choose|i2: int, k2: int| first_price_match(s, i2, k2)) == (i, k),
{
    assert(price_match_starts_at(s, i));
    assert(has_price_match(s));
    assert(exists|i2: int, k2: int| first_price_match(s, i2, k2));
    let (i2, k2) = choose|i2: int, k2: int| first_price_match(s, i2, k2);
    if i2 < i {
        assert(price_match_starts_at(s, i2));
        assert(false);
    }
    if i < i2 {
        assert(price_match_starts_at(s, i));
        assert(false);
    }
    lemma_match_len_unique(s, i, k, k2);
}

/// Scans `price` for the first price pattern and returns its value in cents;
/// returns nothing when no pattern occurs or the value overflows `u64`.
pub fn parse_price(price: &str) -> (r: Option<Cents>)
    ensures
        r == spec_parse_price(price@),
{
    let n = price.unicode_len();
    let mut i: usize = 0;
    while i < n
        invariant
            n == price@.len(),
            i <= n,
            forall|i2: int| 0 <= i2 < i ==> !price_match_starts_at(price@, i2),
        decreases n - i,
    {
        if digit_check(price.get_char(i)) {
            let mut j: usize = i + 1;
            while j < n && sep_or_digit_check(price.get_char(j))
                invariant
                    n == price@.len(),
                    i + 1 <= j <= n,
                    forall|p: int| i + 1 <= p < j ==> is_sep_or_digit(#[trigger] price@[p]),
                decreases n - j,
            {
                j += 1;
            }
            if n > 2 && j < n - 2 && price.get_char(j) == '.' && digit_check(price.get_char(j + 1))
                && digit_check(price.get_char(j + 2)) {
                let ghost k: int = j - i - 1;
                proof {
                    assert(price_match_at(price@, i as int, k));
                }
                return finish_match(price, n, i, j);
            }
            proof {
                assert forall|k2: int| !price_match_at(price@, i as int, k2) by {
                    if price_match_at(price@, i as int, k2) {
                        if i + 1 + k2 < j {
                            assert(is_sep_or_digit(price@[i + 1 + k2]));
                        } else if i + 1 + k2 == j {
                            assert(j + 2 < n);
                        } else {
                            assert(j < i + 1 + k2);
                            assert(j < price@.len() - 3);
                            assert(is_sep_or_digit(price@[j as int]));
                        }
                    }
                }
                assert(!price_match_starts_at(price@, i as int));
            }
        } else {
            proof {
                assert forall|k2: int| !price_match_at(price@, i as int, k2) by {}
                assert(!price_match_starts_at(price@, i as int));
            }
        }
        i += 1;
    }
    proof {
        assert(!has_price_match(price@));
    }
    None
}

/// Reads the value of the pattern that begins at `i`, whose decimal point
/// stands at `j`, accumulating the integer part left to right.
fn finish_match(price: &str, n: usize, i: usize, j: usize) -> (r: Option<Cents>)
    requires
        n == price@.len(),
        first_price_match(price@, i as int, j - i - 1),
        j + 2 < n,
    ensures
        r == spec_parse_price(price@),
{
    let ghost s = price@;
    let ghost k: int = j - i - 1;
    let mut acc: u64 = 0;
    let mut p: usize = i;
    while p < j
        invariant
            s == price@,
            first_price_match(s, i as int, k),
            k == j - i - 1,
            i <= p <= j,
            j + 2 < s.len(),
            acc == int_part_val(s.subrange(i as int, p as int)),
        decreases j - p,
    {
        let c = price.get_char(p);
        proof {
            assert(s.subrange(i as int, p + 1).drop_last() =~= s.subrange(i as int, p as int));
            assert(s.subrange(i as int, p + 1).last() == s[p as int]);
        }
        if digit_check(c) {
            let d: u64 = (c as u32 as u64) - 48;
            proof {
                assert(d == digit_val(c));
            }
            let step = match acc.checked_mul(10) {
                Some(m) => m.checked_add(d),
                None => None,
            };
            match step {
                Some(v) => {
                    acc = v;
                },
                None => {
                    proof {
                        assert(int_part_val(s.subrange(i as int, p + 1)) == acc * 10 + d);
                        assert(acc * 10 + d > u64::MAX);
                        lemma_overflow_means_none(s, i as int, k, p + 1);
                        lemma_first_match_unique(s, i as int, k);
                    }
                    return None;
                },
            }
        }
        p += 1;
    }
    proof {
        lemma_first_match_unique(s, i as int, k);
    }
    let c1 = price.get_char(j + 1);
    let c2 = price.get_char(j + 2);
    proof {
        assert(is_digit(c1));
        assert(is_digit(c2));
    }
    let d1: u64 = (c1 as u32 as u64) - 48;
    let d2: u64 = (c2 as u32 as u64) - 48;
    proof {
        assert(d1 == digit_val(s[i + k + 2]));
        assert(d2 == digit_val(s[i + k + 3]));
    }
    let total = match acc.checked_mul(100) {
        Some(m) => m.checked_add(d1 * 10 + d2),
        None => None,
    };
    match total {
        Some(v) => {
            proof {
                assert(v == match_cents(s, i as int, k));
            }
            Some(v)
        },
        None => {
            proof {
                assert(match_cents(s, i as int, k) > u64::MAX);
            }
            None
        },
    }
}

/// When the integer part already exceeds `u64` on a prefix, the whole
/// pattern's value exceeds it too.
proof fn lemma_overflow_means_none(s: Seq<char>, i: int, k: int, p: int)
    requires
        price_match_at(s, i, k),
        i <= p <= i + 1 + k,
        int_part_val(s.subrange(i, p)) > u64::MAX,
    ensures
        match_cents(s, i, k) > u64::MAX,
{
    lemma_int_part_val_monotone(s, i, p, i + 1 + k);
}

} // verus!
