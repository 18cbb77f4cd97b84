//! The sort engine: a stable total order over listings by a chosen key and
//! direction. A listing with a numeric price always compares below one
//! without, and the direction flip is applied to the whole comparison as a
//! final step.

use vstd::prelude::*;
use crate::listing::GpuListing;
use crate::listing::ListingView;
use crate::filter::listings_view;
use crate::model::SortColumn;

verus! {

/// Lexicographic comparison of two character sequences by code point; a
/// proper prefix compares below its extensions. The result is -1, 0 or 1.
pub open spec fn str_cmp(a: Seq<char>, b: Seq<char>) -> int
    decreases a.len(),
{
    if a.len() == 0 && b.len() == 0 {
        0
    } else if a.len() == 0 {
        -1
    } else if b.len() == 0 {
        1
    } else if a[0] < b[0] {
        -1
    } else if b[0] < a[0] {
        1
    } else {
        str_cmp(a.drop_first(), b.drop_first())
    }
}

/// Reversing the arguments flips the sign.
proof fn lemma_str_cmp_antisymm(a: Seq<char>, b: Seq<char>)
    ensures
        str_cmp(a, b) == -str_cmp(b, a),
    decreases a.len(),
{
    if a.len() > 0 && b.len() > 0 && a[0] == b[0] {
        lemma_str_cmp_antisymm(a.drop_first(), b.drop_first());
    }
}

/// The comparison is transitive.
proof fn lemma_str_cmp_trans(a: Seq<char>, b: Seq<char>, c: Seq<char>)
    requires
        str_cmp(a, b) <= 0,
        str_cmp(b, c) <= 0,
    ensures
        str_cmp(a, c) <= 0,
    decreases a.len(),
{
    if a.len() > 0 && b.len() > 0 && c.len() > 0 {
        if a[0] == b[0] && b[0] == c[0] {
            lemma_str_cmp_trans(a.drop_first(), b.drop_first(), c.drop_first());
        }
    }
}

/// The comparison a single key imposes on two listings, before any
/// direction flip: -1, 0 or 1. Under the price key a listing with a numeric
/// price compares below one without, and two without compare by their raw
/// price text.
pub open spec fn spec_cmp(col: SortColumn, a: ListingView, b: ListingView) -> int {
    match col {
        SortColumn::Name => str_cmp(a.name, b.name),
        SortColumn::Status => str_cmp(a.status, b.status),
        SortColumn::Price => match (a.price_cents, b.price_cents) {
            (Some(pa), Some(pb)) => if pa < pb {
                -1
            } else if pb < pa {
                1
            } else {
                0
            },
            (Some(pa), None) => -1,
            (None, Some(pb)) => 1,
            (None, None) => str_cmp(a.price, b.price),
        },
        SortColumn::LastAvailable => str_cmp(a.last_available, b.last_available),
        SortColumn::Link => str_cmp(a.link, b.link),
    }
}

/// The order the engine sorts by: the key comparison, with the whole result
/// reversed when a descending direction is chosen.
pub open spec fn spec_le(col: SortColumn, desc: bool, a: ListingView, b: ListingView) -> bool {
    if desc {
        spec_cmp(col, a, b) >= 0
    } else {
        spec_cmp(col, a, b) <= 0
    }
}

/// Two listings tie under a key; ties do not depend on the direction.
pub open spec fn key_equal(col: SortColumn, a: ListingView, b: ListingView) -> bool {
    spec_cmp(col, a, b) == 0
}

/// Reversing the arguments flips the sign of the key comparison.
pub proof fn lemma_cmp_antisymm(col: SortColumn, a: ListingView, b: ListingView)
    ensures
        spec_cmp(col, a, b) == -spec_cmp(col, b, a),
{
    match col {
        SortColumn::Name => lemma_str_cmp_antisymm(a.name, b.name),
        SortColumn::Status => lemma_str_cmp_antisymm(a.status, b.status),
        SortColumn::Price => {
            if a.price_cents is None && b.price_cents is None {
                lemma_str_cmp_antisymm(a.price, b.price);
            }
        },
        SortColumn::LastAvailable => lemma_str_cmp_antisymm(a.last_available, b.last_available),
        SortColumn::Link => lemma_str_cmp_antisymm(a.link, b.link),
    }
}

/// The key comparison is transitive.
pub proof fn lemma_cmp_trans(col: SortColumn, a: ListingView, b: ListingView, c: ListingView)
    requires
        spec_cmp(col, a, b) <= 0,
        spec_cmp(col, b, c) <= 0,
    ensures
        spec_cmp(col, a, c) <= 0,
{
    match col {
        SortColumn::Name => lemma_str_cmp_trans(a.name, b.name, c.name),
        SortColumn::Status => lemma_str_cmp_trans(a.status, b.status, c.status),
        SortColumn::Price => {
            if a.price_cents is None && b.price_cents is None && c.price_cents is None {
                lemma_str_cmp_trans(a.price, b.price, c.price);
            }
        },
        SortColumn::LastAvailable => lemma_str_cmp_trans(
            a.last_available,
            b.last_available,
            c.last_available,
        ),
        SortColumn::Link => lemma_str_cmp_trans(a.link, b.link, c.link),
    }
}

/// Any two listings are ordered one way or the other.
pub proof fn lemma_le_total(col: SortColumn, desc: bool, a: ListingView, b: ListingView)
    ensures
        spec_le(col, desc, a, b) || spec_le(col, desc, b, a),
{
    lemma_cmp_antisymm(col, a, b);
}

/// The order is transitive.
pub proof fn lemma_le_trans(
    col: SortColumn,
    desc: bool,
    a: ListingView,
    b: ListingView,
    c: ListingView,
)
    requires
        spec_le(col, desc, a, b),
        spec_le(col, desc, b, c),
    ensures
        spec_le(col, desc, a, c),
{
    if desc {
        lemma_cmp_antisymm(col, a, b);
        lemma_cmp_antisymm(col, b, c);
        lemma_cmp_trans(col, c, b, a);
        lemma_cmp_antisymm(col, a, c);
    } else {
        lemma_cmp_trans(col, a, b, c);
    }
}

/// A sequence ordered by the chosen key and direction.
pub open spec fn sorted_by_key(s: Seq<ListingView>, col: SortColumn, desc: bool) -> bool {
    forall|p: int, q: int| 0 <= p < q < s.len() ==> spec_le(col, desc, s[p], s[q])
}

/// The subsequence of `s` that ties with `x` under the key, in order. A
/// stable sort leaves every such subsequence untouched.
pub open spec fn class_of(s: Seq<ListingView>, col: SortColumn, x: ListingView) -> Seq<
    ListingView,
> {
    s.filter(|y: ListingView| key_equal(col, x, y))
}

/// Swapping two adjacent listings that do not tie leaves every tie class
/// untouched.
proof fn lemma_swap_preserves_classes(s: Seq<ListingView>, col: SortColumn, j: int)
    requires
        1 <= j < s.len(),
        !key_equal(col, s[j - 1], s[j]),
    ensures
        forall|x: ListingView|
            #[trigger] class_of(s.update(j - 1, s[j]).update(j, s[j - 1]), col, x) == class_of(
                s,
                col,
                x,
            ),
{
    let t = s.update(j - 1, s[j]).update(j, s[j - 1]);
    let head = s.subrange(0, j - 1);
    let tail = s.subrange(j + 1, s.len() as int);
    let ms = seq![s[j - 1], s[j]];
    let mt = seq![s[j], s[j - 1]];
    assert(s =~= head + ms + tail);
    assert(t =~= head + mt + tail);
    assert forall|x: ListingView| #[trigger] class_of(t, col, x) == class_of(s, col, x) by {
        let pred = |y: ListingView| key_equal(col, x, y);
        Seq::filter_distributes_over_add(head + ms, tail, pred);
        Seq::filter_distributes_over_add(head, ms, pred);
        Seq::filter_distributes_over_add(head + mt, tail, pred);
        Seq::filter_distributes_over_add(head, mt, pred);
        if pred(s[j - 1]) && pred(s[j]) {
            lemma_cmp_antisymm(col, x, s[j - 1]);
            lemma_cmp_antisymm(col, x, s[j]);
            lemma_cmp_trans(col, s[j - 1], x, s[j]);
            lemma_cmp_trans(col, s[j], x, s[j - 1]);
            lemma_cmp_antisymm(col, s[j - 1], s[j]);
            assert(false);
        }
        reveal_with_fuel(Seq::filter, 3);
        assert(ms.drop_last() =~= seq![s[j - 1]]);
        assert(mt.drop_last() =~= seq![s[j]]);
        assert(seq![s[j - 1]].drop_last() =~= Seq::<ListingView>::empty());
        assert(seq![s[j]].drop_last() =~= Seq::<ListingView>::empty());
        assert(ms.filter(pred) == mt.filter(pred));
    }
}

/// Swapping two adjacent listings keeps the sequence's multiset of
/// elements.
proof fn lemma_swap_preserves_multiset(s: Seq<GpuListing>, j: int)
    requires
        1 <= j < s.len(),
    ensures
        s.update(j - 1, s[j]).update(j, s[j - 1]).to_multiset() == s.to_multiset(),
{
    broadcast use vstd::seq_lib::group_to_multiset_ensures;
    broadcast use vstd::multiset::group_multiset_axioms;

    assert(s.contains(s[j - 1]));
    assert(s.contains(s[j]));
    let t1 = s.update(j - 1, s[j]);
    assert(t1[j] == s[j]);
    assert(t1.contains(t1[j]));
    assert(t1.update(j, s[j - 1]).to_multiset() =~= s.to_multiset());
}

/// Compares two strings; the result is -1, 0 or 1.
fn str_compare(a: &str, b: &str) -> (r: i8)
    ensures
        r as int == str_cmp(a@, b@),
{
    let na = a.unicode_len();
    let nb = b.unicode_len();
    let n = if na < nb {
        na
    } else {
        nb
    };
    let mut i: usize = 0;
    proof {
        assert(a@.subrange(0, na as int) =~= a@);
        assert(b@.subrange(0, nb as int) =~= b@);
    }
    while i < n
        invariant
            na == a@.len(),
            nb == b@.len(),
            n == if na < nb {
                na
            } else {
                nb
            },
            i <= n,
            str_cmp(a@, b@) == str_cmp(
                a@.subrange(i as int, na as int),
                b@.subrange(i as int, nb as int),
            ),
        decreases n - i,
    {
        let ca = a.get_char(i);
        let cb = b.get_char(i);
        proof {
            assert(a@.subrange(i as int, na as int)[0] == a@[i as int]);
            assert(b@.subrange(i as int, nb as int)[0] == b@[i as int]);
            assert(a@.subrange(i as int, na as int).drop_first() =~= a@.subrange(
                i + 1,
                na as int,
            ));
            assert(b@.subrange(i as int, nb as int).drop_first() =~= b@.subrange(
                i + 1,
                nb as int,
            ));
        }
        if ca < cb {
            return -1;
        }
        if cb < ca {
            return 1;
        }
        i += 1;
    }
    if na == nb {
        proof {
            assert(a@.subrange(i as int, na as int).len() == 0);
            assert(b@.subrange(i as int, nb as int).len() == 0);
        }
        0
    } else if na < nb {
        proof {
            assert(a@.subrange(i as int, na as int).len() == 0);
            assert(b@.subrange(i as int, nb as int).len() > 0);
        }
        -1
    } else {
        proof {
            assert(b@.subrange(i as int, nb as int).len() == 0);
            assert(a@.subrange(i as int, na as int).len() > 0);
        }
        1
    }
}

/// Compares two listings under the chosen key, before any direction flip.
pub fn compare_listings(col: SortColumn, a: &GpuListing, b: &GpuListing) -> (r: i8)
    ensures
        r as int == spec_cmp(col, a@, b@),
{
    match col {
        SortColumn::Name => str_compare(a.name.as_str(), b.name.as_str()),
        SortColumn::Status => str_compare(a.status.as_str(), b.status.as_str()),
        SortColumn::Price => match (a.price_cents, b.price_cents) {
            (Some(pa), Some(pb)) => {
                if pa < pb {
                    -1
                } else if pb < pa {
                    1
                } else {
                    0
                }
            },
            (Some(_), None) => -1,
            (None, Some(_)) => 1,
            (None, None) => str_compare(a.price.as_str(), b.price.as_str()),
        },
        SortColumn::LastAvailable => str_compare(
            a.last_available.as_str(),
            b.last_available.as_str(),
        ),
        SortColumn::Link => str_compare(a.link.as_str(), b.link.as_str()),
    }
}

/// Orders two listings under the chosen key and direction.
pub fn le_listings(col: SortColumn, desc: bool, a: &GpuListing, b: &GpuListing) -> (r: bool)
    ensures
        r == spec_le(col, desc, a@, b@),
{
    let c = compare_listings(col, a, b);
    if desc {
        c >= 0
    } else {
        c <= 0
    }
}

/// Sorts the listings by the chosen key and direction. The sort is stable:
/// it keeps the sequence's length, orders it by the key, and leaves every
/// tie class — the subsequence of entries that compare equal to any fixed
/// listing — exactly as it stood.
pub fn sort_listings(listings: &mut Vec<GpuListing>, col: SortColumn, desc: bool)
    ensures
        final(listings)@.len() == old(listings)@.len(),
        final(listings)@.to_multiset() == old(listings)@.to_multiset(),
        sorted_by_key(listings_view(final(listings)@), col, desc),
        forall|x: ListingView|
            #[trigger] class_of(listings_view(final(listings)@), col, x) == class_of(
                listings_view(old(listings)@),
                col,
                x,
            ),
{
    let n = listings.len();
    if n <= 1 {
        return;
    }
    let mut i: usize = 1;
    while i < n
        invariant
            n == listings@.len(),
            n == old(listings)@.len(),
            listings@.to_multiset() == old(listings)@.to_multiset(),
            1 <= i <= n,
            forall|p: int, q: int|
                0 <= p < q < i ==> spec_le(
                    col,
                    desc,
                    listings_view(listings@)[p],
                    listings_view(listings@)[q],
                ),
            forall|x: ListingView|
                #[trigger] class_of(listings_view(listings@), col, x) == class_of(
                    listings_view(old(listings)@),
                    col,
                    x,
                ),
        decreases n - i,
    {
        let mut j: usize = i;
        while j > 0 && !le_listings(col, desc, &listings[j - 1], &listings[j])
            invariant
                n == listings@.len(),
                n == old(listings)@.len(),
                listings@.to_multiset() == old(listings)@.to_multiset(),
                1 <= i < n,
                0 <= j <= i,
                forall|p: int, q: int|
                    0 <= p < q <= i && q != j ==> spec_le(
                        col,
                        desc,
                        listings_view(listings@)[p],
                        listings_view(listings@)[q],
                    ),
                forall|q: int|
                    j < q <= i ==> spec_le(
                        col,
                        desc,
                        listings_view(listings@)[j as int],
                        listings_view(listings@)[q],
                    ),
                forall|x: ListingView|
                    #[trigger] class_of(listings_view(listings@), col, x) == class_of(
                        listings_view(old(listings)@),
                        col,
                        x,
                    ),
            decreases j,
        {
            let ghost s = listings_view(listings@);
            proof {
                lemma_le_total(col, desc, s[j - 1], s[j as int]);
                if key_equal(col, s[j - 1], s[j as int]) {
                    lemma_cmp_antisymm(col, s[j - 1], s[j as int]);
                    assert(false);
                }
                lemma_swap_preserves_classes(s, col, j as int);
            }
            let ghost pre = listings@;
            let x = listings.remove(j);
            listings.insert(j - 1, x);
            proof {
                assert(listings@ =~= pre.update(j - 1, pre[j as int]).update(j as int, pre[j - 1]));
                lemma_swap_preserves_multiset(pre, j as int);
                assert(listings_view(listings@) =~= s.update(j - 1, s[j as int]).update(
                    j as int,
                    s[j - 1],
                ));
            }
            j -= 1;
            proof {
                let t = listings_view(listings@);
                assert forall|p: int, q: int|
                    0 <= p < q <= i && q != j implies spec_le(col, desc, t[p], t[q]) by {
                    lemma_le_total(col, desc, s[j as int], s[j + 1]);
                }
                assert forall|q: int| j < q <= i implies spec_le(col, desc, t[j as int], t[q]) by {
                    lemma_le_total(col, desc, s[j as int], s[j + 1]);
                }
            }
        }
        proof {
            let t = listings_view(listings@);
            assert forall|p: int, q: int| 0 <= p < q < i + 1 implies spec_le(
                col,
                desc,
                t[p],
                t[q],
            ) by {
                if q == j && p < j - 1 {
                    lemma_le_trans(col, desc, t[p], t[j - 1], t[j as int]);
                }
            }
        }
        i += 1;
    }
}

} // verus!
