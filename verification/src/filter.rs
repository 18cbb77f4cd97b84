//! The availability filter policy and the cross-variant "cheapest each"
//! reduction.

use vstd::prelude::*;
use crate::Cents;
use crate::listing::GpuListing;
use crate::listing::ListingView;
use crate::text::lower_of;
use crate::text::lowercase;
use crate::text::str_eq;
use crate::listing::clone_listing;

verus! {

/// The model of a sequence of listings.
pub open spec fn listings_view(s: Seq<GpuListing>) -> Seq<ListingView> {
    s.map_values(|l: GpuListing| l@)
}

/// A listing counts as available unless its status, compared after
/// lowercase folding, is "out of stock" or "not tracking".
pub open spec fn available(l: ListingView) -> bool {
    &&& lower_of(l.status) != "out of stock"@
    &&& lower_of(l.status) != "not tracking"@
}

/// The filter policy: with "show all" every listing stays; otherwise only
/// the available ones do.
pub open spec fn keep_listing(l: ListingView, show_all: bool) -> bool {
    show_all || available(l)
}

/// The listings that the filter policy keeps, in their original order.
pub open spec fn spec_filter_listings(s: Seq<ListingView>, show_all: bool) -> Seq<ListingView>
    decreases s.len(),
{
    if s.len() == 0 {
        Seq::empty()
    } else {
        let rest = spec_filter_listings(s.drop_last(), show_all);
        if keep_listing(s.last(), show_all) {
            rest.push(s.last())
        } else {
            rest
        }
    }
}

/// With "show all" disabled the filter removes exactly the listings whose
/// folded status is "out of stock" or "not tracking", and nothing else: a
/// listing appears in the result iff it appears in the input and is kept.
pub proof fn lemma_filter_membership(s: Seq<ListingView>, show_all: bool)
    ensures
        forall|l: ListingView|
            spec_filter_listings(s, show_all).contains(l) <==> (s.contains(l) && keep_listing(
                l,
                show_all,
            )),
    decreases s.len(),
{
    if s.len() > 0 {
        lemma_filter_membership(s.drop_last(), show_all);
        assert forall|l: ListingView|
            spec_filter_listings(s, show_all).contains(l) <==> (s.contains(l) && keep_listing(
                l,
                show_all,
            )) by {
            if s.contains(l) && keep_listing(l, show_all) {
                let i = choose|i: int| 0 <= i < s.len() && s[i] == l;
                if i < s.len() - 1 {
                    assert(s.drop_last().contains(l)) by {
                        assert(s.drop_last()[i] == l);
                    }
                } else {
                    assert(s.last() == l);
                }
                assert(spec_filter_listings(s, show_all).contains(l)) by {
                    let f = spec_filter_listings(s.drop_last(), show_all);
                    if s.drop_last().contains(l) {
                        let j = choose|j: int| 0 <= j < f.len() && f[j] == l;
                        assert(spec_filter_listings(s, show_all)[j] == l);
                    } else {
                        assert(spec_filter_listings(s, show_all).last() == l);
                    }
                }
            }
            if spec_filter_listings(s, show_all).contains(l) {
                let f = spec_filter_listings(s.drop_last(), show_all);
                let j = choose|j: int|
                    0 <= j < spec_filter_listings(s, show_all).len() && spec_filter_listings(
                        s,
                        show_all,
                    )[j] == l;
                if j < f.len() {
                    assert(f.contains(l)) by {
                        assert(f[j] == l);
                    }
                    assert(s.drop_last().contains(l));
                    let i = choose|i: int| 0 <= i < s.drop_last().len() && s.drop_last()[i] == l;
                    assert(s[i] == l);
                } else {
                    assert(l == s.last());
                    assert(s[s.len() - 1] == l);
                }
            }
        }
    }
}

/// Tests availability of one listing.
pub fn is_available(l: &GpuListing) -> (r: bool)
    ensures
        r == available(l@),
{
    let low = lowercase(l.status.as_str());
    !str_eq(low.as_str(), "out of stock") && !str_eq(low.as_str(), "not tracking")
}

/// Tests whether a listing's folded status is "preorder".
pub fn is_preorder(l: &GpuListing) -> (r: bool)
    ensures
        r == (lower_of(l@.status) == "preorder"@),
{
    let low = lowercase(l.status.as_str());
    str_eq(low.as_str(), "preorder")
}

/// Applies the filter policy, keeping original order.
pub fn filter_listings(listings: &Vec<GpuListing>, show_all: bool) -> (r: Vec<GpuListing>)
    ensures
        listings_view(r@) == spec_filter_listings(listings_view(listings@), show_all),
{
    let mut out: Vec<GpuListing> = Vec::new();
    let mut i: usize = 0;
    proof {
        assert(listings_view(listings@.subrange(0, 0)) =~= Seq::<ListingView>::empty());
    }
    while i < listings.len()
        invariant
            i <= listings@.len(),
            listings_view(out@) == spec_filter_listings(
                listings_view(listings@.subrange(0, i as int)),
                show_all,
            ),
        decreases listings@.len() - i,
    {
        proof {
            let pre = listings@.subrange(0, i as int);
            let cur = listings@.subrange(0, i + 1);
            assert(cur.drop_last() =~= pre);
            assert(listings_view(cur).drop_last() =~= listings_view(pre));
            assert(listings_view(cur).last() == listings@[i as int]@);
        }
        if show_all || is_available(&listings[i]) {
            let ghost before = listings_view(out@);
            out.push(clone_listing(&listings[i]));
            proof {
                assert(listings_view(out@) =~= before.push(listings@[i as int]@));
            }
        }
        i += 1;
    }
    proof {
        assert(listings@.subrange(0, listings@.len() as int) =~= listings@);
    }
    out
}

/// A listing may win the "cheapest" reduction only when the filter policy
/// keeps it, its folded status is not "preorder", and it has a numeric
/// price.
pub open spec fn eligible(l: ListingView, show_all: bool) -> bool {
    &&& keep_listing(l, show_all)
    &&& lower_of(l.status) != "preorder"@
    &&& l.price_cents is Some
}

/// The numeric price of an eligible listing.
pub open spec fn price_of(l: ListingView) -> Cents
    recommends
        l.price_cents is Some,
{
    l.price_cents->Some_0
}

/// The first eligible listing with the minimum numeric price, or nothing
/// when no listing is eligible. A later listing replaces an earlier pick
/// only when its price is strictly lower.
pub open spec fn spec_cheapest(s: Seq<ListingView>, show_all: bool) -> Option<ListingView>
    decreases s.len(),
{
    if s.len() == 0 {
        None
    } else {
        let rest = spec_cheapest(s.drop_last(), show_all);
        let x = s.last();
        match rest {
            None => if eligible(x, show_all) {
                Some(x)
            } else {
                None
            },
            Some(b) => if eligible(x, show_all) && price_of(x) < price_of(b) {
                Some(x)
            } else {
                Some(b)
            },
        }
    }
}

/// The reduction never selects a listing whose folded status is "preorder",
/// and what it selects is an eligible element of the input with a price no
/// greater than any eligible element's.
pub proof fn lemma_cheapest_pick_eligible(s: Seq<ListingView>, show_all: bool)
    ensures
        spec_cheapest(s, show_all) matches Some(b) ==> {
            &&& s.contains(b)
            &&& eligible(b, show_all)
            &&& lower_of(b.status) != "preorder"@
            &&& forall|i: int|
                0 <= i < s.len() && eligible(#[trigger] s[i], show_all) ==> price_of(b) <= price_of(
                    s[i],
                )
        },
        spec_cheapest(s, show_all) is None ==> forall|i: int|
            0 <= i < s.len() ==> !eligible(#[trigger] s[i], show_all),
    decreases s.len(),
{
    if s.len() > 0 {
        let t = s.drop_last();
        lemma_cheapest_pick_eligible(t, show_all);
        assert(forall|i: int| 0 <= i < s.len() - 1 ==> #[trigger] s[i] == t[i]);
        let r = spec_cheapest(s, show_all);
        let rt = spec_cheapest(t, show_all);
        if r is Some {
            let b = r->Some_0;
            if rt is Some && b == rt->Some_0 {
                let j = choose|j: int| 0 <= j < t.len() && t[j] == b;
                assert(s[j] == b);
            } else {
                assert(b == s.last());
                assert(s[s.len() - 1] == b);
            }
            assert forall|i: int|
                0 <= i < s.len() && eligible(#[trigger] s[i], show_all) implies price_of(b)
                <= price_of(s[i]) by {
                if i < s.len() - 1 {
                    assert(t[i] == s[i]);
                    assert(rt is Some);
                }
            }
        } else {
            assert forall|i: int| 0 <= i < s.len() implies !eligible(
                #[trigger] s[i],
                show_all,
            ) by {
                if i < s.len() - 1 {
                    assert(t[i] == s[i]);
                }
            }
        }
    }
}

/// Picks the cheapest eligible listing of one variant's results.
pub fn cheapest_pick(listings: &Vec<GpuListing>, show_all: bool) -> (r: Option<GpuListing>)
    ensures
        crate::row::listing_opt_view(r) == spec_cheapest(listings_view(listings@), show_all),
{
    let mut best: Option<GpuListing> = None;
    let mut i: usize = 0;
    while i < listings.len()
        invariant
            i <= listings@.len(),
            crate::row::listing_opt_view(best) == spec_cheapest(
                listings_view(listings@.subrange(0, i as int)),
                show_all,
            ),
        decreases listings@.len() - i,
    {
        proof {
            let pre = listings@.subrange(0, i as int);
            let cur = listings@.subrange(0, i + 1);
            assert(cur.drop_last() =~= pre);
            assert(listings_view(cur).drop_last() =~= listings_view(pre));
            assert(listings_view(cur).last() == listings@[i as int]@);
            lemma_cheapest_pick_eligible(listings_view(pre), show_all);
        }
        let l = &listings[i];
        let l_eligible = (show_all || is_available(l)) && !is_preorder(l)
            && l.price_cents.is_some();
        match &best {
            None => {
                if l_eligible {
                    best = Some(clone_listing(l));
                }
            },
            Some(b) => {
                if l_eligible {
                    let lp = match l.price_cents {
                        Some(p) => p,
                        None => 0,
                    };
                    let bp = match b.price_cents {
                        Some(p) => p,
                        None => 0,
                    };
                    if lp < bp {
                        best = Some(clone_listing(l));
                    }
                }
            },
        }
        i += 1;
    }
    proof {
        assert(listings@.subrange(0, listings@.len() as int) =~= listings@);
    }
    best
}

/// One variant's outcome: its listings, or nothing when its fetch or
/// extraction failed.
pub open spec fn outcomes_view(s: Seq<Option<Vec<GpuListing>>>) -> Seq<Option<Seq<ListingView>>> {
    s.map_values(
        |o: Option<Vec<GpuListing>>|
            match o {
                Some(v) => Some(listings_view(v@)),
                None => None,
            },
    )
}

/// The cross-variant result: each variant's cheapest eligible pick, in
/// variant order; failed variants and variants without an eligible listing
/// contribute nothing.
pub open spec fn spec_cheapest_each(s: Seq<Option<Seq<ListingView>>>, show_all: bool) -> Seq<
    ListingView,
>
    decreases s.len(),
{
    if s.len() == 0 {
        Seq::empty()
    } else {
        let rest = spec_cheapest_each(s.drop_last(), show_all);
        match s.last() {
            None => rest,
            Some(ls) => match spec_cheapest(ls, show_all) {
                Some(b) => rest.push(b),
                None => rest,
            },
        }
    }
}

/// How many variants produced an outcome at all.
pub open spec fn count_ok(s: Seq<Option<Seq<ListingView>>>) -> int
    decreases s.len(),
{
    if s.len() == 0 {
        0
    } else {
        count_ok(s.drop_last()) + if s.last() is Some {
            1int
        } else {
            0int
        }
    }
}

/// Each variant contributes at most one entry, and a failed variant none.
pub proof fn lemma_cheapest_each_bound(s: Seq<Option<Seq<ListingView>>>, show_all: bool)
    ensures
        spec_cheapest_each(s, show_all).len() <= count_ok(s),
        count_ok(s) <= s.len(),
    decreases s.len(),
{
    if s.len() > 0 {
        lemma_cheapest_each_bound(s.drop_last(), show_all);
    }
}

/// When one variant's fetch fails, the cross-variant output holds at most
/// one entry fewer than there are variants, and the call still returns a
/// result.
pub proof fn lemma_one_failure_bounds_output(
    s: Seq<Option<Seq<ListingView>>>,
    show_all: bool,
    i: int,
)
    requires
        0 <= i < s.len(),
        s[i] is None,
    ensures
        spec_cheapest_each(s, show_all).len() <= s.len() - 1,
    decreases s.len(),
{
    lemma_cheapest_each_bound(s, show_all);
    lemma_count_ok_with_failure(s, i);
}

/// A missing outcome keeps the count of produced outcomes strictly under
/// the number of variants.
proof fn lemma_count_ok_with_failure(s: Seq<Option<Seq<ListingView>>>, i: int)
    requires
        0 <= i < s.len(),
        s[i] is None,
    ensures
        count_ok(s) <= s.len() - 1,
    decreases s.len(),
{
    if i == s.len() - 1 {
        lemma_cheapest_each_bound_count(s.drop_last());
    } else {
        lemma_count_ok_with_failure(s.drop_last(), i);
    }
}

/// The count of produced outcomes never exceeds the number of variants.
proof fn lemma_cheapest_each_bound_count(s: Seq<Option<Seq<ListingView>>>)
    ensures
        count_ok(s) <= s.len(),
    decreases s.len(),
{
    if s.len() > 0 {
        lemma_cheapest_each_bound_count(s.drop_last());
    }
}

/// Every successful variant's listings, concatenated in variant order;
/// failed variants contribute nothing.
pub open spec fn spec_gather(s: Seq<Option<Seq<ListingView>>>) -> Seq<ListingView>
    decreases s.len(),
{
    if s.len() == 0 {
        Seq::empty()
    } else {
        let rest = spec_gather(s.drop_last());
        match s.last() {
            None => rest,
            Some(ls) => rest + ls,
        }
    }
}

/// Concatenates every successful variant's listings in variant order; a
/// failed variant contributes nothing and fails nothing else.
pub fn gather_listings(outcomes: &Vec<Option<Vec<GpuListing>>>) -> (r: Vec<GpuListing>)
    ensures
        listings_view(r@) == spec_gather(outcomes_view(outcomes@)),
{
    let mut out: Vec<GpuListing> = Vec::new();
    let mut i: usize = 0;
    proof {
        assert(outcomes_view(outcomes@.subrange(0, 0)) =~= Seq::<Option<Seq<ListingView>>>::empty());
        assert(listings_view(out@) =~= Seq::<ListingView>::empty());
    }
    while i < outcomes.len()
        invariant
            i <= outcomes@.len(),
            listings_view(out@) == spec_gather(outcomes_view(outcomes@.subrange(0, i as int))),
        decreases outcomes@.len() - i,
    {
        proof {
            let pre = outcomes@.subrange(0, i as int);
            let cur = outcomes@.subrange(0, i + 1);
            assert(cur.drop_last() =~= pre);
            assert(outcomes_view(cur).drop_last() =~= outcomes_view(pre));
            assert(outcomes_view(cur).last() == outcomes_view(outcomes@)[i as int]);
        }
        match &outcomes[i] {
            None => {},
            Some(listings) => {
                let ghost before = listings_view(out@);
                let mut p: usize = 0;
                proof {
                    assert(listings_view(listings@).subrange(0, 0) =~= Seq::<ListingView>::empty());
                    assert(before + Seq::<ListingView>::empty() =~= before);
                }
                while p < listings.len()
                    invariant
                        p <= listings@.len(),
                        listings_view(out@) == before + listings_view(listings@).subrange(
                            0,
                            p as int,
                        ),
                    decreases listings@.len() - p,
                {
                    out.push(clone_listing(&listings[p]));
                    proof {
                        let lv = listings_view(listings@);
                        assert(listings_view(out@) =~= (before + lv.subrange(0, p as int)).push(
                            lv[p as int],
                        ));
                        assert((before + lv.subrange(0, p as int)).push(lv[p as int]) =~= before
                            + lv.subrange(0, p + 1));
                    }
                    p += 1;
                }
                proof {
                    assert(listings_view(listings@).subrange(
                        0,
                        listings@.len() as int,
                    ) =~= listings_view(listings@));
                }
            },
        }
        i += 1;
    }
    proof {
        assert(outcomes@.subrange(0, outcomes@.len() as int) =~= outcomes@);
    }
    out
}

/// Keeps at most the first `limit` listings when a limit is given.
pub fn limit_listings(listings: &mut Vec<GpuListing>, limit: Option<usize>)
    ensures
        match limit {
            Some(n) => if n <= old(listings)@.len() {
                final(listings)@ == old(listings)@.subrange(0, n as int)
            } else {
                final(listings)@ == old(listings)@
            },
            None => final(listings)@ == old(listings)@,
        },
{
    match limit {
        Some(n) => listings.truncate(n),
        None => {},
    }
}

/// Reduces every variant's outcome to its cheapest pick, in variant order.
pub fn cheapest_each(outcomes: &Vec<Option<Vec<GpuListing>>>, show_all: bool) -> (r: Vec<
    GpuListing,
>)
    ensures
        listings_view(r@) == spec_cheapest_each(outcomes_view(outcomes@), show_all),
{
    let mut out: Vec<GpuListing> = Vec::new();
    let mut i: usize = 0;
    proof {
        assert(outcomes_view(outcomes@.subrange(0, 0)) =~= Seq::<Option<Seq<ListingView>>>::empty());
        assert(listings_view(out@) =~= Seq::<ListingView>::empty());
    }
    while i < outcomes.len()
        invariant
            i <= outcomes@.len(),
            listings_view(out@) == spec_cheapest_each(
                outcomes_view(outcomes@.subrange(0, i as int)),
                show_all,
            ),
        decreases outcomes@.len() - i,
    {
        proof {
            let pre = outcomes@.subrange(0, i as int);
            let cur = outcomes@.subrange(0, i + 1);
            assert(cur.drop_last() =~= pre);
            assert(outcomes_view(cur).drop_last() =~= outcomes_view(pre));
            assert(outcomes_view(cur).last() == outcomes_view(outcomes@)[i as int]);
        }
        match &outcomes[i] {
            None => {},
            Some(listings) => {
                match cheapest_pick(listings, show_all) {
                    Some(b) => {
                        let ghost before = listings_view(out@);
                        out.push(b);
                        proof {
                            assert(listings_view(out@) =~= before.push(out@.last()@));
                        }
                    },
                    None => {},
                }
            },
        }
        i += 1;
    }
    proof {
        assert(outcomes@.subrange(0, outcomes@.len() as int) =~= outcomes@);
    }
    out
}

} // verus!
