//! The normalized inventory entry and its mathematical model.

use vstd::prelude::*;
use crate::Cents;
use crate::price::spec_parse_price;
use crate::text::is_alnum;
use crate::text::lower_of;
use crate::text::lowercase;
use crate::text::chars_to_string;

verus! {

/// The mathematical model of a listing: each display string as its
/// character sequence, the price also as optional cents.
pub ghost struct ListingView {
    pub name: Seq<char>,
    pub status: Seq<char>,
    pub price: Seq<char>,
    pub price_cents: Option<Cents>,
    pub last_available: Seq<char>,
    pub link: Seq<char>,
}

/// One normalized inventory entry extracted from the source page.
#[derive(Debug, Clone)]
pub struct GpuListing {
    /// Display name; never empty and never the sentinel "N/A".
    pub name: String,
    /// Free-text availability category, externally controlled vocabulary.
    pub status: String,
    /// Raw price text, "-" when absent.
    pub price: String,
    /// Parsed price in cents; present iff `price` holds a price pattern
    /// whose value fits in `u64`.
    pub price_cents: Option<Cents>,
    /// Display text for the last-seen timestamp.
    pub last_available: String,
    /// Target URL, possibly empty.
    pub link: String,
}

impl View for GpuListing {
    type V = ListingView;

    open spec fn view(&self) -> ListingView {
        ListingView {
            name: self.name@,
            status: self.status@,
            price: self.price@,
            price_cents: self.price_cents,
            last_available: self.last_available@,
            link: self.link@,
        }
    }
}

/// A listing is well formed when its name is a real one and its numeric
/// price is exactly what its raw price text parses to.
pub open spec fn listing_wf(l: ListingView) -> bool {
    &&& l.name.len() > 0
    &&& l.name != "N/A"@
    &&& l.price_cents == spec_parse_price(l.price)
}

/// The status text lowercased, spaces turned into dashes, and every
/// character that is neither alphanumeric nor a dash removed, read left
/// to right.
pub open spec fn class_chars(s: Seq<char>) -> Seq<char>
    decreases s.len(),
{
    if s.len() == 0 {
        Seq::empty()
    } else {
        let rest = class_chars(s.drop_last());
        let c = if s.last() == ' ' {
            '-'
        } else {
            s.last()
        };
        if is_alnum(c) || c == '-' {
            rest.push(c)
        } else {
            rest
        }
    }
}

/// The CSS-class form of a status: its lowercase folding with spaces as
/// dashes and everything but alphanumerics and dashes removed.
pub open spec fn spec_status_class(status: Seq<char>) -> Seq<char> {
    class_chars(lower_of(status))
}

impl GpuListing {
    /// Renders the status as a CSS class name.
    pub fn status_class(&self) -> (r: String)
        ensures
            r@ == spec_status_class(self.status@),
    {
        let low = lowercase(self.status.as_str());
        let n = low.as_str().unicode_len();
        let mut out: Vec<char> = Vec::new();
        let mut i: usize = 0;
        proof {
            assert(low@.subrange(0, 0) =~= Seq::<char>::empty());
        }
        while i < n
            invariant
                n == low@.len(),
                i <= n,
                out@ == class_chars(low@.subrange(0, i as int)),
            decreases n - i,
        {
            let c0 = low.as_str().get_char(i);
            let c = if c0 == ' ' {
                '-'
            } else {
                c0
            };
            proof {
                assert(low@.subrange(0, i + 1).drop_last() =~= low@.subrange(0, i as int));
                assert(low@.subrange(0, i + 1).last() == low@[i as int]);
            }
            if alnum_or_dash(c) {
                out.push(c);
            }
            i += 1;
        }
        proof {
            assert(low@.subrange(0, n as int) =~= low@);
        }
        chars_to_string(&out)
    }
}

/// Copies a listing field by field; unlike the derived clone, the copy is
/// known to equal the original.
pub fn clone_listing(l: &GpuListing) -> (r: GpuListing)
    ensures
        r == *l,
{
    GpuListing {
        name: l.name.clone(),
        status: l.status.clone(),
        price: l.price.clone(),
        price_cents: l.price_cents,
        last_available: l.last_available.clone(),
        link: l.link.clone(),
    }
}

/// Whether a character may stand in a CSS class name here.
fn alnum_or_dash(c: char) -> (r: bool)
    ensures
        r == (is_alnum(c) || c == '-'),
{
    crate::text::alnum_check(c) || c == '-'
}

} // verus!
