//! The row classifier: one table row, given as its list of cells, matches
//! the marketplace shape, the standard shape, or neither, in that priority
//! order.

use vstd::prelude::*;
use vstd::string::StringExecFns;
use crate::listing::GpuListing;
use crate::listing::ListingView;
use crate::listing::listing_wf;
use crate::price::spec_parse_price;
use crate::price::price_match_at;
use crate::price::parse_price;
use crate::text::contains_marker;
use crate::text::marker_at;
use crate::text::find_marker;
use crate::text::str_eq;

verus! {

/// Model of an inline link: its visible text and its target.
pub ghost struct AnchorView {
    pub text: Seq<char>,
    pub href: Seq<char>,
}

/// An inline link found in a cell.
#[derive(Debug, Clone)]
pub struct Anchor {
    /// The link's visible text, trimmed.
    pub text: String,
    /// The link's target, empty when the attribute is absent.
    pub href: String,
}

impl View for Anchor {
    type V = AnchorView;

    open spec fn view(&self) -> AnchorView {
        AnchorView { text: self.text@, href: self.href@ }
    }
}

/// Model of one table cell: its visible text, its first inline link if any,
/// and its secondary attribute value if any.
pub ghost struct CellView {
    pub text: Seq<char>,
    pub anchor: Option<AnchorView>,
    pub title: Option<Seq<char>>,
}

/// One table cell reduced to the plain values the classifier reads.
#[derive(Debug, Clone)]
pub struct Cell {
    /// The cell's visible text, trimmed.
    pub text: String,
    /// The first inline link in the cell, if any.
    pub anchor: Option<Anchor>,
    /// The cell's secondary attribute value (a fuller timestamp), trimmed,
    /// if the attribute is present.
    pub title: Option<String>,
}

impl View for Cell {
    type V = CellView;

    open spec fn view(&self) -> CellView {
        CellView {
            text: self.text@,
            anchor: match self.anchor {
                Some(a) => Some(a@),
                None => None,
            },
            title: match self.title {
                Some(t) => Some(t@),
                None => None,
            },
        }
    }
}

/// The model of a whole row: its cells' models in order.
pub open spec fn cells_view(cells: Seq<Cell>) -> Seq<CellView> {
    cells.map_values(|c: Cell| c@)
}

/// The model of an optional listing.
pub open spec fn listing_opt_view(o: Option<GpuListing>) -> Option<ListingView> {
    match o {
        Some(l) => Some(l@),
        None => None,
    }
}

/// What a marketplace row yields: exactly two cells, the first holding a
/// link whose text carries the marketplace marker. The listing takes its
/// name and target from that link, its status from the second cell, and
/// carries no price and no last-available value.
pub open spec fn spec_ebay_row(cells: Seq<CellView>) -> Option<ListingView> {
    if cells.len() != 2 {
        None
    } else {
        match cells[0].anchor {
            None => None,
            Some(a) => if contains_marker(a.text) {
                Some(
                    ListingView {
                        name: a.text,
                        status: cells[1].text,
                        price: "-"@,
                        price_cents: None,
                        last_available: "-"@,
                        link: a.href,
                    },
                )
            } else {
                None
            },
        }
    }
}

/// What a standard row yields: at least four cells, the first holding a
/// link with a usable (non-empty, non-sentinel) text. Name and target come
/// from that link; the status prefers the second cell's inner link text
/// over its own text; the third cell's text is the raw price, normalized
/// into cents; the fourth cell's secondary attribute value, when present
/// and non-empty, beats its visible text as the last-available value.
pub open spec fn spec_standard_row(cells: Seq<CellView>) -> Option<ListingView> {
    if cells.len() < 4 {
        None
    } else {
        match cells[0].anchor {
            None => None,
            Some(a) => if a.text.len() == 0 || a.text == "N/A"@ {
                None
            } else {
                Some(
                    ListingView {
                        name: a.text,
                        status: match cells[1].anchor {
                            Some(sa) => sa.text,
                            None => cells[1].text,
                        },
                        price: cells[2].text,
                        price_cents: spec_parse_price(cells[2].text),
                        last_available: match cells[3].title {
                            Some(t) => if t.len() > 0 {
                                t
                            } else {
                                cells[3].text
                            },
                            None => cells[3].text,
                        },
                        link: a.href,
                    },
                )
            },
        }
    }
}

/// What a row yields: the marketplace shape is tried first, the standard
/// shape second; a row matching neither yields nothing.
pub open spec fn spec_classify_row(cells: Seq<CellView>) -> Option<ListingView> {
    match spec_ebay_row(cells) {
        Some(l) => Some(l),
        None => spec_standard_row(cells),
    }
}

/// A price text shorter than the pattern itself parses to nothing.
pub proof fn lemma_short_price_none(s: Seq<char>)
    requires
        s.len() < 4,
    ensures
        spec_parse_price(s) is None,
{
    assert forall|i: int| !crate::price::price_match_starts_at(s, i) by {
        assert forall|k: int| !price_match_at(s, i, k) by {}
    }
    crate::price::lemma_parse_price_no_match(s);
}

/// Every listing a row yields is well formed: a real name, and a numeric
/// price exactly matching its raw text.
pub proof fn lemma_classify_row_wf(cells: Seq<CellView>)
    ensures
        spec_classify_row(cells) matches Some(l) ==> listing_wf(l),
{
    reveal_strlit("N/A");
    reveal_strlit("-");
    if spec_ebay_row(cells) matches Some(l) {
        let a = cells[0].anchor->Some_0;
        let i = choose|i: int| marker_at(a.text, i);
        assert(a.text.len() >= 4);
        lemma_short_price_none("-"@);
    }
}

/// For all rows with fewer than two cells, the classifier yields nothing.
pub proof fn lemma_small_row_none(cells: Seq<CellView>)
    requires
        cells.len() < 2,
    ensures
        spec_classify_row(cells) is None,
{
}

/// A two-cell row whose first cell holds a link with the marketplace marker
/// in its text always yields a marketplace listing without a numeric price.
pub proof fn lemma_marker_row_yields_marketplace(cells: Seq<CellView>)
    requires
        cells.len() == 2,
        cells[0].anchor matches Some(a) && contains_marker(a.text),
    ensures
        spec_classify_row(cells) matches Some(l),
        spec_classify_row(cells)->Some_0.price_cents is None,
        spec_classify_row(cells)->Some_0.name == cells[0].anchor->Some_0.text,
        spec_classify_row(cells)->Some_0.status == cells[1].text,
        spec_classify_row(cells)->Some_0.link == cells[0].anchor->Some_0.href,
{
}

/// A row of four or more cells whose first cell holds no link yields
/// nothing: it is dropped, not defaulted.
pub proof fn lemma_linkless_row_dropped(cells: Seq<CellView>)
    requires
        cells.len() >= 4,
        cells[0].anchor is None,
    ensures
        spec_classify_row(cells) is None,
{
}

/// Classifies one row as a marketplace row, returning its listing.
pub fn parse_ebay_row(cells: &Vec<Cell>) -> (r: Option<GpuListing>)
    ensures
        listing_opt_view(r) == spec_ebay_row(cells_view(cells@)),
{
    if cells.len() != 2 {
        return None;
    }
    match &cells[0].anchor {
        None => None,
        Some(a) => {
            if find_marker(a.text.as_str()) {
                Some(
                    GpuListing {
                        name: a.text.clone(),
                        status: cells[1].text.clone(),
                        price: String::from_str("-"),
                        price_cents: None,
                        last_available: String::from_str("-"),
                        link: a.href.clone(),
                    },
                )
            } else {
                None
            }
        },
    }
}

/// Classifies one row as a standard row, returning its listing.
pub fn parse_standard_row(cells: &Vec<Cell>) -> (r: Option<GpuListing>)
    ensures
        listing_opt_view(r) == spec_standard_row(cells_view(cells@)),
{
    if cells.len() < 4 {
        return None;
    }
    match &cells[0].anchor {
        None => None,
        Some(a) => {
            if a.text.as_str().unicode_len() == 0 || str_eq(a.text.as_str(), "N/A") {
                return None;
            }
            let status = match &cells[1].anchor {
                Some(sa) => sa.text.clone(),
                None => cells[1].text.clone(),
            };
            let price = cells[2].text.clone();
            let price_cents = parse_price(price.as_str());
            let last_available = match &cells[3].title {
                Some(t) => if t.as_str().unicode_len() > 0 {
                    t.clone()
                } else {
                    cells[3].text.clone()
                },
                None => cells[3].text.clone(),
            };
            Some(
                GpuListing {
                    name: a.text.clone(),
                    status,
                    price,
                    price_cents,
                    last_available,
                    link: a.href.clone(),
                },
            )
        },
    }
}

/// Classifies one row, trying the marketplace shape first and the standard
/// shape second.
pub fn classify_row(cells: &Vec<Cell>) -> (r: Option<GpuListing>)
    ensures
        listing_opt_view(r) == spec_classify_row(cells_view(cells@)),
        r matches Some(l) ==> listing_wf(l@),
{
    proof {
        lemma_classify_row_wf(cells_view(cells@));
    }
    match parse_ebay_row(cells) {
        Some(l) => Some(l),
        None => parse_standard_row(cells),
    }
}

} // verus!
