//! The extractor: locates the inventory table in a document, reduces each
//! row's cells to plain values, and classifies every row. The document walk
//! itself is delegated to the scraper crate behind one trusted boundary
//! whose result is named; all classification runs on plain values and is
//! verified.

use vstd::prelude::*;
use vstd::string::StringExecFns;
use crate::listing::GpuListing;
use crate::listing::ListingView;
use crate::listing::listing_wf;
use crate::row::Anchor;
use crate::row::Cell;
use crate::row::CellView;
use crate::row::cells_view;
use crate::row::classify_row;
use crate::row::spec_classify_row;
use crate::row::lemma_classify_row_wf;
use crate::filter::listings_view;

verus! {

/// The expected anchor table is missing from the document: the source
/// page's layout changed. Fatal for the one extraction call.
#[derive(Debug)]
pub struct StructureError;

impl StructureError {
    /// The human-readable description of the error.
    pub fn message(&self) -> (r: String)
        ensures
            r@
                == "Could not find the data table using selector '#data > table.table'. The page structure might have changed."@,
    {
        String::from_str(
            "Could not find the data table using selector '#data > table.table'. The page structure might have changed.",
        )
    }
}

/// The anchor table's rows, each reduced to its cells' plain values, as a
/// function of the document text alone; nothing when the document holds no
/// anchor table. What it is on a given document is left to the HTML parser.
pub uninterp spec fn spec_rows_of(html: Seq<char>) -> Option<Seq<Seq<CellView>>>;

/// The model of a sequence of rows.
pub open spec fn rows_view(rows: Seq<Vec<Cell>>) -> Seq<Seq<CellView>> {
    rows.map_values(|r: Vec<Cell>| cells_view(r@))
}

/// The model of an extraction outcome.
pub open spec fn rows_opt_view(o: Option<Vec<Vec<Cell>>>) -> Option<Seq<Seq<CellView>>> {
    match o {
        Some(rows) => Some(rows_view(rows@)),
        None => None,
    }
}

#[verifier::external_type_specification]
#[verifier::external_body]
pub struct ExElementRef<'a>(scraper::ElementRef<'a>);

/// Relies on scraper (ElementRef::text, select, attr): one cell reduced to
/// the plain values the classifier reads — trimmed text, the first inline
/// "a" link (trimmed text and href target, empty when absent), and the
/// trimmed title attribute. The "a" selector is a fixed valid literal, so
/// parsing it cannot fail.
#[verifier::external_body]
fn cell_of(cell: scraper::ElementRef<'_>) -> Cell {
    let ls = scraper::Selector::parse("a").unwrap();
    Cell {
        text: cell.text().collect::<String>().trim().to_string(),
        anchor: cell.select(&ls).next().map(|a| Anchor {
            text: a.text().collect::<String>().trim().to_string(),
            href: a.attr("href").unwrap_or("").to_string(),
        }),
        title: cell.attr("title").map(|s| s.trim().to_string()),
    }
}

/// Relies on scraper (Html::parse_document, Selector::parse, select):
/// parses the document and, when the anchor table "#data > table.table"
/// exists, hands back each "tbody > tr" row's "td" cells, each reduced to
/// plain values by `cell_of`. Every selector is a fixed valid literal, so
/// parsing one cannot fail; the result is a function of the document text
/// alone.
#[verifier::external_body]
fn extract_rows(html: &str) -> (r: Option<Vec<Vec<Cell>>>)
    ensures
        rows_opt_view(r) == spec_rows_of(html@),
{
    let doc = scraper::Html::parse_document(html);
    let ts = scraper::Selector::parse("#data > table.table").unwrap();
    let rs = scraper::Selector::parse("tbody > tr").unwrap();
    let cs = scraper::Selector::parse("td").unwrap();
    let table = doc.select(&ts).next()?;
    Some(table.select(&rs).map(|r| r.select(&cs).map(cell_of).collect()).collect())
}

/// The listings a sequence of rows yields, in document order: each row's
/// classification, rows matching neither shape skipped.
pub open spec fn spec_listings_of(rows: Seq<Seq<CellView>>) -> Seq<ListingView>
    decreases rows.len(),
{
    if rows.len() == 0 {
        Seq::empty()
    } else {
        let rest = spec_listings_of(rows.drop_last());
        match spec_classify_row(rows.last()) {
            Some(l) => rest.push(l),
            None => rest,
        }
    }
}

/// Every listing a sequence of rows yields is well formed.
pub proof fn lemma_listings_of_wf(rows: Seq<Seq<CellView>>)
    ensures
        forall|i: int|
            0 <= i < spec_listings_of(rows).len() ==> listing_wf(#[trigger] spec_listings_of(
                rows,
            )[i]),
    decreases rows.len(),
{
    if rows.len() > 0 {
        lemma_listings_of_wf(rows.drop_last());
        lemma_classify_row_wf(rows.last());
        let rest = spec_listings_of(rows.drop_last());
        assert forall|i: int| 0 <= i < spec_listings_of(rows).len() implies listing_wf(
            #[trigger] spec_listings_of(rows)[i],
        ) by {
            if i < rest.len() {
                assert(spec_listings_of(rows)[i] == rest[i]);
            }
        }
    }
}

/// Classifies every row, keeping the yielded listings in document order.
pub fn listings_from_rows(rows: &Vec<Vec<Cell>>) -> (r: Vec<GpuListing>)
    ensures
        listings_view(r@) == spec_listings_of(rows_view(rows@)),
        forall|i: int| 0 <= i < r@.len() ==> listing_wf(#[trigger] r@[i]@),
{
    let mut out: Vec<GpuListing> = Vec::new();
    let mut i: usize = 0;
    proof {
        assert(rows_view(rows@.subrange(0, 0)) =~= Seq::<Seq<CellView>>::empty());
        assert(listings_view(out@) =~= Seq::<ListingView>::empty());
    }
    while i < rows.len()
        invariant
            i <= rows@.len(),
            listings_view(out@) == spec_listings_of(rows_view(rows@.subrange(0, i as int))),
        decreases rows@.len() - i,
    {
        proof {
            let pre = rows@.subrange(0, i as int);
            let cur = rows@.subrange(0, i + 1);
            assert(cur.drop_last() =~= pre);
            assert(rows_view(cur).drop_last() =~= rows_view(pre));
            assert(rows_view(cur).last() == cells_view(rows@[i as int]@));
        }
        match classify_row(&rows[i]) {
            Some(l) => {
                let ghost before = listings_view(out@);
                out.push(l);
                proof {
                    assert(listings_view(out@) =~= before.push(out@.last()@));
                }
            },
            None => {},
        }
        i += 1;
    }
    proof {
        assert(rows@.subrange(0, rows@.len() as int) =~= rows@);
        lemma_listings_of_wf(rows_view(rows@));
        assert forall|i2: int| 0 <= i2 < out@.len() implies listing_wf(#[trigger] out@[i2]@) by {
            assert(listings_view(out@)[i2] == out@[i2]@);
        }
    }
    out
}

/// Extracts every listing from a document: finds the anchor table, reduces
/// each of its rows to plain cell values, and classifies them in document
/// order. Fails exactly when the anchor table is missing; otherwise the
/// result is the classification of the document's rows, every listing in it
/// well formed.
pub fn parse_listings(html: &str) -> (r: Result<Vec<GpuListing>, StructureError>)
    ensures
        r is Err <==> spec_rows_of(html@) is None,
        r matches Ok(listings) ==> {
            &&& spec_rows_of(html@) matches Some(rows) && listings_view(listings@)
                == spec_listings_of(rows)
            &&& forall|i: int| 0 <= i < listings@.len() ==> listing_wf(#[trigger] listings@[i]@)
        },
{
    match extract_rows(html) {
        None => Err(StructureError),
        Some(rows) => Ok(listings_from_rows(&rows)),
    }
}

} // verus!
