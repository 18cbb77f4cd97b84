use gpu_stock::filter::filter_listings;
use gpu_stock::listing::GpuListing;
use gpu_stock::model::SortColumn;
use gpu_stock::sort::sort_listings;

fn listing(name: &str, status: &str, price: &str, cents: Option<u64>) -> GpuListing {
    GpuListing {
        name: name.to_string(),
        status: status.to_string(),
        price: price.to_string(),
        price_cents: cents,
        last_available: "-".to_string(),
        link: String::new(),
    }
}

fn names(v: &[GpuListing]) -> Vec<&str> {
    v.iter().map(|l| l.name.as_str()).collect()
}

#[test]
fn sorts_by_name_ascending() {
    let mut v = vec![
        listing("bravo", "In Stock", "-", None),
        listing("alpha", "In Stock", "-", None),
        listing("charlie", "In Stock", "-", None),
    ];
    sort_listings(&mut v, SortColumn::Name, false);
    assert_eq!(names(&v), vec!["alpha", "bravo", "charlie"]);
}

#[test]
fn sorts_by_name_descending() {
    let mut v = vec![
        listing("bravo", "In Stock", "-", None),
        listing("alpha", "In Stock", "-", None),
        listing("charlie", "In Stock", "-", None),
    ];
    sort_listings(&mut v, SortColumn::Name, true);
    assert_eq!(names(&v), vec!["charlie", "bravo", "alpha"]);
}

#[test]
fn shorter_name_sorts_before_its_extension() {
    let mut v = vec![
        listing("abc", "In Stock", "-", None),
        listing("ab", "In Stock", "-", None),
    ];
    sort_listings(&mut v, SortColumn::Name, false);
    assert_eq!(names(&v), vec!["ab", "abc"]);
}

#[test]
fn sorts_by_price_ascending_with_priceless_last() {
    let mut v = vec![
        listing("none", "In Stock", "-", None),
        listing("dear", "In Stock", "$300.00", Some(30000)),
        listing("cheap", "In Stock", "$100.00", Some(10000)),
    ];
    sort_listings(&mut v, SortColumn::Price, false);
    assert_eq!(names(&v), vec!["cheap", "dear", "none"]);
}

#[test]
fn descending_flip_applies_to_presence_tie_break_too() {
    let mut v = vec![
        listing("none", "In Stock", "-", None),
        listing("dear", "In Stock", "$300.00", Some(30000)),
        listing("cheap", "In Stock", "$100.00", Some(10000)),
    ];
    sort_listings(&mut v, SortColumn::Price, true);
    assert_eq!(names(&v), vec!["none", "dear", "cheap"]);
}

#[test]
fn two_priceless_listings_order_by_raw_price_text() {
    let mut v = vec![
        listing("b", "In Stock", "TBD", None),
        listing("a", "In Stock", "-", None),
    ];
    sort_listings(&mut v, SortColumn::Price, false);
    assert_eq!(names(&v), vec!["a", "b"]);
}

#[test]
fn sort_is_stable_on_equal_prices() {
    let mut v = vec![
        listing("alpha", "In Stock", "$100.00", Some(10000)),
        listing("bravo", "In Stock", "$100.00", Some(10000)),
        listing("charlie", "In Stock", "$050.00", Some(5000)),
        listing("delta", "In Stock", "$100.00", Some(10000)),
    ];
    sort_listings(&mut v, SortColumn::Price, false);
    assert_eq!(names(&v), vec!["charlie", "alpha", "bravo", "delta"]);
}

#[test]
fn resorting_by_name_restores_order_among_equal_price_ties() {
    let mut v = vec![
        listing("alpha", "In Stock", "$100.00", Some(10000)),
        listing("bravo", "In Stock", "$050.00", Some(5000)),
        listing("charlie", "In Stock", "$100.00", Some(10000)),
    ];
    sort_listings(&mut v, SortColumn::Price, false);
    assert_eq!(names(&v), vec!["bravo", "alpha", "charlie"]);
    sort_listings(&mut v, SortColumn::Name, false);
    assert_eq!(names(&v), vec!["alpha", "bravo", "charlie"]);
}

#[test]
fn sorts_by_status_and_link() {
    let mut v = vec![
        listing("x", "Preorder", "-", None),
        listing("y", "In Stock", "-", None),
    ];
    sort_listings(&mut v, SortColumn::Status, false);
    assert_eq!(names(&v), vec!["y", "x"]);
    let mut w = vec![
        listing("x", "In Stock", "-", None),
        listing("y", "In Stock", "-", None),
    ];
    w[0].link = "https://b.example".to_string();
    w[1].link = "https://a.example".to_string();
    sort_listings(&mut w, SortColumn::Link, false);
    assert_eq!(names(&w), vec!["y", "x"]);
}

#[test]
fn sorts_by_last_available_text() {
    let mut v = vec![
        listing("x", "In Stock", "-", None),
        listing("y", "In Stock", "-", None),
    ];
    v[0].last_available = "Apr 3".to_string();
    v[1].last_available = "Apr 1".to_string();
    sort_listings(&mut v, SortColumn::LastAvailable, false);
    assert_eq!(names(&v), vec!["y", "x"]);
}

#[test]
fn filtered_price_sort_keeps_priced_entry_first() {
    let input = vec![
        listing("A", "In Stock", "$100.00", Some(10000)),
        listing("B", "Out of Stock", "$50.00", Some(5000)),
        listing("C", "In Stock", "-", None),
    ];
    let mut kept = filter_listings(&input, false);
    sort_listings(&mut kept, SortColumn::Price, false);
    assert_eq!(names(&kept), vec!["A", "C"]);
}
