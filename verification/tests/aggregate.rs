use gpu_stock::filter::{cheapest_each, cheapest_pick, filter_listings, gather_listings,
    limit_listings};
use gpu_stock::listing::GpuListing;

fn listing(name: &str, status: &str, price: &str, cents: Option<u64>) -> GpuListing {
    GpuListing {
        name: name.to_string(),
        status: status.to_string(),
        price: price.to_string(),
        price_cents: cents,
        last_available: "-".to_string(),
        link: String::new(),
    }
}

#[test]
fn default_filter_removes_unavailable_and_nothing_else() {
    let input = vec![
        listing("A", "In Stock", "$100.00", Some(10000)),
        listing("B", "Out of Stock", "-", None),
        listing("C", "not TRACKING", "-", None),
        listing("D", "Preorder", "$90.00", Some(9000)),
        listing("E", "Stock Available", "-", None),
        listing("F", "OUT OF STOCK", "-", None),
    ];
    let kept = filter_listings(&input, false);
    let names: Vec<&str> = kept.iter().map(|l| l.name.as_str()).collect();
    assert_eq!(names, vec!["A", "D", "E"]);
}

#[test]
fn show_all_keeps_everything_in_order() {
    let input = vec![
        listing("A", "In Stock", "$100.00", Some(10000)),
        listing("B", "Out of Stock", "-", None),
        listing("C", "Not Tracking", "-", None),
    ];
    let kept = filter_listings(&input, true);
    let names: Vec<&str> = kept.iter().map(|l| l.name.as_str()).collect();
    assert_eq!(names, vec!["A", "B", "C"]);
}

#[test]
fn cheapest_pick_takes_minimum_price() {
    let input = vec![
        listing("A", "In Stock", "$300.00", Some(30000)),
        listing("B", "In Stock", "$200.00", Some(20000)),
        listing("C", "In Stock", "$250.00", Some(25000)),
    ];
    let best = cheapest_pick(&input, false).unwrap();
    assert_eq!(best.name, "B");
}

#[test]
fn cheapest_pick_never_selects_preorder() {
    let input = vec![
        listing("cheap preorder", "Preorder", "$10.00", Some(1000)),
        listing("real stock", "In Stock", "$500.00", Some(50000)),
    ];
    let best = cheapest_pick(&input, false).unwrap();
    assert_eq!(best.name, "real stock");
}

#[test]
fn cheapest_pick_excludes_preorder_even_with_show_all() {
    let input = vec![
        listing("cheap preorder", "Preorder", "$10.00", Some(1000)),
        listing("real stock", "In Stock", "$500.00", Some(50000)),
    ];
    let best = cheapest_pick(&input, true).unwrap();
    assert_eq!(best.name, "real stock");
}

#[test]
fn cheapest_pick_ignores_priceless_listings() {
    let input = vec![
        listing("no price", "In Stock", "-", None),
        listing("priced", "In Stock", "$500.00", Some(50000)),
    ];
    let best = cheapest_pick(&input, false).unwrap();
    assert_eq!(best.name, "priced");
}

#[test]
fn cheapest_pick_keeps_first_of_equal_prices() {
    let input = vec![
        listing("first", "In Stock", "$100.00", Some(10000)),
        listing("second", "In Stock", "$100.00", Some(10000)),
    ];
    let best = cheapest_pick(&input, false).unwrap();
    assert_eq!(best.name, "first");
}

#[test]
fn cheapest_pick_with_no_eligible_listing_is_none() {
    let input = vec![
        listing("gone", "Out of Stock", "-", None),
        listing("soon", "Preorder", "$90.00", Some(9000)),
    ];
    assert!(cheapest_pick(&input, false).is_none());
}

#[test]
fn one_failed_variant_leaves_at_most_n_minus_one_entries() {
    let outcomes = vec![
        Some(vec![listing("A", "In Stock", "$100.00", Some(10000))]),
        None,
        Some(vec![listing("C", "In Stock", "$300.00", Some(30000))]),
        Some(vec![listing("D", "In Stock", "$400.00", Some(40000))]),
    ];
    let picks = cheapest_each(&outcomes, false);
    assert!(picks.len() <= 3);
    let names: Vec<&str> = picks.iter().map(|l| l.name.as_str()).collect();
    assert_eq!(names, vec!["A", "C", "D"]);
}

#[test]
fn cheapest_each_keeps_variant_order() {
    let outcomes = vec![
        Some(vec![
            listing("v1 dear", "In Stock", "$900.00", Some(90000)),
            listing("v1 cheap", "In Stock", "$100.00", Some(10000)),
        ]),
        Some(vec![listing("v2 only", "In Stock", "$500.00", Some(50000))]),
    ];
    let picks = cheapest_each(&outcomes, false);
    let names: Vec<&str> = picks.iter().map(|l| l.name.as_str()).collect();
    assert_eq!(names, vec!["v1 cheap", "v2 only"]);
}

#[test]
fn variant_without_eligible_listing_contributes_nothing() {
    let outcomes = vec![
        Some(vec![listing("sold out", "Out of Stock", "-", None)]),
        Some(vec![listing("stocked", "In Stock", "$500.00", Some(50000))]),
    ];
    let picks = cheapest_each(&outcomes, false);
    let names: Vec<&str> = picks.iter().map(|l| l.name.as_str()).collect();
    assert_eq!(names, vec!["stocked"]);
}

#[test]
fn all_variants_failing_yields_empty_result() {
    let outcomes: Vec<Option<Vec<GpuListing>>> = vec![None, None, None, None];
    assert!(cheapest_each(&outcomes, false).is_empty());
}

#[test]
fn gather_concatenates_successes_in_order() {
    let outcomes = vec![
        Some(vec![
            listing("A", "In Stock", "-", None),
            listing("B", "Out of Stock", "-", None),
        ]),
        None,
        Some(vec![listing("C", "In Stock", "-", None)]),
    ];
    let all = gather_listings(&outcomes);
    let names: Vec<&str> = all.iter().map(|l| l.name.as_str()).collect();
    assert_eq!(names, vec!["A", "B", "C"]);
}

#[test]
fn limit_truncates_and_none_keeps_all() {
    let mut v = vec![
        listing("A", "In Stock", "-", None),
        listing("B", "In Stock", "-", None),
        listing("C", "In Stock", "-", None),
    ];
    limit_listings(&mut v, None);
    assert_eq!(v.len(), 3);
    limit_listings(&mut v, Some(2));
    assert_eq!(v.len(), 2);
    assert_eq!(v[0].name, "A");
    assert_eq!(v[1].name, "B");
    limit_listings(&mut v, Some(10));
    assert_eq!(v.len(), 2);
}
