use gpu_stock::row::{classify_row, parse_ebay_row, parse_standard_row, Anchor, Cell};

fn plain_cell(text: &str) -> Cell {
    Cell { text: text.to_string(), anchor: None, title: None }
}

fn link_cell(text: &str, link_text: &str, href: &str) -> Cell {
    Cell {
        text: text.to_string(),
        anchor: Some(Anchor { text: link_text.to_string(), href: href.to_string() }),
        title: None,
    }
}

#[test]
fn empty_row_yields_nothing() {
    assert!(classify_row(&vec![]).is_none());
}

#[test]
fn one_cell_row_yields_nothing() {
    assert!(classify_row(&vec![plain_cell("decorative header")]).is_none());
}

#[test]
fn marketplace_row_yields_marketplace_listing() {
    let cells = vec![
        link_cell("Ebay Listings", "Ebay Listings", "https://ebay.example/gpu"),
        plain_cell("Stock Available"),
    ];
    let l = classify_row(&cells).unwrap();
    assert_eq!(l.name, "Ebay Listings");
    assert_eq!(l.status, "Stock Available");
    assert_eq!(l.price, "-");
    assert_eq!(l.price_cents, None);
    assert_eq!(l.last_available, "-");
    assert_eq!(l.link, "https://ebay.example/gpu");
}

#[test]
fn two_cell_row_without_marker_yields_nothing() {
    let cells = vec![
        link_cell("Some Shop", "Some Shop", "https://shop.example"),
        plain_cell("Stock Available"),
    ];
    assert!(parse_ebay_row(&cells).is_none());
    assert!(classify_row(&cells).is_none());
}

#[test]
fn two_cell_row_without_link_yields_nothing() {
    let cells = vec![plain_cell("Ebay Listings"), plain_cell("Stock Available")];
    assert!(classify_row(&cells).is_none());
}

#[test]
fn standard_row_yields_listing() {
    let cells = vec![
        link_cell("", "ASUS RTX 5080", "https://shop.example/5080"),
        plain_cell("In Stock"),
        plain_cell("$1,019.99"),
        plain_cell("Apr 2 - 9:15 AM"),
    ];
    let l = classify_row(&cells).unwrap();
    assert_eq!(l.name, "ASUS RTX 5080");
    assert_eq!(l.status, "In Stock");
    assert_eq!(l.price, "$1,019.99");
    assert_eq!(l.price_cents, Some(101999));
    assert_eq!(l.last_available, "Apr 2 - 9:15 AM");
    assert_eq!(l.link, "https://shop.example/5080");
}

#[test]
fn linkless_standard_row_is_dropped() {
    let cells = vec![
        plain_cell("ASUS RTX 5080"),
        plain_cell("In Stock"),
        plain_cell("$999.99"),
        plain_cell("Apr 2"),
    ];
    assert!(parse_standard_row(&cells).is_none());
    assert!(classify_row(&cells).is_none());
}

#[test]
fn empty_name_row_is_dropped() {
    let cells = vec![
        link_cell("x", "", "https://shop.example"),
        plain_cell("In Stock"),
        plain_cell("$999.99"),
        plain_cell("Apr 2"),
    ];
    assert!(classify_row(&cells).is_none());
}

#[test]
fn sentinel_name_row_is_dropped() {
    let cells = vec![
        link_cell("x", "N/A", "https://shop.example"),
        plain_cell("In Stock"),
        plain_cell("$999.99"),
        plain_cell("Apr 2"),
    ];
    assert!(classify_row(&cells).is_none());
}

#[test]
fn three_cell_row_is_dropped() {
    let cells = vec![
        link_cell("x", "ASUS RTX 5080", "https://shop.example"),
        plain_cell("In Stock"),
        plain_cell("$999.99"),
    ];
    assert!(classify_row(&cells).is_none());
}

#[test]
fn status_prefers_inner_link_text() {
    let cells = vec![
        link_cell("x", "ASUS RTX 5080", "https://shop.example"),
        link_cell("ignored", "In Stock", "https://shop.example/buy"),
        plain_cell("-"),
        plain_cell("-"),
    ];
    let l = classify_row(&cells).unwrap();
    assert_eq!(l.status, "In Stock");
    assert_eq!(l.price_cents, None);
}

#[test]
fn last_available_prefers_title_attribute() {
    let mut cells = vec![
        link_cell("x", "ASUS RTX 5080", "https://shop.example"),
        plain_cell("In Stock"),
        plain_cell("$999.99"),
        plain_cell("Apr 2"),
    ];
    cells[3].title = Some("2025-04-02 09:15:00".to_string());
    let l = classify_row(&cells).unwrap();
    assert_eq!(l.last_available, "2025-04-02 09:15:00");
}

#[test]
fn empty_title_attribute_falls_back_to_text() {
    let mut cells = vec![
        link_cell("x", "ASUS RTX 5080", "https://shop.example"),
        plain_cell("In Stock"),
        plain_cell("$999.99"),
        plain_cell("Apr 2"),
    ];
    cells[3].title = Some("".to_string());
    let l = classify_row(&cells).unwrap();
    assert_eq!(l.last_available, "Apr 2");
}

#[test]
fn missing_href_becomes_empty_link() {
    let cells = vec![
        link_cell("x", "ASUS RTX 5080", ""),
        plain_cell("In Stock"),
        plain_cell("-"),
        plain_cell("-"),
    ];
    let l = classify_row(&cells).unwrap();
    assert_eq!(l.link, "");
}
