use gpu_stock::listing::GpuListing;
use gpu_stock::model::{all_models, variant_url, GpuModel, OutputFormat, SortColumn, BASE_URL};

#[test]
fn model_parses_short_and_long_names() {
    assert_eq!(GpuModel::from_str("5090").unwrap(), GpuModel::Rtx5090);
    assert_eq!(GpuModel::from_str("rtx5090").unwrap(), GpuModel::Rtx5090);
    assert_eq!(GpuModel::from_str("5080").unwrap(), GpuModel::Rtx5080);
    assert_eq!(GpuModel::from_str("5070ti").unwrap(), GpuModel::Rtx5070Ti);
    assert_eq!(GpuModel::from_str("5070").unwrap(), GpuModel::Rtx5070);
}

#[test]
fn model_parsing_folds_case_and_trailing_slash() {
    assert_eq!(GpuModel::from_str("RTX5070TI/").unwrap(), GpuModel::Rtx5070Ti);
    assert_eq!(GpuModel::from_str("Rtx5080//").unwrap(), GpuModel::Rtx5080);
}

#[test]
fn unknown_model_is_an_error_with_message() {
    let e = GpuModel::from_str("4090").unwrap_err();
    assert_eq!(e.0, "4090");
    assert_eq!(e.message(), "Invalid GPU model: 4090");
}

#[test]
fn every_variant_has_its_own_url() {
    assert_eq!(
        variant_url(GpuModel::Rtx5090),
        format!("{}rtx5090/", BASE_URL)
    );
    assert_eq!(
        variant_url(GpuModel::Rtx5070Ti),
        format!("{}rtx5070ti/", BASE_URL)
    );
}

#[test]
fn variants_enumerate_in_fixed_order() {
    assert_eq!(
        all_models(),
        vec![
            GpuModel::Rtx5090,
            GpuModel::Rtx5080,
            GpuModel::Rtx5070Ti,
            GpuModel::Rtx5070
        ]
    );
}

#[test]
fn sort_column_parses_all_spellings() {
    assert_eq!(SortColumn::from_str("name").unwrap(), SortColumn::Name);
    assert_eq!(SortColumn::from_str("Status").unwrap(), SortColumn::Status);
    assert_eq!(SortColumn::from_str("PRICE").unwrap(), SortColumn::Price);
    assert_eq!(SortColumn::from_str("last").unwrap(), SortColumn::LastAvailable);
    assert_eq!(
        SortColumn::from_str("lastavailable").unwrap(),
        SortColumn::LastAvailable
    );
    assert_eq!(
        SortColumn::from_str("last_available").unwrap(),
        SortColumn::LastAvailable
    );
    assert_eq!(SortColumn::from_str("link").unwrap(), SortColumn::Link);
}

#[test]
fn unknown_sort_column_is_an_error_with_message() {
    let e = SortColumn::from_str("speed").unwrap_err();
    assert_eq!(e, "Invalid sort column: speed");
}

#[test]
fn output_formats_are_distinct() {
    assert!(OutputFormat::Table == OutputFormat::Table);
    assert!(OutputFormat::Json != OutputFormat::Yaml);
    assert!(OutputFormat::Toml != OutputFormat::Table);
}

#[test]
fn status_class_folds_and_dashes() {
    let l = GpuListing {
        name: "x".to_string(),
        status: "In Stock".to_string(),
        price: "-".to_string(),
        price_cents: None,
        last_available: "-".to_string(),
        link: String::new(),
    };
    assert_eq!(l.status_class(), "in-stock");
}

#[test]
fn status_class_drops_other_punctuation() {
    let l = GpuListing {
        name: "x".to_string(),
        status: "Not Tracking (yet?)".to_string(),
        price: "-".to_string(),
        price_cents: None,
        last_available: "-".to_string(),
        link: String::new(),
    };
    assert_eq!(l.status_class(), "not-tracking-yet");
}
