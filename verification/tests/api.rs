use finn_cli::{
    build_search_query, extract_item_id, normalize_category, parse_category_id, CategoryEntry,
    ConditionFilter, DealerSegmentFilter, ForRentFilter, SearchParams, SearchSort,
    TradeTypeFilter,
};

#[test]
fn builds_search_query_with_filters() {
    let category = CategoryEntry {
        label: "Elektronikk og hvitevarer".to_string(),
        path: vec!["Elektronikk og hvitevarer".to_string()],
        query_param: "category".to_string(),
        value: "0.93".to_string(),
    };
    let params = SearchParams::new("rtx 4080")
        .with_category("Elektronikk og hvitevarer")
        .with_page(2)
        .with_sort(SearchSort::PriceAsc)
        .with_price_from(10_000)
        .with_price_to(20_000)
        .with_shipping(true)
        .with_location("0.20061")
        .with_for_rent(ForRentFilter::Buy)
        .with_trade_type(TradeTypeFilter::ForSale)
        .with_dealer_segment(DealerSegmentFilter::Private)
        .with_condition(ConditionFilter::LikeNew)
        .with_published_today(true)
        .with_raw_param("foo", "bar");

    let query = build_search_query(&params, 2, Some(&category));

    assert!(query.contains(&("q".to_string(), "rtx 4080".to_string())));
    assert!(query.contains(&("page".to_string(), "2".to_string())));
    assert!(query.contains(&("category".to_string(), "0.93".to_string())));
    assert!(query.contains(&("sort".to_string(), "PRICE_ASC".to_string())));
    assert!(query.contains(&("price_from".to_string(), "10000".to_string())));
    assert!(query.contains(&("price_to".to_string(), "20000".to_string())));
    assert!(query.contains(&("shipping_types".to_string(), "0".to_string())));
    assert!(query.contains(&("location".to_string(), "0.20061".to_string())));
    assert!(query.contains(&("for_rent".to_string(), "0".to_string())));
    assert!(query.contains(&("trade_type".to_string(), "1".to_string())));
    assert!(query.contains(&("dealer_segment".to_string(), "1".to_string())));
    assert!(query.contains(&("condition".to_string(), "2".to_string())));
    assert!(query.contains(&("published".to_string(), "1".to_string())));
    assert!(query.contains(&("foo".to_string(), "bar".to_string())));
}

#[test]
fn parses_category_id_prefixes() {
    assert_eq!(
        parse_category_id("0.93").map(|category| category.query_param),
        Some("category".to_string())
    );
    assert_eq!(
        parse_category_id("1.93.3215").map(|category| category.query_param),
        Some("sub_category".to_string())
    );
    assert_eq!(
        parse_category_id("2.93.3215.8368").map(|category| category.query_param),
        Some("product_category".to_string())
    );
}

#[test]
fn normalizes_category_spacing_and_letters() {
    assert_eq!(
        normalize_category(" Elektronikk   og hvitevarer>Data "),
        "elektronikk og hvitevarer data"
    );
    assert_eq!(normalize_category("Bærbar PC"), "baerbar pc");
}

#[test]
fn extracts_item_id_from_plain_id_and_url() {
    assert_eq!(extract_item_id("451260160").as_deref(), Some("451260160"));
    assert_eq!(
        extract_item_id("https://www.finn.no/recommerce/forsale/item/451260160").as_deref(),
        Some("451260160")
    );
}
