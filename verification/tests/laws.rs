use finn_cli::paging::{add_page, PageWalk};
use finn_cli::{build_search_query, CategoryEntry, SearchSort};
use finn_cli::search::{ApiExtra, ApiItem, ApiPrice};
use finn_cli::{
    check_query, extract_hydration_json, extract_item_id, first_page, format_number,
    format_price, map_search_item, normalize_base_url, normalize_category, parse_key_value,
    pick_step, plan_category, resolve_item_url, CategoryPlan, FinnError, PickStep, Price,
    SearchParams, SearchResult,
};

fn page(current: u32, last: u32, ids: &[u64]) -> SearchResult {
    SearchResult {
        query: "rtx".to_string(),
        category: None,
        title: None,
        marketplace: None,
        current_page: current,
        last_page: last,
        fetched_pages: 1,
        fetched_from_page: current,
        fetched_to_page: current,
        total_matches: 10,
        returned_items: ids.len(),
        is_end_of_paging: current >= last,
        items: ids
            .iter()
            .map(|id| {
                map_search_item(api_item(&id.to_string(), None, None)).expect("valid ad")
            })
            .collect(),
    }
}

fn api_item(id: &str, ad_id: Option<u64>, timestamp: Option<i64>) -> ApiItem {
    ApiItem {
        id: id.to_string(),
        ad_id,
        heading: "Skjermkort".to_string(),
        location: Some("Oslo".to_string()),
        canonical_url: format!("https://www.finn.no/recommerce/forsale/item/{id}"),
        trade_type: Some("Til salgs".to_string()),
        price: Some(ApiPrice {
            amount: 1500,
            currency_code: "NOK".to_string(),
            price_unit: "kr".to_string(),
        }),
        timestamp,
        flags: vec![],
        labels: vec![],
        image: None,
        image_urls: vec![],
        brand: None,
        coordinates: None,
        extras: vec![],
    }
}

#[test]
fn normalizing_twice_changes_nothing() {
    for text in [
        " Elektronikk   og hvitevarer>Data ",
        "Bærbar PC",
        "Sport & Friluftsliv",
        "Café-møbler (brukt)",
        "ÆØÅ æøå",
        "   ",
    ] {
        let once = normalize_category(text);
        assert_eq!(normalize_category(&once), once);
    }
}

#[test]
fn normalizing_keeps_unicode_letters_and_drops_symbols() {
    assert_eq!(normalize_category("Café"), "café");
    assert_eq!(normalize_category("10€ & mer"), "10 og mer");
    assert_eq!(normalize_category("Ærlig Øl Ås"), "aerlig ol as");
}

#[test]
fn plain_id_and_ad_address_give_the_same_id() {
    let id = "451260160";
    let by_id = extract_item_id(id);
    let by_url = extract_item_id(&format!("https://www.finn.no/recommerce/forsale/item/{id}"));
    let by_other_url = extract_item_id(&format!("finn.no/item/{id}?ref=share"));
    assert_eq!(by_id.as_deref(), Some(id));
    assert_eq!(by_url, by_id);
    assert_eq!(by_other_url, by_id);
    assert_eq!(extract_item_id(" 42 ").as_deref(), Some("42"));
    assert_eq!(extract_item_id("https://www.finn.no/item/"), None);
    assert_eq!(extract_item_id("abc"), None);
}

#[test]
fn item_address_is_built_from_an_id_and_kept_when_given() {
    let base = normalize_base_url("https://www.finn.no//");
    assert_eq!(base, "https://www.finn.no");
    assert_eq!(
        resolve_item_url(&base, " 451260160 ").unwrap(),
        "https://www.finn.no/recommerce/forsale/item/451260160"
    );
    assert_eq!(
        resolve_item_url(&base, " https://example.org/item/7 ").unwrap(),
        "https://example.org/item/7"
    );
}

#[test]
fn item_identifier_errors() {
    match resolve_item_url("https://www.finn.no", "not an ad") {
        Err(FinnError::InvalidItemIdentifier(s)) => assert_eq!(s, "not an ad"),
        other => panic!("unexpected {other:?}"),
    }
    match resolve_item_url("https://www.finn.no", "   ") {
        Err(FinnError::InvalidItemIdentifier(s)) => assert_eq!(s, "   "),
        other => panic!("unexpected {other:?}"),
    }
}

#[test]
fn blank_query_is_refused() {
    assert!(matches!(check_query(&SearchParams::new("   ")), Err(FinnError::EmptyQuery)));
    assert!(check_query(&SearchParams::new("rtx 4080")).is_ok());
    assert_eq!(first_page(&SearchParams::new("x")), 1);
    assert_eq!(first_page(&SearchParams::new("x").with_page(0)), 1);
    assert_eq!(first_page(&SearchParams::new("x").with_page(7)), 7);
}

#[test]
fn category_plans() {
    assert!(matches!(plan_category(None), CategoryPlan::NoCategory));
    assert!(matches!(plan_category(Some("  ")), CategoryPlan::NoCategory));
    match plan_category(Some(" 2.93.3215.8368 ")) {
        CategoryPlan::Direct(c) => {
            assert_eq!(c.query_param, "product_category");
            assert_eq!(c.value, "2.93.3215.8368");
        }
        _ => panic!("expected a category id"),
    }
    match plan_category(Some(" Data ")) {
        CategoryPlan::Lookup(t) => assert_eq!(t, "Data"),
        _ => panic!("expected a lookup"),
    }
}

#[test]
fn pages_walked_stay_within_the_limits() {
    let first = page(2, 9, &[1]);
    let mut walk = PageWalk::new(&first, Some(3));
    assert_eq!(walk.next_page(), Some(3));
    assert_eq!(walk.next_page(), Some(4));
    assert_eq!(walk.next_page(), None);
    assert_eq!(walk.next_page(), None);

    let first = page(2, 3, &[1]);
    let mut walk = PageWalk::new(&first, None);
    assert_eq!(walk.next_page(), Some(3));
    assert_eq!(walk.next_page(), None);

    let first = page(1, 5, &[1]);
    let mut walk = PageWalk::new(&first, Some(0));
    assert_eq!(walk.next_page(), None);
}

#[test]
fn combined_pages_report_their_range() {
    let mut combined = page(1, 2, &[11, 12]);
    let mut walk = PageWalk::new(&combined, None);
    while let Some(next) = walk.next_page() {
        add_page(&mut combined, page(next, 2, &[13]));
    }
    walk.finish(&mut combined);
    let ids: Vec<u64> = combined.items.iter().map(|item| item.id).collect();
    assert_eq!(ids, vec![11, 12, 13]);
    assert_eq!(combined.returned_items, 3);
    assert_eq!(combined.fetched_pages, 2);
    assert_eq!(combined.fetched_from_page, 1);
    assert_eq!(combined.fetched_to_page, 2);
    assert!(combined.is_end_of_paging);
}

#[test]
fn search_items_take_their_id_and_publication_time() {
    let item = map_search_item(api_item("455566626", None, Some(1773577066000))).unwrap();
    assert_eq!(item.id, 455566626);
    assert_eq!(item.published_at.as_deref(), Some("2026-03-15T12:17:46+00:00"));
    assert_eq!(item.price.as_ref().map(|p| p.amount), Some(1500));

    let item = map_search_item(api_item("not-a-number", Some(77), None)).unwrap();
    assert_eq!(item.id, 77);
    assert_eq!(item.published_at, None);
}

#[test]
fn search_item_without_a_numeric_id_is_refused() {
    match map_search_item(api_item("abc", None, None)) {
        Err(FinnError::InvalidAdId(s)) => assert_eq!(s, "abc"),
        other => panic!("unexpected {other:?}"),
    }
}

#[test]
fn search_item_extras_keep_the_last_non_blank() {
    let mut api = api_item("1", None, None);
    api.extras = vec![
        ApiExtra { id: "brand".to_string(), values: vec!["Asus".to_string()] },
        ApiExtra { id: " ".to_string(), values: vec!["x".to_string()] },
        ApiExtra { id: "color".to_string(), values: vec![] },
        ApiExtra { id: "brand".to_string(), values: vec!["MSI".to_string()] },
        ApiExtra { id: "age".to_string(), values: vec!["2".to_string()] },
    ];
    let item = map_search_item(api).unwrap();
    assert_eq!(
        item.extras,
        vec![
            ("age".to_string(), vec!["2".to_string()]),
            ("brand".to_string(), vec!["MSI".to_string()]),
        ]
    );
}

#[test]
fn hydration_data_is_found_and_decoded() {
    let html = r#"<script>window.__staticRouterHydrationData = JSON.parse("{\"a\":1}");</script>"#;
    assert_eq!(extract_hydration_json(html).unwrap(), r#"{"a":1}"#);
    assert!(matches!(
        extract_hydration_json("<html></html>"),
        Err(FinnError::MissingHydrationData)
    ));
    let broken = r#"window.__staticRouterHydrationData=JSON.parse("\q");"#;
    assert!(matches!(extract_hydration_json(broken), Err(FinnError::Json(_))));
}

#[test]
fn numbers_are_grouped_by_thousands() {
    assert_eq!(format_number(0), "0");
    assert_eq!(format_number(999), "999");
    assert_eq!(format_number(13500), "13 500");
    assert_eq!(format_number(1234567), "1 234 567");
    assert_eq!(format_number(u64::MAX), "18 446 744 073 709 551 615");
    assert_eq!(format_number(1234567).replace(' ', ""), "1234567");
    let price = Price { amount: 12000, currency_code: "NOK".to_string(), unit: "kr".to_string() };
    assert_eq!(format_price(&price), "12 000 kr");
}

#[test]
fn key_value_parameters() {
    assert_eq!(
        parse_key_value(" location = 0.20061 ").unwrap(),
        ("location".to_string(), "0.20061".to_string())
    );
    assert_eq!(
        parse_key_value("a=b=c").unwrap(),
        ("a".to_string(), "b=c".to_string())
    );
    assert_eq!(parse_key_value("nothing").unwrap_err(), "expected key=value");
    assert_eq!(parse_key_value(" =x").unwrap_err(), "expected non-empty key=value");
}

#[test]
fn picker_answers() {
    assert!(matches!(pick_step("", false, 3), PickStep::Choose(0)));
    assert!(matches!(pick_step(" 2 ", true, 3), PickStep::Choose(1)));
    assert!(matches!(pick_step("9", true, 3), PickStep::Invalid(9)));
    assert!(matches!(pick_step("0", true, 3), PickStep::Invalid(0)));
    match pick_step(" laptop ", true, 3) {
        PickStep::NewFilter(f) => assert_eq!(f, "laptop"),
        _ => panic!("expected a new filter"),
    }
    match pick_step("", true, 3) {
        PickStep::NewFilter(f) => assert_eq!(f, ""),
        _ => panic!("expected a new filter"),
    }
}

#[test]
fn normal_form_has_single_spaces_and_no_symbols() {
    for text in ["  A&B -- (C)/D  ", "Æble:Øl;Ål", "x\t\ty", "ÉTÉ 2024"] {
        let n = normalize_category(text);
        assert_eq!(n.trim(), n);
        assert!(!n.contains("  "));
        assert!(!n.chars().any(|c| c.is_ascii_uppercase()));
        assert!(!n.chars().any(|c| "&>/-_,.:;()ÆæØøÅå".contains(c)));
        assert!(!n.chars().any(|c| c.is_whitespace() && c != ' '));
    }
    assert_eq!(normalize_category("  A&B -- (C)/D  "), "a og b c d");
}

#[test]
fn query_starts_with_text_page_and_category_and_sends_flags_only_when_set() {
    let category = CategoryEntry {
        label: "Data".to_string(),
        path: vec!["Data".to_string()],
        query_param: "sub_category".to_string(),
        value: "1.93.3215".to_string(),
    };
    let plain = SearchParams::new(" rtx ");
    let query = build_search_query(&plain, 0, Some(&category));
    assert_eq!(
        query,
        vec![
            ("q".to_string(), "rtx".to_string()),
            ("page".to_string(), "1".to_string()),
            ("sub_category".to_string(), "1.93.3215".to_string()),
        ]
    );
    let flagged = SearchParams::new("rtx")
        .with_shipping(true)
        .with_published_today(true)
        .with_sort(SearchSort::Newest);
    let query = build_search_query(&flagged, 3, None);
    assert_eq!(query[1], ("page".to_string(), "3".to_string()));
    assert!(query.contains(&("shipping_types".to_string(), "0".to_string())));
    assert!(query.contains(&("published".to_string(), "1".to_string())));
    assert!(query.contains(&("sort".to_string(), "PUBLISHED_DESC".to_string())));
    assert!(!query.contains(&("sort".to_string(), "PUBLISHED_ASC".to_string())));
}

#[test]
fn price_range_must_not_be_inverted() {
    assert!(finn_cli::check_price_range(Some(10), Some(20)).is_ok());
    assert!(finn_cli::check_price_range(Some(20), Some(20)).is_ok());
    assert!(finn_cli::check_price_range(Some(20), None).is_ok());
    assert!(finn_cli::check_price_range(None, None).is_ok());
    assert_eq!(
        finn_cli::check_price_range(Some(21), Some(20)).unwrap_err(),
        "--price-from cannot be greater than --price-to"
    );
}

#[test]
fn fetched_pages_line_only_when_several_pages() {
    let mut result = page(1, 3, &[5]);
    result.items[0].title = "Fetched pages: not a real line".to_string();
    result.marketplace = Some("Torget".to_string());
    let one = finn_cli::render_search_result(&result);
    assert!(!one.lines().any(|line| line.starts_with("Fetched pages:")));
    assert!(one.lines().any(|line| line == "1. Fetched pages: not a real line"));

    result.fetched_pages = 2;
    result.fetched_to_page = 2;
    let two = finn_cli::render_search_result(&result);
    assert_eq!(two.lines().nth(2), Some("Fetched pages: 1-2 (2 total)"));
}
