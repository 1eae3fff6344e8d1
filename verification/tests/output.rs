use finn_cli::{
    render_categories, render_item_detail, render_search_result, CategoryEntry, ItemDetail, Price,
    SearchItem, SearchResult,
};

#[test]
fn renders_human_readable_search_output() {
    let result = SearchResult {
        query: "rtx 4080".to_string(),
        category: Some("0.93".to_string()),
        title: Some("rtx 4080, Elektronikk og hvitevarer".to_string()),
        marketplace: Some("Torget".to_string()),
        current_page: 1,
        last_page: 2,
        fetched_pages: 2,
        fetched_from_page: 1,
        fetched_to_page: 2,
        total_matches: 78,
        returned_items: 1,
        is_end_of_paging: true,
        items: vec![SearchItem {
            id: 455566626,
            title: "VANQUISHER iZ329X Gaming PC - RTX 4080 SUPER 16gb".to_string(),
            location: Some("Oslo".to_string()),
            price: Some(Price {
                amount: 13500,
                currency_code: "NOK".to_string(),
                unit: "kr".to_string(),
            }),
            trade_type: Some("Til salgs".to_string()),
            url: "https://www.finn.no/recommerce/forsale/item/455566626".to_string(),
            primary_image_url: None,
            image_urls: vec![],
            labels: vec!["Fiks ferdig".to_string(), "Privat".to_string()],
            flags: vec!["private".to_string(), "shipping_exists".to_string()],
            brand: None,
            coordinates: None,
            timestamp_ms: Some(1773577066000),
            published_at: Some("2026-03-15T12:17:46+00:00".to_string()),
            extras: Vec::new(),
        }],
    };

    let rendered = render_search_result(&result);

    assert!(rendered.contains("Search: rtx 4080, Elektronikk og hvitevarer"));
    assert!(rendered.contains("Matches: 78 | Page 1/2 | Showing 1 items"));
    assert!(rendered.contains("Fetched pages: 1-2 (2 total)"));
    assert!(rendered.contains("13 500 kr | Oslo | Til salgs"));
    assert!(rendered.contains("labels: Fiks ferdig, Privat"));
}

#[test]
fn renders_item_detail_output() {
    let extras = vec![(
        "condition".to_string(),
        "Pent brukt - I god stand".to_string(),
    )];

    let item = ItemDetail {
        id: 451260160,
        title: "High end AMD Radeon RX 7900 XTX skjermkort 24 GB".to_string(),
        url: "https://www.finn.no/recommerce/forsale/item/451260160".to_string(),
        price: Some(Price {
            amount: 12000,
            currency_code: "NOK".to_string(),
            unit: "kr".to_string(),
        }),
        trade_type: Some("Til salgs".to_string()),
        description: Some("Kom med bud".to_string()),
        location: Some("4842 Arendal".to_string()),
        postal_code: Some("4842".to_string()),
        postal_name: Some("Arendal".to_string()),
        country_code: Some("NO".to_string()),
        country_name: Some("Norge".to_string()),
        coordinates: None,
        category_path: vec![
            "Elektronikk og hvitevarer".to_string(),
            "Data".to_string(),
            "Datakomponenter".to_string(),
        ],
        image_urls: vec![],
        extras,
        edited_at: Some("2026-03-10T12:16:05.387609+01:00".to_string()),
        is_transactable: true,
        buy_now: true,
        eligible_for_shipping: true,
        seller_pays_shipping: true,
        is_webstore: false,
        anonymous_seller: true,
        is_inactive: false,
        is_disposed: false,
    };

    let rendered = render_item_detail(&item);

    assert!(rendered.contains("Item: High end AMD Radeon RX 7900 XTX skjermkort 24 GB"));
    assert!(rendered.contains("12 000 kr | 4842 Arendal | Til salgs"));
    assert!(rendered.contains("Category: Elektronikk og hvitevarer > Data > Datakomponenter"));
    assert!(rendered.contains(
        "Commerce: transactable | buy now | shipping available | seller pays shipping"
    ));
    assert!(rendered.contains("- condition: Pent brukt - I god stand"));
}

#[test]
fn renders_categories_output() {
    let categories = vec![CategoryEntry {
        label: "Datakomponenter".to_string(),
        path: vec![
            "Elektronikk og hvitevarer".to_string(),
            "Data".to_string(),
            "Datakomponenter".to_string(),
        ],
        query_param: "product_category".to_string(),
        value: "2.93.3215.8368".to_string(),
    }];

    let rendered = render_categories(&categories);
    assert!(rendered.contains("Categories: 1"));
    assert!(rendered.contains(
        "Elektronikk og hvitevarer > Data > Datakomponenter (product_category=2.93.3215.8368)"
    ));
}
