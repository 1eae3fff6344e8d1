use finn_cli::item::{
    ApiCategory, ApiItemData, ApiItemExtra, ApiItemLocation, ApiItemMeta, ApiItemPageMeta,
    ApiItemRoute, ApiJsonLd, ApiJsonLdOffer, ApiTransactableData, ItemHydrationRoot,
    ItemLoaderData,
};
use finn_cli::search::{
    ApiExtra, ApiItem, ApiMetadata, ApiPaging, ApiResultSize, ApiSearchResponse,
};
use finn_cli::{extract_hydration_json, map_item_detail, map_search_response, FinnError, SearchParams};

fn search_ad(id: &str, brand: Option<&str>) -> ApiItem {
    ApiItem {
        id: id.to_string(),
        ad_id: None,
        heading: "RTX 4080".to_string(),
        location: Some("Oslo".to_string()),
        canonical_url: format!("https://www.finn.no/recommerce/forsale/item/{id}"),
        trade_type: Some("Til salgs".to_string()),
        price: None,
        timestamp: None,
        flags: vec![],
        labels: vec![],
        image: None,
        image_urls: vec![],
        brand: brand.map(str::to_string),
        coordinates: None,
        extras: match brand {
            Some(b) => vec![ApiExtra { id: "brand".to_string(), values: vec![b.to_string()] }],
            None => vec![],
        },
    }
}

fn search_response(docs: Vec<ApiItem>) -> ApiSearchResponse {
    ApiSearchResponse {
        docs,
        metadata: ApiMetadata {
            title: Some("rtx 4080, Elektronikk og hvitevarer".to_string()),
            search_key_description: Some("Torget".to_string()),
            paging: ApiPaging { current: 2, last: 2 },
            result_size: ApiResultSize { match_count: 78 },
            is_end_of_paging: true,
        },
    }
}

#[test]
fn parses_fixture_and_maps_search_items() {
    let api = search_response(vec![search_ad("436749637", None), search_ad("455566626", Some("Asus"))]);
    let params = SearchParams::new("rtx 4080").with_category("0.93").with_page(2);

    let result = map_search_response(&params, api).expect("response to map");

    assert_eq!(result.current_page, 2);
    assert_eq!(result.last_page, 2);
    assert_eq!(result.fetched_pages, 1);
    assert_eq!(result.total_matches, 78);
    assert_eq!(result.returned_items, 2);
    assert_eq!(result.items[0].id, 436749637);
    assert_eq!(result.items[1].brand.as_deref(), Some("Asus"));
    assert_eq!(
        result.items[1]
            .extras
            .iter()
            .find(|(key, _)| key == "brand")
            .map(|(_, values)| values)
            .expect("brand extra"),
        &vec!["Asus".to_string()]
    );
    assert_eq!(result.query, "rtx 4080");
    assert_eq!(result.category.as_deref(), Some("0.93"));
}

#[test]
fn search_response_with_a_bad_ad_id_is_refused() {
    let api = search_response(vec![
        search_ad("1", None),
        search_ad("x1", None),
        search_ad("x2", None),
    ]);
    match map_search_response(&SearchParams::new("rtx"), api) {
        Err(FinnError::InvalidAdId(id)) => assert_eq!(id, "x1"),
        other => panic!("unexpected {other:?}"),
    }
}

fn category(path: &[&str]) -> Option<ApiCategory> {
    let mut node: Option<ApiCategory> = None;
    for value in path {
        node = Some(ApiCategory { value: value.to_string(), parent: node.map(Box::new) });
    }
    node
}

fn ad_page(ad_id: &str, canonical: Option<&str>) -> ItemHydrationRoot {
    ItemHydrationRoot {
        loader_data: ItemLoaderData {
            item_recommerce: ApiItemRoute {
                item_data: ApiItemData {
                    title: "High end AMD Radeon RX 7900 XTX skjermkort 24 GB".to_string(),
                    location: Some(ApiItemLocation {
                        position: None,
                        postal_code: Some("4842".to_string()),
                        postal_name: Some("Arendal".to_string()),
                        country_code: Some("NO".to_string()),
                        country_name: Some("Norge".to_string()),
                    }),
                    extras: vec![
                        ApiItemExtra {
                            id: "condition".to_string(),
                            value: Some("Pent brukt - I god stand".to_string()),
                        },
                        ApiItemExtra { id: "color".to_string(), value: Some("  ".to_string()) },
                    ],
                    anonymous: true,
                    meta: ApiItemMeta {
                        ad_id: ad_id.to_string(),
                        edited: Some("2026-03-10T12:16:05.387609+01:00".to_string()),
                        is_inactive: false,
                    },
                    price: Some(12_000),
                    category: category(&["Elektronikk og hvitevarer", "Data", "Datakomponenter"]),
                    images: vec![],
                    disposed: false,
                    ad_view_type_label: Some("Til salgs".to_string()),
                    description: Some("Kom med bud".to_string()),
                    is_webstore: false,
                },
                meta: ApiItemPageMeta { canonical: canonical.map(str::to_string) },
                json_ld: Some(ApiJsonLd {
                    url: None,
                    offers: Some(ApiJsonLdOffer { price_currency: "NOK".to_string() }),
                }),
                transactable_data: Some(ApiTransactableData {
                    transactable: true,
                    seller_pays_shipping: true,
                    buy_now: true,
                    eligible_for_shipping: true,
                }),
            },
        },
    }
}

#[test]
fn extracts_item_detail_from_fixture_html() {
    let html = r#"<html><script>window.__staticRouterHydrationData = JSON.parse("{\"loaderData\":{\"item-recommerce\":{\"itemData\":{\"meta\":{\"adId\":\"451260160\"}}}}}");</script></html>"#;
    let json = extract_hydration_json(html).expect("hydration data to parse");
    assert!(json.contains(r#""adId":"451260160""#));

    let item = map_item_detail(
        ad_page("451260160", None),
        "https://www.finn.no/recommerce/forsale/item/451260160",
    )
    .expect("item detail to map");

    assert_eq!(item.id, 451260160);
    assert_eq!(item.price.as_ref().map(|price| price.amount), Some(12_000));
    assert_eq!(item.location.as_deref(), Some("4842 Arendal"));
    assert_eq!(
        item.category_path.join(" > "),
        "Elektronikk og hvitevarer > Data > Datakomponenter"
    );
    assert!(item.buy_now);
    assert!(item.eligible_for_shipping);
    assert_eq!(
        item.extras
            .iter()
            .find(|(key, _)| key == "condition")
            .map(|(_, value)| value.as_str()),
        Some("Pent brukt - I god stand")
    );
    assert_eq!(item.extras.len(), 1);
    assert_eq!(item.url, "https://www.finn.no/recommerce/forsale/item/451260160");
}

#[test]
fn item_detail_prefers_the_canonical_address_and_refuses_bad_ids() {
    let item = map_item_detail(ad_page("7", Some("https://www.finn.no/item/7")), "fallback").unwrap();
    assert_eq!(item.url, "https://www.finn.no/item/7");
    assert_eq!(item.price.map(|p| (p.currency_code, p.unit)), Some(("NOK".to_string(), "kr".to_string())));

    match map_item_detail(ad_page("seven", None), "fallback") {
        Err(FinnError::InvalidAdId(id)) => assert_eq!(id, "seven"),
        other => panic!("unexpected {other:?}"),
    }
}
