use finn_cli::category::{resolve_category_exact, suggest_categories};
use finn_cli::{
    categories_from_filters, normalize_category, resolve_category_name, ApiFilter, ApiFilterItem,
    CategoryEntry, FinnError,
};

fn node(display_name: &str, name: &str, value: &str, children: Vec<ApiFilterItem>) -> ApiFilterItem {
    ApiFilterItem {
        display_name: display_name.to_string(),
        name: name.to_string(),
        value: value.to_string(),
        filter_items: children,
    }
}

fn sample_categories() -> Vec<CategoryEntry> {
    let tree = vec![
        node(
            "Elektronikk og hvitevarer",
            "category",
            "0.93",
            vec![node(
                "Data",
                "sub_category",
                "1.93.3215",
                vec![
                    node("Datakomponenter", "product_category", "2.93.3215.8368", vec![]),
                    node("Bærbar PC", "product_category", "2.93.3215.39", vec![]),
                ],
            )],
        ),
        node(
            "Sport og friluftsliv",
            "category",
            "0.69",
            vec![node("Sykler", "sub_category", "1.69.2913", vec![])],
        ),
    ];
    let filters = vec![
        ApiFilter { name: "price".to_string(), filter_items: vec![] },
        ApiFilter { name: "category".to_string(), filter_items: tree },
    ];
    categories_from_filters(&filters)
}

#[test]
fn flattens_and_resolves_categories_by_name_and_path() {
    let categories = sample_categories();

    let top = resolve_category_name("Elektronikk og hvitevarer", &categories, &[], false, false)
        .expect("top-level category to resolve");
    assert_eq!(top.query_param, "category");
    assert_eq!(top.value, "0.93");

    let nested = resolve_category_name(
        "Elektronikk og hvitevarer > Data > Datakomponenter",
        &categories,
        &[],
        false,
        false,
    )
    .expect("nested category to resolve");
    assert_eq!(nested.query_param, "product_category");
    assert_eq!(nested.value, "2.93.3215.8368");
}

#[test]
fn resolves_categories_by_alias() {
    let categories = sample_categories();

    let alias = resolve_category_name("electronics", &categories, &[], false, false)
        .expect("alias to resolve");
    assert_eq!(alias.value, "0.93");
}

#[test]
fn suggestions_follow_the_given_ranking() {
    let categories = sample_categories();
    let ranked: Vec<CategoryEntry> = vec![categories[3].clone(), categories[2].clone()];
    let suggested = suggest_categories(&categories, "komponent", 1, &ranked);
    assert_eq!(suggested.len(), 1);
    assert_eq!(suggested[0].value, "2.93.3215.8368");
    let all = suggest_categories(&categories, "komponent", 10, &ranked);
    assert_eq!(all.len(), 2);
    assert_eq!(all[1].value, "2.93.3215.39");
}

#[test]
fn empty_category_list_has_no_close_matches() {
    match resolve_category_name("data", &[], &[], true, true) {
        Err(FinnError::UnknownCategory { input, suggestions }) => {
            assert_eq!(input, "data");
            assert_eq!(suggestions, "No close matches were found.");
        }
        other => panic!("unexpected {other:?}"),
    }
}

#[test]
fn flattened_categories_are_ordered_by_path_and_end_with_their_label() {
    let categories = sample_categories();
    let paths: Vec<String> = categories.iter().map(|c| c.path_string()).collect();
    assert_eq!(
        paths,
        vec![
            "Elektronikk og hvitevarer",
            "Elektronikk og hvitevarer > Data",
            "Elektronikk og hvitevarer > Data > Bærbar PC",
            "Elektronikk og hvitevarer > Data > Datakomponenter",
            "Sport og friluftsliv",
            "Sport og friluftsliv > Sykler",
        ]
    );
    for c in &categories {
        assert_eq!(c.path.last(), Some(&c.label));
    }
}

#[test]
fn categories_without_a_category_filter_are_empty() {
    let filters = vec![ApiFilter { name: "price".to_string(), filter_items: vec![] }];
    assert!(categories_from_filters(&filters).is_empty());
}

#[test]
fn lookup_ignores_case_spacing_and_separators() {
    let categories = sample_categories();
    let plain = resolve_category_exact("elektronikk og hvitevarer/data", &categories).unwrap();
    let messy = resolve_category_exact("  ELEKTRONIKK   og hvitevarer > Data ", &categories).unwrap();
    let normal =
        resolve_category_exact(&normalize_category("ELEKTRONIKK og hvitevarer > Data"), &categories)
            .unwrap();
    assert_eq!(plain.as_ref().map(|c| c.value.as_str()), Some("1.93.3215"));
    assert_eq!(messy, plain);
    assert_eq!(normal, plain);
}

#[test]
fn lookup_by_unique_label_and_alias() {
    let categories = sample_categories();
    let data = resolve_category_exact("data", &categories).unwrap();
    assert_eq!(data.map(|c| c.value), Some("1.93.3215".to_string()));
    let laptop = resolve_category_exact("Laptop", &categories).unwrap();
    assert_eq!(laptop.map(|c| c.value), Some("2.93.3215.39".to_string()));
    let sports = resolve_category_exact("outdoors", &categories).unwrap();
    assert_eq!(sports.map(|c| c.value), Some("0.69".to_string()));
}

#[test]
fn lookup_by_substring_and_nothing() {
    let categories = sample_categories();
    let bikes = resolve_category_exact("sykl", &categories).unwrap();
    assert_eq!(bikes.map(|c| c.value), Some("1.69.2913".to_string()));
    let none = resolve_category_exact("zzzz", &categories).unwrap();
    assert!(none.is_none());
}

#[test]
fn blank_category_text_is_unknown() {
    let categories = sample_categories();
    match resolve_category_name(" > ", &categories, &[], true, true) {
        Err(FinnError::UnknownCategory { input, suggestions }) => {
            assert_eq!(input, " > ");
            assert_eq!(suggestions, "No category text was provided.");
        }
        other => panic!("unexpected {other:?}"),
    }
}

#[test]
fn several_matches_are_ambiguous() {
    let categories = sample_categories();
    match resolve_category_exact("og", &categories) {
        Err(FinnError::AmbiguousCategory { input, matches }) => {
            assert_eq!(input, "og");
            assert_eq!(
                matches,
                "Elektronikk og hvitevarer, Elektronikk og hvitevarer > Data, \
                 Elektronikk og hvitevarer > Data > Bærbar PC, \
                 Elektronikk og hvitevarer > Data > Datakomponenter, Sport og friluftsliv, \
                 Sport og friluftsliv > Sykler"
            );
        }
        other => panic!("unexpected {other:?}"),
    }
}

#[test]
fn ranking_decides_when_nothing_matches_exactly() {
    let categories = sample_categories();
    let ranked: Vec<CategoryEntry> = categories[2..4].to_vec();

    match resolve_category_name("zzzz", &categories, &ranked, false, true) {
        Err(FinnError::AmbiguousCategory { matches, .. }) => assert_eq!(
            matches,
            "Elektronikk og hvitevarer > Data > Bærbar PC, \
             Elektronikk og hvitevarer > Data > Datakomponenter"
        ),
        other => panic!("unexpected {other:?}"),
    }
    match resolve_category_name("zzzz", &categories, &ranked, false, false) {
        Err(FinnError::UnknownCategory { suggestions, .. }) => assert_eq!(
            suggestions,
            "Did you mean: Elektronikk og hvitevarer > Data > Bærbar PC, \
             Elektronikk og hvitevarer > Data > Datakomponenter?"
        ),
        other => panic!("unexpected {other:?}"),
    }
    match resolve_category_name("zzzz", &categories, &[], false, false) {
        Err(FinnError::UnknownCategory { suggestions, .. }) => {
            assert_eq!(suggestions, "No close matches were found.")
        }
        other => panic!("unexpected {other:?}"),
    }
    let picked = resolve_category_name("zzzz", &categories, &ranked, true, false).unwrap();
    assert_eq!(picked.value, "2.93.3215.39");
}

#[test]
fn suggestions_for_blank_text_are_the_first_categories() {
    let categories = sample_categories();
    let first = suggest_categories(&categories, "  ", 0, &[]);
    assert_eq!(first.len(), 1);
    assert_eq!(first[0].value, "0.93");
    let some = suggest_categories(&categories, "", 4, &[]);
    assert_eq!(some.len(), 4);
}

#[test]
fn aliases_follow_the_label() {
    let categories = sample_categories();
    let data = categories.iter().find(|c| c.label == "Data").unwrap();
    assert_eq!(
        finn_cli::category_aliases(data),
        vec!["computer", "computers", "pc", "it"]
    );
    assert_eq!(
        finn_cli::normalized_search_strings(data),
        vec!["computer", "computers", "data", "elektronikk og hvitevarer data", "it", "pc"]
    );
}

#[test]
fn picker_lists_numbered_suggestions() {
    let categories = sample_categories();
    let shown = finn_cli::render_picker(&categories[2..4], false);
    assert_eq!(
        shown,
        "Select a category:\n\
         \x20 1. Elektronikk og hvitevarer > Data > Bærbar PC (product_category=2.93.3215.39)\n\
         \x20 2. Elektronikk og hvitevarer > Data > Datakomponenter (product_category=2.93.3215.8368)\n\
         Type a number, press Enter for #1, or enter new filter text.\n"
    );
    let unfiltered = finn_cli::render_picker(&categories[..1], true);
    assert_eq!(
        unfiltered,
        "Select a category:\n\
         \x20 1. Elektronikk og hvitevarer (category=0.93)\n\
         Type a number, or enter filter text to narrow the list.\n"
    );
}
