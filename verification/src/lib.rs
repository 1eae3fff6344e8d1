//! A client library for FINN.no Torget: search parameters and the query
//! they make, categories and how typed text resolves to one, the mapping of
//! FINN's search and item data, and the text shown to users.

pub mod catalog;
pub mod category;
pub mod cli;
pub mod error;
mod ext;
pub mod ident;
pub mod item;
pub mod keyed;
pub mod model;
pub mod order;
pub mod output;
pub mod paging;
pub mod plan;
pub mod query;
pub mod search;
pub mod text;

pub use catalog::{categories_from_filters, flatten_category_entries, ApiFilter, ApiFilterItem};
pub use category::{
    category_aliases, category_search_strings, normalize_category, normalized_search_strings,
    resolve_category_exact, resolve_category_name, resolve_from_ranking, resolve_single_match,
    suggest_categories, take_categories,
};
pub use cli::{check_price_range, parse_key_value, pick_step, PickStep};
pub use error::FinnError;
pub use ident::{extract_item_id, normalize_base_url, parse_category_id, resolve_item_url};
pub use item::{extract_hydration_json, map_item_detail};
pub use model::{
    CategoryEntry, ConditionFilter, Coordinates, DealerSegmentFilter, ForRentFilter, ItemDetail,
    Price, SearchItem, SearchParams, SearchResult, SearchSort, TradeTypeFilter,
};
pub use output::{
    format_number, format_price, render_categories, render_item_detail, render_picker,
    render_search_result,
};
pub use paging::{add_page, PageWalk};
pub use plan::{check_query, first_page, plan_category, CategoryPlan};
pub use query::build_search_query;
pub use search::{extras_to_map, map_search_item, map_search_response};
