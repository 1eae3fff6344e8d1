//! The data the library works on: search parameters and their filters,
//! categories, search results and item details.
use vstd::prelude::*;

use crate::text::{clone_strings, join, join_strings, trim, trim_str, views};

verus! {

/// What a search asks FINN for.
#[derive(Debug, Clone, PartialEq, Eq)]
pub struct SearchParams {
    pub query: String,
    pub category: Option<String>,
    pub page: u32,
    pub sort: Option<SearchSort>,
    pub price_from: Option<u64>,
    pub price_to: Option<u64>,
    pub shipping: bool,
    pub locations: Vec<String>,
    pub for_rent: Option<ForRentFilter>,
    pub trade_type: Option<TradeTypeFilter>,
    pub dealer_segment: Option<DealerSegmentFilter>,
    pub conditions: Vec<ConditionFilter>,
    pub published_today: bool,
    pub raw_params: Vec<(String, String)>,
}

/// The characters of each key and value.
pub open spec fn pair_views(v: Seq<(String, String)>) -> Seq<(Seq<char>, Seq<char>)> {
    v.map_values(|p: (String, String)| (p.0@, p.1@))
}

impl SearchParams {
    /// Parameters for `query` (trimmed) on page 1 with no filters.
    pub fn new(query: &str) -> (r: Self)
        ensures
            r.query@ == trim(query@),
            r.category is None,
            r.page == 1,
            r.sort is None,
            r.price_from is None,
            r.price_to is None,
            !r.shipping,
            r.locations@.len() == 0,
            r.for_rent is None,
            r.trade_type is None,
            r.dealer_segment is None,
            r.conditions@.len() == 0,
            !r.published_today,
            r.raw_params@.len() == 0,
    {
        SearchParams {
            query: trim_str(query),
            category: None,
            page: 1,
            sort: None,
            price_from: None,
            price_to: None,
            shipping: false,
            locations: Vec::new(),
            for_rent: None,
            trade_type: None,
            dealer_segment: None,
            conditions: Vec::new(),
            published_today: false,
            raw_params: Vec::new(),
        }
    }

    /// Sets the category (trimmed); all else is kept.
    pub fn with_category(self, category: &str) -> (r: Self)
        ensures
            r == (SearchParams { category: r.category, ..self }),
            r.category matches Some(c) && c@ == trim(category@),
    {
        SearchParams { category: Some(trim_str(category)), ..self }
    }

    /// Sets the page, raising 0 to 1; all else is kept.
    pub fn with_page(self, page: u32) -> (r: Self)
        ensures
            r == (SearchParams { page: if page >= 1 { page } else { 1 }, ..self }),
    {
        let page = if page >= 1 {
            page
        } else {
            1
        };
        SearchParams { page, ..self }
    }

    /// Sets the sort order; all else is kept.
    pub fn with_sort(self, sort: SearchSort) -> (r: Self)
        ensures
            r == (SearchParams { sort: Some(sort), ..self }),
    {
        SearchParams { sort: Some(sort), ..self }
    }

    /// Sets the lowest price; all else is kept.
    pub fn with_price_from(self, price_from: u64) -> (r: Self)
        ensures
            r == (SearchParams { price_from: Some(price_from), ..self }),
    {
        SearchParams { price_from: Some(price_from), ..self }
    }

    /// Sets the highest price; all else is kept.
    pub fn with_price_to(self, price_to: u64) -> (r: Self)
        ensures
            r == (SearchParams { price_to: Some(price_to), ..self }),
    {
        SearchParams { price_to: Some(price_to), ..self }
    }

    /// Sets whether only shippable items are wanted; all else is kept.
    pub fn with_shipping(self, shipping: bool) -> (r: Self)
        ensures
            r == (SearchParams { shipping, ..self }),
    {
        SearchParams { shipping, ..self }
    }

    /// Appends a location (trimmed); all else is kept.
    pub fn with_location(self, location: &str) -> (r: Self)
        ensures
            r == (SearchParams { locations: r.locations, ..self }),
            views(r.locations@) == views(self.locations@).push(trim(location@)),
    {
        let mut s = self;
        let loc = trim_str(location);
        let ghost before = s.locations@;
        s.locations.push(loc);
        assert(views(s.locations@) == views(before).push(trim(location@)));
        s
    }

    /// Sets the for-rent filter; all else is kept.
    pub fn with_for_rent(self, for_rent: ForRentFilter) -> (r: Self)
        ensures
            r == (SearchParams { for_rent: Some(for_rent), ..self }),
    {
        SearchParams { for_rent: Some(for_rent), ..self }
    }

    /// Sets the trade-type filter; all else is kept.
    pub fn with_trade_type(self, trade_type: TradeTypeFilter) -> (r: Self)
        ensures
            r == (SearchParams { trade_type: Some(trade_type), ..self }),
    {
        SearchParams { trade_type: Some(trade_type), ..self }
    }

    /// Sets the dealer-segment filter; all else is kept.
    pub fn with_dealer_segment(self, dealer_segment: DealerSegmentFilter) -> (r: Self)
        ensures
            r == (SearchParams { dealer_segment: Some(dealer_segment), ..self }),
    {
        SearchParams { dealer_segment: Some(dealer_segment), ..self }
    }

    /// Appends a condition; all else is kept.
    pub fn with_condition(self, condition: ConditionFilter) -> (r: Self)
        ensures
            r == (SearchParams { conditions: r.conditions, ..self }),
            r.conditions@ == self.conditions@.push(condition),
    {
        let mut s = self;
        s.conditions.push(condition);
        s
    }

    /// Sets whether only ads published today are wanted; all else is kept.
    pub fn with_published_today(self, published_today: bool) -> (r: Self)
        ensures
            r == (SearchParams { published_today, ..self }),
    {
        SearchParams { published_today, ..self }
    }

    /// Appends a raw query parameter (key and value trimmed); all else is kept.
    pub fn with_raw_param(self, key: &str, value: &str) -> (r: Self)
        ensures
            r == (SearchParams { raw_params: r.raw_params, ..self }),
            pair_views(r.raw_params@) == pair_views(self.raw_params@).push(
                (trim(key@), trim(value@)),
            ),
    {
        let mut s = self;
        let k = trim_str(key);
        let v = trim_str(value);
        let ghost before = s.raw_params@;
        s.raw_params.push((k, v));
        assert(pair_views(s.raw_params@) == pair_views(before).push((trim(key@), trim(value@))));
        s
    }
}

/// Result order.
#[derive(Debug, Clone, Copy, PartialEq, Eq, Structural)]
pub enum SearchSort {
    Oldest,
    Relevance,
    Newest,
    Closest,
    PriceDesc,
    PriceAsc,
}

impl SearchSort {
    pub open spec fn api_value(self) -> Seq<char> {
        match self {
            SearchSort::Oldest => "PUBLISHED_ASC"@,
            SearchSort::Relevance => "RELEVANCE"@,
            SearchSort::Newest => "PUBLISHED_DESC"@,
            SearchSort::Closest => "CLOSEST"@,
            SearchSort::PriceDesc => "PRICE_DESC"@,
            SearchSort::PriceAsc => "PRICE_ASC"@,
        }
    }

    /// The value FINN's `sort` parameter takes for this order.
    pub fn as_api_value(self) -> (r: &'static str)
        ensures
            r@ == self.api_value(),
    {
        match self {
            SearchSort::Oldest => "PUBLISHED_ASC",
            SearchSort::Relevance => "RELEVANCE",
            SearchSort::Newest => "PUBLISHED_DESC",
            SearchSort::Closest => "CLOSEST",
            SearchSort::PriceDesc => "PRICE_DESC",
            SearchSort::PriceAsc => "PRICE_ASC",
        }
    }
}

/// Buying or renting.
#[derive(Debug, Clone, Copy, PartialEq, Eq, Structural)]
pub enum ForRentFilter {
    Buy,
    Rent,
}

impl ForRentFilter {
    pub open spec fn api_value(self) -> Seq<char> {
        match self {
            ForRentFilter::Buy => "0"@,
            ForRentFilter::Rent => "1"@,
        }
    }

    /// The value FINN's `for_rent` parameter takes for this filter.
    pub fn as_api_value(self) -> (r: &'static str)
        ensures
            r@ == self.api_value(),
    {
        match self {
            ForRentFilter::Buy => "0",
            ForRentFilter::Rent => "1",
        }
    }
}

/// Kind of ad.
#[derive(Debug, Clone, Copy, PartialEq, Eq, Structural)]
pub enum TradeTypeFilter {
    ForSale,
    GiveAway,
    Wanted,
}

impl TradeTypeFilter {
    pub open spec fn api_value(self) -> Seq<char> {
        match self {
            TradeTypeFilter::ForSale => "1"@,
            TradeTypeFilter::GiveAway => "2"@,
            TradeTypeFilter::Wanted => "3"@,
        }
    }

    /// The value FINN's `trade_type` parameter takes for this filter.
    pub fn as_api_value(self) -> (r: &'static str)
        ensures
            r@ == self.api_value(),
    {
        match self {
            TradeTypeFilter::ForSale => "1",
            TradeTypeFilter::GiveAway => "2",
            TradeTypeFilter::Wanted => "3",
        }
    }
}

/// Private sellers or dealers.
#[derive(Debug, Clone, Copy, PartialEq, Eq, Structural)]
pub enum DealerSegmentFilter {
    Private,
    Dealer,
}

impl DealerSegmentFilter {
    pub open spec fn api_value(self) -> Seq<char> {
        match self {
            DealerSegmentFilter::Private => "1"@,
            DealerSegmentFilter::Dealer => "3"@,
        }
    }

    /// The value FINN's `dealer_segment` parameter takes for this filter.
    pub fn as_api_value(self) -> (r: &'static str)
        ensures
            r@ == self.api_value(),
    {
        match self {
            DealerSegmentFilter::Private => "1",
            DealerSegmentFilter::Dealer => "3",
        }
    }
}

/// Condition of the item.
#[derive(Debug, Clone, Copy, PartialEq, Eq, Structural)]
pub enum ConditionFilter {
    New,
    LikeNew,
    GentlyUsed,
    WellUsed,
    NeedsRepair,
}

impl ConditionFilter {
    pub open spec fn api_value(self) -> Seq<char> {
        match self {
            ConditionFilter::New => "1"@,
            ConditionFilter::LikeNew => "2"@,
            ConditionFilter::GentlyUsed => "3"@,
            ConditionFilter::WellUsed => "4"@,
            ConditionFilter::NeedsRepair => "5"@,
        }
    }

    /// The value FINN's `condition` parameter takes for this filter.
    pub fn as_api_value(self) -> (r: &'static str)
        ensures
            r@ == self.api_value(),
    {
        match self {
            ConditionFilter::New => "1",
            ConditionFilter::LikeNew => "2",
            ConditionFilter::GentlyUsed => "3",
            ConditionFilter::WellUsed => "4",
            ConditionFilter::NeedsRepair => "5",
        }
    }
}

/// A category of the marketplace: its label, the labels from the top
/// category down to it, and the query parameter and value that select it.
#[derive(Debug, PartialEq, Eq)]
pub struct CategoryEntry {
    pub label: String,
    pub path: Vec<String>,
    pub query_param: String,
    pub value: String,
}

/// `" > "`, between the labels of a category path.
pub open spec fn path_sep() -> Seq<char> {
    seq![' ', '>', ' ']
}

/// The characters of a category's texts.
pub struct CategoryView {
    pub label: Seq<char>,
    pub path: Seq<Seq<char>>,
    pub query_param: Seq<char>,
    pub value: Seq<char>,
}

impl View for CategoryEntry {
    type V = CategoryView;

    open spec fn view(&self) -> CategoryView {
        CategoryView {
            label: self.label@,
            path: views(self.path@),
            query_param: self.query_param@,
            value: self.value@,
        }
    }
}

impl CategoryView {
    /// The labels of the path joined by `" > "`.
    pub open spec fn path_text(self) -> Seq<char> {
        join(self.path, path_sep())
    }
}

impl CategoryEntry {
    /// The path as text, e.g. `Elektronikk og hvitevarer > Data`.
    pub fn path_string(&self) -> (r: String)
        ensures
            r@ == self@.path_text(),
    {
        let sep = " > ";
        proof {
            reveal_strlit(" > ");
            assert(sep@ =~= path_sep());
        }
        join_strings(&self.path, sep)
    }
}

impl Clone for CategoryEntry {
    fn clone(&self) -> (r: Self)
        ensures
            r@ == self@,
    {
        let path = clone_strings(&self.path);
        CategoryEntry {
            label: self.label.clone(),
            path,
            query_param: self.query_param.clone(),
            value: self.value.clone(),
        }
    }
}

/// An asking price.
#[derive(Debug, Clone, PartialEq)]
pub struct Price {
    pub amount: u64,
    pub currency_code: String,
    pub unit: String,
}

/// A position, as the IEEE-754 bit patterns (`f64::to_bits`) of latitude
/// and longitude.
#[derive(Debug, Clone, Copy, PartialEq)]
pub struct Coordinates {
    pub lat_bits: u64,
    pub lon_bits: u64,
}

/// One ad in a search result.
#[derive(Debug, Clone, PartialEq)]
pub struct SearchItem {
    pub id: u64,
    pub title: String,
    pub location: Option<String>,
    pub price: Option<Price>,
    pub trade_type: Option<String>,
    pub url: String,
    pub primary_image_url: Option<String>,
    pub image_urls: Vec<String>,
    pub labels: Vec<String>,
    pub flags: Vec<String>,
    pub brand: Option<String>,
    pub coordinates: Option<Coordinates>,
    pub timestamp_ms: Option<i64>,
    pub published_at: Option<String>,
    /// Attribute values by attribute id, keys strictly increasing.
    pub extras: Vec<(String, Vec<String>)>,
}

/// One page, or several pages combined, of search results.
#[derive(Debug, Clone, PartialEq)]
pub struct SearchResult {
    pub query: String,
    pub category: Option<String>,
    pub title: Option<String>,
    pub marketplace: Option<String>,
    pub current_page: u32,
    pub last_page: u32,
    pub fetched_pages: u32,
    pub fetched_from_page: u32,
    pub fetched_to_page: u32,
    pub total_matches: u64,
    pub returned_items: usize,
    pub is_end_of_paging: bool,
    pub items: Vec<SearchItem>,
}

/// The details of one ad.
#[derive(Debug, Clone, PartialEq)]
pub struct ItemDetail {
    pub id: u64,
    pub title: String,
    pub url: String,
    pub price: Option<Price>,
    pub trade_type: Option<String>,
    pub description: Option<String>,
    pub location: Option<String>,
    pub postal_code: Option<String>,
    pub postal_name: Option<String>,
    pub country_code: Option<String>,
    pub country_name: Option<String>,
    pub coordinates: Option<Coordinates>,
    pub category_path: Vec<String>,
    pub image_urls: Vec<String>,
    /// Attribute values by attribute id, keys strictly increasing.
    pub extras: Vec<(String, String)>,
    pub edited_at: Option<String>,
    pub is_transactable: bool,
    pub buy_now: bool,
    pub eligible_for_shipping: bool,
    pub seller_pays_shipping: bool,
    pub is_webstore: bool,
    pub anonymous_seller: bool,
    pub is_inactive: bool,
    pub is_disposed: bool,
}

} // verus!
