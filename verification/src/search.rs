//! FINN's search response and the search result made from it.
use vstd::prelude::*;

use crate::error::FinnError;
use crate::ext::{millis_to_rfc3339, rfc3339_from_millis};
use crate::keyed::{insert_keyed, keyed, represents};
use crate::model::{Coordinates, Price, SearchItem, SearchParams, SearchResult};
use crate::text::{blank, is_blank, parse_u64, parse_u64_spec, views};

verus! {

/// A search response: the ads of one page and what is known of the search.
pub struct ApiSearchResponse {
    pub docs: Vec<ApiItem>,
    pub metadata: ApiMetadata,
}

pub struct ApiMetadata {
    pub title: Option<String>,
    pub search_key_description: Option<String>,
    pub paging: ApiPaging,
    pub result_size: ApiResultSize,
    pub is_end_of_paging: bool,
}

pub struct ApiPaging {
    pub current: u32,
    pub last: u32,
}

pub struct ApiResultSize {
    pub match_count: u64,
}

/// One ad of a search response.
pub struct ApiItem {
    pub id: String,
    pub ad_id: Option<u64>,
    pub heading: String,
    pub location: Option<String>,
    pub canonical_url: String,
    pub trade_type: Option<String>,
    pub price: Option<ApiPrice>,
    pub timestamp: Option<i64>,
    pub flags: Vec<String>,
    pub labels: Vec<ApiLabel>,
    pub image: Option<ApiImage>,
    pub image_urls: Vec<String>,
    pub brand: Option<String>,
    pub coordinates: Option<ApiCoordinates>,
    pub extras: Vec<ApiExtra>,
}

pub struct ApiPrice {
    pub amount: u64,
    pub currency_code: String,
    pub price_unit: String,
}

pub struct ApiLabel {
    pub text: String,
}

pub struct ApiImage {
    pub url: String,
}

/// A position, as the bit patterns of latitude and longitude.
pub struct ApiCoordinates {
    pub lat_bits: u64,
    pub lon_bits: u64,
}

/// An attribute of an ad with its values.
pub struct ApiExtra {
    pub id: String,
    pub values: Vec<String>,
}

/// The attributes of an ad with a non-blank id and at least one value,
/// a later one replacing an earlier one with the same id.
pub open spec fn extras_map(extras: Seq<ApiExtra>) -> Map<Seq<char>, Seq<Seq<char>>>
    decreases extras.len(),
{
    if extras.len() == 0 {
        Map::empty()
    } else {
        let m = extras_map(extras.drop_last());
        let e = extras.last();
        if blank(e.id@) || e.values@.len() == 0 {
            m
        } else {
            m.insert(e.id@, views(e.values@))
        }
    }
}

/// The attributes as entries ordered by id.
pub fn extras_to_map(extras: Vec<ApiExtra>) -> (r: Vec<(String, Vec<String>)>)
    ensures
        represents(keyed(r@), extras_map(extras@)),
{
    let ghost all = extras@;
    let n = extras.len();
    let mut r: Vec<(String, Vec<String>)> = Vec::new();
    let mut rest = extras;
    assert(keyed(r@) =~= Seq::<(Seq<char>, Seq<Seq<char>>)>::empty());
    assert(all.skip(0) == all);
    let mut i: usize = 0;
    while rest.len() > 0
        invariant
            i + rest@.len() == all.len(),
            all.len() == n,
            rest@ == all.skip(i as int),
            represents(keyed(r@), extras_map(all.take(i as int))),
        decreases rest@.len(),
    {
        let e = rest.remove(0);
        proof {
            assert(e == all[i as int]);
            assert(rest@ == all.skip(i + 1));
            assert(all.take(i + 1).drop_last() == all.take(i as int));
            assert(all.take(i + 1).last() == e);
        }
        if !is_blank(e.id.as_str()) && e.values.len() != 0 {
            let ghost m = extras_map(all.take(i as int));
            proof {
                assert(e.values.deep_view() == views(e.values@));
            }
            insert_keyed(&mut r, e.id, e.values, Ghost(m));
        }
        i = i + 1;
    }
    assert(all.take(all.len() as int) == all);
    r
}

/// The price of a search ad.
pub open spec fn search_price(p: Option<ApiPrice>) -> Option<Price> {
    match p {
        Some(p) => Some(Price { amount: p.amount, currency_code: p.currency_code, unit: p.price_unit }),
        None => None,
    }
}

/// The ad id: `ad_id` when present, else `id` read as a number.
pub open spec fn ad_id_of(api: ApiItem) -> Option<u64> {
    match api.ad_id {
        Some(id) => Some(id),
        None => parse_u64_spec(api.id@),
    }
}

/// `item` is what the search ad `api` becomes.
pub open spec fn item_from(api: ApiItem, item: SearchItem) -> bool {
    &&& ad_id_of(api) == Some(item.id)
    &&& item.title == api.heading
    &&& item.location == api.location
    &&& item.price == search_price(api.price)
    &&& item.trade_type == api.trade_type
    &&& item.url == api.canonical_url
    &&& item.primary_image_url == (match api.image {
        Some(i) => Some(i.url),
        None => None,
    })
    &&& item.image_urls == api.image_urls
    &&& views(item.labels@) == api.labels@.map_values(|l: ApiLabel| l.text@)
    &&& item.flags == api.flags
    &&& item.brand == api.brand
    &&& item.coordinates == (match api.coordinates {
        Some(c) => Some(Coordinates { lat_bits: c.lat_bits, lon_bits: c.lon_bits }),
        None => None,
    })
    &&& item.timestamp_ms == api.timestamp
    &&& (match api.timestamp {
        Some(t) => match item.published_at {
            Some(s) => rfc3339_from_millis(t) == Some(s@),
            None => rfc3339_from_millis(t) is None,
        },
        None => item.published_at is None,
    })
    &&& represents(keyed(item.extras@), extras_map(api.extras@))
}

/// Each field of a search item comes from its own field of the ad: the id
/// from the ad id (or the ad's id text), the title from the heading, the
/// address from the canonical address, the price amount, currency and unit
/// from the ad's price, and the latitude and longitude from the ad's
/// latitude and longitude.
pub proof fn law_search_item_fields(api: ApiItem, item: SearchItem)
    requires
        item_from(api, item),
    ensures
        api.ad_id matches Some(a) ==> item.id == a,
        api.ad_id is None ==> parse_u64_spec(api.id@) == Some(item.id),
        item.title == api.heading,
        item.url == api.canonical_url,
        item.location == api.location,
        item.trade_type == api.trade_type,
        item.brand == api.brand,
        item.timestamp_ms == api.timestamp,
        api.price is None <==> item.price is None,
        api.price matches Some(p) ==> (item.price matches Some(q) && q.amount == p.amount
            && q.currency_code == p.currency_code && q.unit == p.price_unit),
        api.coordinates is None <==> item.coordinates is None,
        api.coordinates matches Some(c) ==> (item.coordinates matches Some(k) && k.lat_bits
            == c.lat_bits && k.lon_bits == c.lon_bits),
        api.timestamp is None ==> item.published_at is None,
{
}

/// One search ad as an item of the result.
pub fn map_search_item(api: ApiItem) -> (r: Result<SearchItem, FinnError>)
    ensures
        ad_id_of(api) is None ==> (r matches Err(FinnError::InvalidAdId(s)) && s@ == api.id@),
        ad_id_of(api) matches Some(id) ==> (r matches Ok(item) && item_from(api, item)),
{
    let ghost orig = api;
    let id = match api.ad_id {
        Some(id) => id,
        None => match parse_u64(api.id.as_str()) {
            Some(id) => id,
            None => return Err(FinnError::InvalidAdId(api.id)),
        },
    };
    let primary_image_url = match api.image {
        Some(image) => Some(image.url),
        None => None,
    };
    let mut labels: Vec<String> = Vec::new();
    let mut i: usize = 0;
    while i < api.labels.len()
        invariant
            i <= api.labels@.len(),
            api.labels@ == orig.labels@,
            views(labels@) == orig.labels@.take(i as int).map_values(|l: ApiLabel| l.text@),
        decreases api.labels@.len() - i,
    {
        let ghost before = labels@;
        labels.push(api.labels[i].text.clone());
        assert(views(labels@) == views(before).push(orig.labels@[i as int].text@));
        assert(orig.labels@.take(i + 1) == orig.labels@.take(i as int).push(orig.labels@[i as int]));
        i = i + 1;
    }
    assert(orig.labels@.take(orig.labels@.len() as int) == orig.labels@);
    let coordinates = match api.coordinates {
        Some(c) => Some(Coordinates { lat_bits: c.lat_bits, lon_bits: c.lon_bits }),
        None => None,
    };
    let extras = extras_to_map(api.extras);
    let published_at = match api.timestamp {
        Some(t) => millis_to_rfc3339(t),
        None => None,
    };
    let price = match api.price {
        Some(p) => Some(Price { amount: p.amount, currency_code: p.currency_code, unit: p.price_unit }),
        None => None,
    };
    Ok(SearchItem {
        id,
        title: api.heading,
        location: api.location,
        price,
        trade_type: api.trade_type,
        url: api.canonical_url,
        primary_image_url,
        image_urls: api.image_urls,
        labels,
        flags: api.flags,
        brand: api.brand,
        coordinates,
        timestamp_ms: api.timestamp,
        published_at,
        extras,
    })
}


pub open spec fn opt_text(o: Option<String>) -> Option<Seq<char>> {
    match o {
        Some(s) => Some(s@),
        None => None,
    }
}

/// The first ad without a usable ad id, if any.
pub open spec fn first_bad_ad(docs: Seq<ApiItem>) -> Option<int> {
    if exists|i: int| 0 <= i < docs.len() && ad_id_of(#[trigger] docs[i]) is None {
        Some(
            choose|i: int|
                0 <= i < docs.len() && ad_id_of(docs[i]) is None && forall|j: int|
                    0 <= j < i ==> ad_id_of(#[trigger] docs[j]) is Some,
        )
    } else {
        None
    }
}

/// One page of search results, made from FINN's response to a search with
/// `params`; it fails on the first ad without a usable ad id.
pub fn map_search_response(params: &SearchParams, api: ApiSearchResponse) -> (r: Result<
    SearchResult,
    FinnError,
>)
    ensures
        first_bad_ad(api.docs@) matches Some(k) ==> (r matches Err(FinnError::InvalidAdId(s))
            && s@ == api.docs@[k].id@),
        first_bad_ad(api.docs@) is None ==> (r matches Ok(res) && {
            &&& res.query@ == params.query@
            &&& opt_text(res.category) == opt_text(params.category)
            &&& res.title == api.metadata.title
            &&& res.marketplace == api.metadata.search_key_description
            &&& res.current_page == api.metadata.paging.current
            &&& res.last_page == api.metadata.paging.last
            &&& res.fetched_pages == 1
            &&& res.fetched_from_page == api.metadata.paging.current
            &&& res.fetched_to_page == api.metadata.paging.current
            &&& res.total_matches == api.metadata.result_size.match_count
            &&& res.returned_items == api.docs@.len()
            &&& res.is_end_of_paging == api.metadata.is_end_of_paging
            &&& res.items@.len() == api.docs@.len()
            &&& forall|i: int|
                0 <= i < api.docs@.len() ==> item_from(#[trigger] api.docs@[i], res.items@[i])
        }),
{
    let ghost docs = api.docs@;
    let metadata = api.metadata;
    let returned_items = api.docs.len();
    let mut rest = api.docs;
    let mut items: Vec<SearchItem> = Vec::new();
    assert(docs.skip(0) == docs);
    while rest.len() > 0
        invariant
            items@.len() + rest@.len() == docs.len(),
            docs == api.docs@,
            docs.len() == returned_items,
            rest@ == docs.skip(items@.len() as int),
            forall|j: int| 0 <= j < items@.len() ==> ad_id_of(#[trigger] docs[j]) is Some,
            forall|j: int| 0 <= j < items@.len() ==> item_from(#[trigger] docs[j], items@[j]),
        decreases rest@.len(),
    {
        let ghost i = items@.len() as int;
        let doc = rest.remove(0);
        assert(doc == docs[i]);
        assert(rest@ == docs.skip(i + 1));
        match map_search_item(doc) {
            Ok(item) => {
                items.push(item);
            },
            Err(e) => {
                proof {
                    assert(ad_id_of(docs[i]) is None);
                    assert(0 <= i < docs.len() && ad_id_of(docs[i]) is None);
                    assert(first_bad_ad(docs) is Some);
                    let k = choose|k: int|
                        0 <= k < docs.len() && ad_id_of(docs[k]) is None && forall|j: int|
                            0 <= j < k ==> ad_id_of(#[trigger] docs[j]) is Some;
                    if k < i {
                        assert(ad_id_of(docs[k]) is Some);
                    } else if k > i {
                        assert(ad_id_of(docs[i]) is Some);
                    }
                    assert(k == i);
                }
                return Err(e);
            },
        }
    }
    assert(first_bad_ad(docs) is None);
    Ok(SearchResult {
        query: params.query.clone(),
        category: params.category.clone(),
        title: metadata.title,
        marketplace: metadata.search_key_description,
        current_page: metadata.paging.current,
        last_page: metadata.paging.last,
        fetched_pages: 1,
        fetched_from_page: metadata.paging.current,
        fetched_to_page: metadata.paging.current,
        total_matches: metadata.result_size.match_count,
        returned_items,
        is_end_of_paging: metadata.is_end_of_paging,
        items,
    })
}

} // verus!
