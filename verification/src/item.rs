//! An ad's page: the hydration data in it and the item details made from it.
use vstd::prelude::*;

use crate::error::FinnError;
use crate::ext::{decode_json_string, first_capture, json_string_value, regex_capture};
use crate::keyed::{insert_keyed, keyed, represents};
use crate::model::{Coordinates, ItemDetail, Price};
use crate::search::opt_text;
use crate::text::{blank, is_blank, owned, parse_u64, parse_u64_spec, push_str, views};

verus! {

/// The data an ad's page is built from.
pub struct ItemHydrationRoot {
    pub loader_data: ItemLoaderData,
}

pub struct ItemLoaderData {
    pub item_recommerce: ApiItemRoute,
}

pub struct ApiItemRoute {
    pub item_data: ApiItemData,
    pub meta: ApiItemPageMeta,
    pub json_ld: Option<ApiJsonLd>,
    pub transactable_data: Option<ApiTransactableData>,
}

pub struct ApiItemPageMeta {
    pub canonical: Option<String>,
}

pub struct ApiJsonLd {
    pub url: Option<String>,
    pub offers: Option<ApiJsonLdOffer>,
}

pub struct ApiJsonLdOffer {
    pub price_currency: String,
}

pub struct ApiItemData {
    pub title: String,
    pub location: Option<ApiItemLocation>,
    pub extras: Vec<ApiItemExtra>,
    pub anonymous: bool,
    pub meta: ApiItemMeta,
    pub price: Option<u64>,
    pub category: Option<ApiCategory>,
    pub images: Vec<ApiItemImage>,
    pub disposed: bool,
    pub ad_view_type_label: Option<String>,
    pub description: Option<String>,
    pub is_webstore: bool,
}

pub struct ApiItemLocation {
    pub position: Option<ApiItemPosition>,
    pub postal_code: Option<String>,
    pub postal_name: Option<String>,
    pub country_code: Option<String>,
    pub country_name: Option<String>,
}

/// A position, as the bit patterns of latitude and longitude.
pub struct ApiItemPosition {
    pub lat_bits: u64,
    pub lng_bits: u64,
}

pub struct ApiItemExtra {
    pub id: String,
    pub value: Option<String>,
}

pub struct ApiItemMeta {
    pub ad_id: String,
    pub edited: Option<String>,
    pub is_inactive: bool,
}

/// A category and, above it, its parent categories.
pub struct ApiCategory {
    pub value: String,
    pub parent: Option<Box<ApiCategory>>,
}

pub struct ApiItemImage {
    pub uri: String,
}

pub struct ApiTransactableData {
    pub transactable: bool,
    pub seller_pays_shipping: bool,
    pub buy_now: bool,
    pub eligible_for_shipping: bool,
}

/// The location of an ad as text: postal code and place, or whichever of
/// the two is given and not empty, else the country.
pub open spec fn location_text(loc: ApiItemLocation) -> Option<Seq<char>> {
    match (loc.postal_code, loc.postal_name) {
        (Some(code), Some(name)) if code@.len() > 0 && name@.len() > 0 => Some(
            code@ + seq![' '] + name@,
        ),
        (None, Some(name)) if name@.len() > 0 => Some(name@),
        (Some(code), None) if code@.len() > 0 => Some(code@),
        _ => opt_text(loc.country_name),
    }
}

/// The location of an ad as text.
pub fn format_item_location(location: &ApiItemLocation) -> (r: Option<String>)
    ensures
        opt_text(r) == location_text(*location),
{
    match (&location.postal_code, &location.postal_name) {
        (Some(code), Some(name)) if !code.as_str().is_empty() && !name.as_str().is_empty() => {
            let mut out = code.clone();
            push_str(&mut out, " ");
            push_str(&mut out, name.as_str());
            proof {
                reveal_strlit(" ");
            }
            assert(out@ =~= code@ + seq![' '] + name@);
            Some(out)
        },
        (None, Some(name)) if !name.as_str().is_empty() => {
            Some(name.clone())
        },
        (Some(code), None) if !code.as_str().is_empty() => {
            Some(code.clone())
        },
        _ => {
            location.country_name.clone()
        },
    }
}


/// The values of a category and its parents, the top one first.
pub open spec fn category_chain(c: ApiCategory) -> Seq<Seq<char>>
    decreases c,
{
    match c.parent {
        Some(p) => category_chain(*p).push(c.value@),
        None => seq![c.value@],
    }
}

/// The category path of an ad, the top category first.
pub fn collect_category_path(category: &ApiCategory) -> (r: Vec<String>)
    ensures
        views(r@) == category_chain(*category),
    decreases category,
{
    let mut path = match &category.parent {
        Some(parent) => collect_category_path(parent),
        None => Vec::new(),
    };
    let ghost before = path@;
    path.push(category.value.clone());
    assert(views(path@) == views(before).push(category.value@));
    path
}

/// The attributes of an ad with a value that is not blank, a later one
/// replacing an earlier one with the same id.
pub open spec fn detail_extras_map(extras: Seq<ApiItemExtra>) -> Map<Seq<char>, Seq<char>>
    decreases extras.len(),
{
    if extras.len() == 0 {
        Map::empty()
    } else {
        let m = detail_extras_map(extras.drop_last());
        let e = extras.last();
        match e.value {
            Some(v) => if blank(v@) {
                m
            } else {
                m.insert(e.id@, v@)
            },
            None => m,
        }
    }
}

fn detail_extras(extras: Vec<ApiItemExtra>) -> (r: Vec<(String, String)>)
    ensures
        represents(keyed(r@), detail_extras_map(extras@)),
{
    let ghost all = extras@;
    let n = extras.len();
    let mut r: Vec<(String, String)> = Vec::new();
    let mut rest = extras;
    assert(keyed(r@) =~= Seq::<(Seq<char>, Seq<char>)>::empty());
    assert(all.skip(0) == all);
    let mut i: usize = 0;
    while rest.len() > 0
        invariant
            i + rest@.len() == all.len(),
            all.len() == n,
            rest@ == all.skip(i as int),
            represents(keyed(r@), detail_extras_map(all.take(i as int))),
        decreases rest@.len(),
    {
        let e = rest.remove(0);
        proof {
            assert(e == all[i as int]);
            assert(rest@ == all.skip(i + 1));
            assert(all.take(i + 1).drop_last() == all.take(i as int));
            assert(all.take(i + 1).last() == e);
        }
        match e.value {
            Some(value) => {
                if !is_blank(value.as_str()) {
                    let ghost m = detail_extras_map(all.take(i as int));
                    insert_keyed(&mut r, e.id, value, Ghost(m));
                }
            },
            None => {},
        }
        i = i + 1;
    }
    assert(all.take(all.len() as int) == all);
    r
}

/// The currency of the asking price: the offer's, else NOK.
pub open spec fn price_currency(route: ApiItemRoute) -> Seq<char> {
    match route.json_ld {
        Some(j) => match j.offers {
            Some(o) => o.price_currency@,
            None => "NOK"@,
        },
        None => "NOK"@,
    }
}

/// The address of the ad: the page's canonical address, else the one in
/// its structured data, else `fallback`.
pub open spec fn item_url(route: ApiItemRoute, fallback: Seq<char>) -> Seq<char> {
    match route.meta.canonical {
        Some(c) => c@,
        None => match route.json_ld {
            Some(j) => match j.url {
                Some(u) => u@,
                None => fallback,
            },
            None => fallback,
        },
    }
}

/// `detail` is what the hydration data `h` of the page at `fallback` becomes.
pub open spec fn detail_from(h: ItemHydrationRoot, fallback: Seq<char>, detail: ItemDetail) -> bool {
    let route = h.loader_data.item_recommerce;
    let item = route.item_data;
    &&& parse_u64_spec(item.meta.ad_id@) == Some(detail.id)
    &&& detail.title == item.title
    &&& detail.url@ == item_url(route, fallback)
    &&& (match (detail.price, item.price) {
        (Some(p), Some(a)) => p.amount == a && p.currency_code@ == price_currency(route) && p.unit@
            == "kr"@,
        (None, None) => true,
        _ => false,
    })
    &&& detail.trade_type == item.ad_view_type_label
    &&& detail.description == item.description
    &&& opt_text(detail.location) == (match item.location {
        Some(l) => location_text(l),
        None => None,
    })
    &&& opt_text(detail.postal_code) == (match item.location {
        Some(l) => opt_text(l.postal_code),
        None => None,
    })
    &&& opt_text(detail.postal_name) == (match item.location {
        Some(l) => opt_text(l.postal_name),
        None => None,
    })
    &&& opt_text(detail.country_code) == (match item.location {
        Some(l) => opt_text(l.country_code),
        None => None,
    })
    &&& opt_text(detail.country_name) == (match item.location {
        Some(l) => opt_text(l.country_name),
        None => None,
    })
    &&& detail.coordinates == (match item.location {
        Some(l) => match l.position {
            Some(p) => Some(Coordinates { lat_bits: p.lat_bits, lon_bits: p.lng_bits }),
            None => None,
        },
        None => None,
    })
    &&& views(detail.category_path@) == (match item.category {
        Some(c) => category_chain(c),
        None => Seq::empty(),
    })
    &&& views(detail.image_urls@) == item.images@.map_values(|i: ApiItemImage| i.uri@)
    &&& represents(keyed(detail.extras@), detail_extras_map(item.extras@))
    &&& detail.edited_at == item.meta.edited
    &&& (match route.transactable_data {
        Some(t) => {
            &&& detail.is_transactable == t.transactable
            &&& detail.buy_now == t.buy_now
            &&& detail.eligible_for_shipping == t.eligible_for_shipping
            &&& detail.seller_pays_shipping == t.seller_pays_shipping
        },
        None => !detail.is_transactable && !detail.buy_now && !detail.eligible_for_shipping
            && !detail.seller_pays_shipping,
    })
    &&& detail.is_webstore == item.is_webstore
    &&& detail.anonymous_seller == item.anonymous
    &&& detail.is_inactive == item.meta.is_inactive
    &&& detail.is_disposed == item.disposed
}

/// Each field of an item's details comes from its own field of the page's
/// data: the latitude and longitude from the position's latitude and
/// longitude, the postal code, place, country code and country from theirs,
/// each way of buying from its own flag, and the address from the page's
/// canonical address, else the address in its structured data, else the
/// address it was fetched from.
pub proof fn law_item_detail_fields(h: ItemHydrationRoot, fallback: Seq<char>, d: ItemDetail)
    requires
        detail_from(h, fallback, d),
    ensures
        ({
            let route = h.loader_data.item_recommerce;
            let item = route.item_data;
            &&& parse_u64_spec(item.meta.ad_id@) == Some(d.id)
            &&& d.title == item.title
            &&& (route.meta.canonical matches Some(c) ==> d.url@ == c@)
            &&& (route.meta.canonical is None && route.json_ld is Some
                && route.json_ld.unwrap().url is Some ==> d.url@ == route.json_ld.unwrap().url.unwrap()@)
            &&& (route.meta.canonical is None && !(route.json_ld matches Some(j) && j.url is Some)
                ==> d.url@ == fallback)
            &&& (item.price matches Some(a) ==> (d.price matches Some(p) && p.amount == a && p.unit@
                == "kr"@))
            &&& (item.price is None ==> d.price is None)
            &&& (item.location matches Some(l) ==> {
                &&& opt_text(d.postal_code) == opt_text(l.postal_code)
                &&& opt_text(d.postal_name) == opt_text(l.postal_name)
                &&& opt_text(d.country_code) == opt_text(l.country_code)
                &&& opt_text(d.country_name) == opt_text(l.country_name)
                &&& (l.position matches Some(p) ==> (d.coordinates matches Some(k) && k.lat_bits
                    == p.lat_bits && k.lon_bits == p.lng_bits))
                &&& (l.position is None ==> d.coordinates is None)
            })
            &&& (item.location is None ==> d.coordinates is None && d.postal_code is None
                && d.postal_name is None)
            &&& (route.transactable_data matches Some(t) ==> {
                &&& d.is_transactable == t.transactable
                &&& d.buy_now == t.buy_now
                &&& d.eligible_for_shipping == t.eligible_for_shipping
                &&& d.seller_pays_shipping == t.seller_pays_shipping
            })
            &&& d.is_webstore == item.is_webstore
            &&& d.anonymous_seller == item.anonymous
            &&& d.is_inactive == item.meta.is_inactive
            &&& d.is_disposed == item.disposed
            &&& d.edited_at == item.meta.edited
            &&& d.description == item.description
            &&& d.trade_type == item.ad_view_type_label
        }),
{
}

/// The details of an ad, made from its page's hydration data; `fallback_url`
/// is the address the page was fetched from.
pub fn map_item_detail(hydration: ItemHydrationRoot, fallback_url: &str) -> (r: Result<
    ItemDetail,
    FinnError,
>)
    ensures
        ({
            let ad_id = hydration.loader_data.item_recommerce.item_data.meta.ad_id;
            &&& parse_u64_spec(ad_id@) is None ==> (r matches Err(FinnError::InvalidAdId(s)) && s@
                == ad_id@)
            &&& parse_u64_spec(ad_id@) is Some ==> (r matches Ok(d) && detail_from(
                hydration,
                fallback_url@,
                d,
            ))
        }),
{
    let ghost h = hydration;
    let route = hydration.loader_data.item_recommerce;
    let item = route.item_data;
    let currency = match &route.json_ld {
        Some(j) => match &j.offers {
            Some(o) => o.price_currency.clone(),
            None => owned("NOK"),
        },
        None => owned("NOK"),
    };
    let id = match parse_u64(item.meta.ad_id.as_str()) {
        Some(id) => id,
        None => return Err(FinnError::InvalidAdId(item.meta.ad_id)),
    };
    let url = match route.meta.canonical {
        Some(c) => c,
        None => match route.json_ld {
            Some(j) => match j.url {
                Some(u) => u,
                None => owned(fallback_url),
            },
            None => owned(fallback_url),
        },
    };
    let (location, coordinates, postal_code, postal_name, country_code, country_name) =
        match &item.location {
        Some(l) => (
            format_item_location(l),
            match &l.position {
                Some(p) => Some(Coordinates { lat_bits: p.lat_bits, lon_bits: p.lng_bits }),
                None => None,
            },
            l.postal_code.clone(),
            l.postal_name.clone(),
            l.country_code.clone(),
            l.country_name.clone(),
        ),
        None => (None, None, None, None, None, None),
    };
    let category_path = match &item.category {
        Some(c) => collect_category_path(c),
        None => Vec::new(),
    };
    let mut image_urls: Vec<String> = Vec::new();
    let mut i: usize = 0;
    while i < item.images.len()
        invariant
            i <= item.images@.len(),
            views(image_urls@) == item.images@.take(i as int).map_values(
                |im: ApiItemImage| im.uri@,
            ),
        decreases item.images@.len() - i,
    {
        let ghost before = image_urls@;
        image_urls.push(item.images[i].uri.clone());
        assert(views(image_urls@) == views(before).push(item.images@[i as int].uri@));
        assert(item.images@.take(i + 1) == item.images@.take(i as int).push(item.images@[i as int]));
        i = i + 1;
    }
    assert(item.images@.take(item.images@.len() as int) == item.images@);
    let extras = detail_extras(item.extras);
    let (is_transactable, buy_now, eligible_for_shipping, seller_pays_shipping) =
        match route.transactable_data {
        Some(t) => (t.transactable, t.buy_now, t.eligible_for_shipping, t.seller_pays_shipping),
        None => (false, false, false, false),
    };
    let price = match item.price {
        Some(amount) => Some(Price { amount, currency_code: currency, unit: owned("kr") }),
        None => None,
    };
    let d = ItemDetail {
        id,
        title: item.title,
        url,
        price,
        trade_type: item.ad_view_type_label,
        description: item.description,
        location,
        postal_code,
        postal_name,
        country_code,
        country_name,
        coordinates,
        category_path,
        image_urls,
        extras,
        edited_at: item.meta.edited,
        is_transactable,
        buy_now,
        eligible_for_shipping,
        seller_pays_shipping,
        is_webstore: item.is_webstore,
        anonymous_seller: item.anonymous,
        is_inactive: item.meta.is_inactive,
        is_disposed: item.disposed,
    };
    proof {
        let route0 = h.loader_data.item_recommerce;
        let item0 = route0.item_data;
        assert(d.url@ == item_url(route0, fallback_url@));
        assert(match (d.price, item0.price) {
            (Some(p), Some(a)) => p.amount == a && p.currency_code@ == price_currency(route0) && p.unit@
                == "kr"@,
            (None, None) => true,
            _ => false,
        });
        assert(opt_text(d.location) == (match item0.location {
            Some(l) => location_text(l),
            None => None,
        }));
        assert(views(d.category_path@) == (match item0.category {
            Some(c) => category_chain(c),
            None => Seq::empty(),
        }));
    }
    Ok(d)
}


/// Where an ad's page assigns its hydration data, capturing the JSON
/// string literal that holds it.
pub const HYDRATION_PATTERN: &'static str = r#"window\.__staticRouterHydrationData\s*=\s*JSON\.parse\(("(?:(?:\\.)|[^"])*")\);"#;

/// The hydration data of an ad's page as JSON text: the string literal
/// that `HYDRATION_PATTERN` captures, decoded.
pub fn extract_hydration_json(html: &str) -> (r: Result<String, FinnError>)
    ensures
        regex_capture(HYDRATION_PATTERN@, html@, 1) is None ==> r matches Err(
            FinnError::MissingHydrationData,
        ),
        regex_capture(HYDRATION_PATTERN@, html@, 1) matches Some(lit) ==> match json_string_value(
            lit,
        ) {
            Some(text) => r matches Ok(s) && s@ == text,
            None => r matches Err(FinnError::Json(_)),
        },
{
    let literal = match first_capture(HYDRATION_PATTERN, html, 1) {
        Some(l) => l,
        None => return Err(FinnError::MissingHydrationData),
    };
    match decode_json_string(literal.as_str()) {
        Ok(text) => Ok(text),
        Err(e) => Err(FinnError::Json(e)),
    }
}

} // verus!
