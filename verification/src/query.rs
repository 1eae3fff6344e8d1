//! The query string of a search request.
use vstd::prelude::*;

use crate::model::{pair_views, CategoryEntry, CategoryView, ConditionFilter, SearchParams};
use crate::text::{blank, decimal, is_blank, owned, u64_to_string, views};

verus! {

/// A query parameter, as characters.
pub type Pair = (Seq<char>, Seq<char>);

pub open spec fn opt_pair(p: Option<Pair>) -> Seq<Pair> {
    match p {
        Some(kv) => seq![kv],
        None => Seq::empty(),
    }
}

/// `location` parameters for the locations that are not blank.
pub open spec fn location_pairs(locations: Seq<Seq<char>>) -> Seq<Pair>
    decreases locations.len(),
{
    if locations.len() == 0 {
        Seq::empty()
    } else {
        let prev = location_pairs(locations.drop_last());
        if blank(locations.last()) {
            prev
        } else {
            prev.push(("location"@, locations.last()))
        }
    }
}

/// `condition` parameters, one per condition.
pub open spec fn condition_pairs(conditions: Seq<ConditionFilter>) -> Seq<Pair> {
    conditions.map_values(|c: ConditionFilter| ("condition"@, c.api_value()))
}

/// The raw parameters whose key and value are both not blank.
pub open spec fn raw_pairs(raw: Seq<Pair>) -> Seq<Pair>
    decreases raw.len(),
{
    if raw.len() == 0 {
        Seq::empty()
    } else {
        let prev = raw_pairs(raw.drop_last());
        if blank(raw.last().0) || blank(raw.last().1) {
            prev
        } else {
            prev.push(raw.last())
        }
    }
}

pub open spec fn at_least_one(page: u32) -> u32 {
    if page >= 1 {
        page
    } else {
        1
    }
}

pub open spec fn category_pair(category: Option<CategoryView>) -> Option<Pair> {
    match category {
        Some(c) => Some((c.query_param, c.value)),
        None => None,
    }
}

pub open spec fn sort_pair(sort: Option<crate::model::SearchSort>) -> Option<Pair> {
    match sort {
        Some(s) => Some(("sort"@, s.api_value())),
        None => None,
    }
}

pub open spec fn price_pair(key: Seq<char>, price: Option<u64>) -> Option<Pair> {
    match price {
        Some(p) => Some((key, decimal(p as nat))),
        None => None,
    }
}

pub open spec fn shipping_pair(shipping: bool) -> Option<Pair> {
    if shipping {
        Some(("shipping_types"@, "0"@))
    } else {
        None
    }
}

pub open spec fn published_pair(published_today: bool) -> Option<Pair> {
    if published_today {
        Some(("published"@, "1"@))
    } else {
        None
    }
}

pub open spec fn for_rent_pair(f: Option<crate::model::ForRentFilter>) -> Option<Pair> {
    match f {
        Some(f) => Some(("for_rent"@, f.api_value())),
        None => None,
    }
}

pub open spec fn trade_type_pair(t: Option<crate::model::TradeTypeFilter>) -> Option<Pair> {
    match t {
        Some(t) => Some(("trade_type"@, t.api_value())),
        None => None,
    }
}

pub open spec fn dealer_segment_pair(d: Option<crate::model::DealerSegmentFilter>) -> Option<
    Pair,
> {
    match d {
        Some(d) => Some(("dealer_segment"@, d.api_value())),
        None => None,
    }
}

/// The query of a search for page `page` (at least 1), in this order:
/// the text, the page, the category, the sort order, the prices, shipping,
/// the locations, rent, trade type, dealer segment, the conditions,
/// published today, and the raw parameters.
pub open spec fn search_query(
    params: SearchParams,
    page: u32,
    category: Option<CategoryView>,
) -> Seq<Pair> {
    query_head(params, page, category) + query_tail(params)
}

/// The text, the page, the category, the sort order, the prices, shipping
/// and the locations.
pub open spec fn query_head(
    params: SearchParams,
    page: u32,
    category: Option<CategoryView>,
) -> Seq<Pair> {
    seq![("q"@, params.query@), ("page"@, decimal(at_least_one(page) as nat))]
        + opt_pair(category_pair(category))
        + opt_pair(sort_pair(params.sort))
        + opt_pair(price_pair("price_from"@, params.price_from))
        + opt_pair(price_pair("price_to"@, params.price_to))
        + opt_pair(shipping_pair(params.shipping))
        + location_pairs(views(params.locations@))
}

/// Rent, trade type, dealer segment, the conditions, published today and
/// the raw parameters.
pub open spec fn query_tail(params: SearchParams) -> Seq<Pair> {
    opt_pair(for_rent_pair(params.for_rent))
        + opt_pair(trade_type_pair(params.trade_type))
        + opt_pair(dealer_segment_pair(params.dealer_segment))
        + condition_pairs(params.conditions@)
        + opt_pair(published_pair(params.published_today))
        + raw_pairs(pair_views(params.raw_params@))
}

/// No parameter of `q` has the key `k`.
pub open spec fn no_key(q: Seq<Pair>, k: Seq<char>) -> bool {
    forall|i: int| 0 <= i < q.len() ==> (#[trigger] q[i]).0 != k
}

/// The keys that stand for flags of a search and its sort order.
pub open spec fn flag_key(k: Seq<char>) -> bool {
    k == "shipping_types"@ || k == "published"@ || k == "sort"@
}

pub broadcast proof fn lemma_concat_contains(a: Seq<Pair>, b: Seq<Pair>, p: Pair)
    ensures
        #[trigger] (a + b).contains(p) <==> (a.contains(p) || b.contains(p)),
{
    if a.contains(p) {
        let i = choose|i: int| 0 <= i < a.len() && a[i] == p;
        assert((a + b)[i] == p);
    }
    if b.contains(p) {
        let i = choose|i: int| 0 <= i < b.len() && b[i] == p;
        assert((a + b)[a.len() + i] == p);
    }
    if (a + b).contains(p) {
        let i = choose|i: int| 0 <= i < (a + b).len() && (a + b)[i] == p;
        if i < a.len() {
            assert(a[i] == p);
        } else {
            assert(b[i - a.len()] == p);
        }
    }
}

proof fn lemma_no_key_absent(q: Seq<Pair>, p: Pair)
    requires
        no_key(q, p.0),
    ensures
        !q.contains(p),
{
    if q.contains(p) {
        let i = choose|i: int| 0 <= i < q.len() && q[i] == p;
        assert(q[i].0 == p.0);
    }
}

proof fn lemma_location_keys(locations: Seq<Seq<char>>)
    ensures
        forall|i: int| 0 <= i < location_pairs(locations).len() ==> (#[trigger] location_pairs(
            locations,
        )[i]).0 == "location"@,
    decreases locations.len(),
{
    if locations.len() > 0 {
        let prev = location_pairs(locations.drop_last());
        lemma_location_keys(locations.drop_last());
        let now = location_pairs(locations);
        assert forall|i: int| 0 <= i < now.len() implies (#[trigger] now[i]).0 == "location"@ by {
            if i < prev.len() {
                assert(now[i] == prev[i]);
            }
        }
    }
}

proof fn lemma_raw_keys(raw: Seq<Pair>)
    requires
        forall|i: int| 0 <= i < raw.len() ==> !flag_key((#[trigger] raw[i]).0),
    ensures
        forall|i: int| 0 <= i < raw_pairs(raw).len() ==> !flag_key((#[trigger] raw_pairs(raw)[i]).0),
    decreases raw.len(),
{
    if raw.len() > 0 {
        let prev = raw.drop_last();
        assert forall|i: int| 0 <= i < prev.len() implies !flag_key((#[trigger] prev[i]).0) by {
            assert(prev[i] == raw[i]);
        }
        lemma_raw_keys(prev);
        assert(raw.last() == raw[raw.len() - 1]);
        let before = raw_pairs(prev);
        let now = raw_pairs(raw);
        assert forall|i: int| 0 <= i < now.len() implies !flag_key((#[trigger] now[i]).0) by {
            if i < before.len() {
                assert(now[i] == before[i]);
            }
        }
    }
}

/// The length and first character of the `sort` value of each order.
spec fn sort_value_mark(s: crate::model::SearchSort) -> (nat, char) {
    match s {
        crate::model::SearchSort::Oldest => (13, 'P'),
        crate::model::SearchSort::Relevance => (9, 'R'),
        crate::model::SearchSort::Newest => (14, 'P'),
        crate::model::SearchSort::Closest => (7, 'C'),
        crate::model::SearchSort::PriceDesc => (10, 'P'),
        crate::model::SearchSort::PriceAsc => (9, 'P'),
    }
}

proof fn lemma_sort_value_mark(s: crate::model::SearchSort)
    ensures
        s.api_value().len() == sort_value_mark(s).0,
        s.api_value()[0] == sort_value_mark(s).1,
{
    reveal_strlit("PUBLISHED_ASC");
    reveal_strlit("RELEVANCE");
    reveal_strlit("PUBLISHED_DESC");
    reveal_strlit("CLOSEST");
    reveal_strlit("PRICE_DESC");
    reveal_strlit("PRICE_ASC");
}

proof fn lemma_sort_values_differ(s: crate::model::SearchSort, t: crate::model::SearchSort)
    requires
        s.api_value() == t.api_value(),
    ensures
        s == t,
{
    lemma_sort_value_mark(s);
    lemma_sort_value_mark(t);
    assert(sort_value_mark(s) == sort_value_mark(t));
    match s {
        crate::model::SearchSort::Oldest => match t {
            crate::model::SearchSort::Oldest => {},
            _ => {},
        },
        _ => {},
    }
}

/// The keys of the parameters differ from one another.
proof fn lemma_keys_differ()
    ensures
        "shipping_types"@ != "q"@ && "shipping_types"@ != "page"@ && "shipping_types"@ != "sort"@ && "shipping_types"@ != "price_from"@ && "shipping_types"@ != "price_to"@ && "shipping_types"@ != "location"@ && "shipping_types"@ != "for_rent"@ && "shipping_types"@ != "trade_type"@ && "shipping_types"@ != "dealer_segment"@ && "shipping_types"@ != "condition"@ && "shipping_types"@ != "published"@,
        "published"@ != "q"@ && "published"@ != "page"@ && "published"@ != "sort"@ && "published"@ != "price_from"@ && "published"@ != "price_to"@ && "published"@ != "shipping_types"@ && "published"@ != "location"@ && "published"@ != "for_rent"@ && "published"@ != "trade_type"@ && "published"@ != "dealer_segment"@ && "published"@ != "condition"@,
        "sort"@ != "q"@ && "sort"@ != "page"@ && "sort"@ != "price_from"@ && "sort"@ != "price_to"@ && "sort"@ != "shipping_types"@ && "sort"@ != "location"@ && "sort"@ != "for_rent"@ && "sort"@ != "trade_type"@ && "sort"@ != "dealer_segment"@ && "sort"@ != "condition"@ && "sort"@ != "published"@,
{
    reveal_strlit("q");
    reveal_strlit("page");
    reveal_strlit("sort");
    reveal_strlit("price_from");
    reveal_strlit("price_to");
    reveal_strlit("shipping_types");
    reveal_strlit("location");
    reveal_strlit("for_rent");
    reveal_strlit("trade_type");
    reveal_strlit("dealer_segment");
    reveal_strlit("condition");
    reveal_strlit("published");
    assert("q"@.len() == 1 && "q"@[0] == 'q');
    assert("page"@.len() == 4 && "page"@[0] == 'p');
    assert("sort"@.len() == 4 && "sort"@[0] == 's');
    assert("price_from"@.len() == 10 && "price_from"@[0] == 'p');
    assert("price_to"@.len() == 8 && "price_to"@[0] == 'p');
    assert("shipping_types"@.len() == 14 && "shipping_types"@[0] == 's');
    assert("location"@.len() == 8 && "location"@[0] == 'l');
    assert("for_rent"@.len() == 8 && "for_rent"@[0] == 'f');
    assert("trade_type"@.len() == 10 && "trade_type"@[0] == 't');
    assert("dealer_segment"@.len() == 14 && "dealer_segment"@[0] == 'd');
    assert("condition"@.len() == 9 && "condition"@[0] == 'c');
    assert("published"@.len() == 9 && "published"@[0] == 'p');
}

/// A search's query begins with the search text, then the page (at least
/// 1), then the category when there is one; and, as long as neither the
/// category nor a raw parameter uses the key of a flag or of the sort
/// order, the query asks for shippable ads exactly when the search does,
/// for ads published today exactly when the search does, and for the sort
/// order `s` exactly when the search's sort order is `s`.
pub proof fn law_query_flags(params: SearchParams, page: u32, category: Option<CategoryView>)
    requires
        category matches Some(c) ==> !flag_key(c.query_param),
        forall|i: int|
            0 <= i < params.raw_params@.len() ==> !flag_key(
                #[trigger] pair_views(params.raw_params@)[i].0,
            ),
    ensures
        ({
            let q = search_query(params, page, category);
            &&& q.len() >= 2
            &&& q[0] == ("q"@, params.query@)
            &&& q[1] == ("page"@, decimal(at_least_one(page) as nat))
            &&& category matches Some(c) ==> q.len() >= 3 && q[2] == (c.query_param, c.value)
            &&& q.contains(("shipping_types"@, "0"@)) <==> params.shipping
            &&& q.contains(("published"@, "1"@)) <==> params.published_today
            &&& forall|s: crate::model::SearchSort|
                #[trigger] q.contains(("sort"@, s.api_value())) <==> params.sort == Some(s)
        }),
{
    broadcast use lemma_concat_contains;

    let q = search_query(params, page, category);
    let base = seq![("q"@, params.query@), ("page"@, decimal(at_least_one(page) as nat))];
    let cat = opt_pair(category_pair(category));
    let sort = opt_pair(sort_pair(params.sort));
    let pf = opt_pair(price_pair("price_from"@, params.price_from));
    let pt = opt_pair(price_pair("price_to"@, params.price_to));
    let ship = opt_pair(shipping_pair(params.shipping));
    let locs = location_pairs(views(params.locations@));
    let rent = opt_pair(for_rent_pair(params.for_rent));
    let trade = opt_pair(trade_type_pair(params.trade_type));
    let dealer = opt_pair(dealer_segment_pair(params.dealer_segment));
    let conds = condition_pairs(params.conditions@);
    let publ = opt_pair(published_pair(params.published_today));
    let raw = raw_pairs(pair_views(params.raw_params@));
    assert(q == base + cat + sort + pf + pt + ship + locs + (rent + trade + dealer + conds + publ
        + raw));
    assert(q[0] == base[0]);
    assert(q[1] == base[1]);
    if category is Some {
        assert(q[2] == cat[0]);
    }
    lemma_location_keys(views(params.locations@));
    assert forall|i: int| 0 <= i < pair_views(params.raw_params@).len() implies !flag_key(
        (#[trigger] pair_views(params.raw_params@)[i]).0,
    ) by {}
    lemma_raw_keys(pair_views(params.raw_params@));
    let k = seq![("shipping_types"@, "0"@), ("published"@, "1"@)];
    assert forall|j: int| 0 <= j < 2 implies {
        let p = #[trigger] k[j];
        &&& !base.contains(p) && !cat.contains(p) && !sort.contains(p) && !pf.contains(p)
        &&& !pt.contains(p) && !locs.contains(p) && !rent.contains(p) && !trade.contains(p)
        &&& !dealer.contains(p) && !conds.contains(p) && !raw.contains(p)
    } by {
        let p = k[j];
                            lemma_keys_differ();
        assert(p.0 == "shipping_types"@ || p.0 == "published"@) by {
            if j == 0 {
                assert(k[0].0 == "shipping_types"@);
            } else {
                assert(k[1].0 == "published"@);
            }
        }
        assert(no_key(base, p.0)) by {
            assert forall|i: int| 0 <= i < base.len() implies (#[trigger] base[i]).0 != p.0 by {
                assert(i == 0 || i == 1);
            }
        }
        assert(no_key(locs, p.0));
        lemma_no_key_absent(base, p);
        lemma_no_key_absent(cat, p);
        lemma_no_key_absent(sort, p);
        lemma_no_key_absent(pf, p);
        lemma_no_key_absent(pt, p);
        lemma_no_key_absent(locs, p);
        lemma_no_key_absent(rent, p);
        lemma_no_key_absent(trade, p);
        lemma_no_key_absent(dealer, p);
        lemma_no_key_absent(conds, p);
        lemma_no_key_absent(raw, p);
    }
    let p_ship = ("shipping_types"@, "0"@);
    let p_pub = ("published"@, "1"@);
    assert(k[0] == p_ship && k[1] == p_pub);
    lemma_keys_differ();
    assert(!ship.contains(p_pub)) by {
        lemma_no_key_absent(ship, p_pub);
    }
    assert(!publ.contains(p_ship)) by {
        lemma_no_key_absent(publ, p_ship);
    }
    if params.shipping {
        assert(ship[0] == p_ship);
    }
    if params.published_today {
        assert(publ[0] == p_pub);
    }
    assert forall|s: crate::model::SearchSort|
        #[trigger] q.contains(("sort"@, s.api_value())) <==> params.sort == Some(s) by {
        let p = ("sort"@, s.api_value());
                        assert(p.0 == "sort"@);
        lemma_keys_differ();
        assert(no_key(base, p.0)) by {
            assert forall|i: int| 0 <= i < base.len() implies (#[trigger] base[i]).0 != p.0 by {
                assert(i == 0 || i == 1);
            }
        }
        assert(no_key(locs, p.0));
        lemma_no_key_absent(base, p);
        lemma_no_key_absent(cat, p);
        lemma_no_key_absent(pf, p);
        lemma_no_key_absent(pt, p);
        lemma_no_key_absent(ship, p);
        lemma_no_key_absent(locs, p);
        lemma_no_key_absent(rent, p);
        lemma_no_key_absent(trade, p);
        lemma_no_key_absent(dealer, p);
        lemma_no_key_absent(conds, p);
        lemma_no_key_absent(publ, p);
        lemma_no_key_absent(raw, p);
        match params.sort {
            Some(t) => {
                assert(sort[0] == ("sort"@, t.api_value()));
                if sort.contains(p) {
                    lemma_sort_values_differ(s, t);
                }
            },
            None => {},
        }
    }
}

/// What a search's query asks FINN for: the text and page first, then the
/// category; each sort order, rent, trade-type, dealer and condition
/// filter by its own value (`PUBLISHED_ASC`, `RELEVANCE`, `PUBLISHED_DESC`,
/// `CLOSEST`, `PRICE_DESC`, `PRICE_ASC`; buy `0`, rent `1`; for sale `1`,
/// give away `2`, wanted `3`; private `1`, dealer `3`; new `1` to needs
/// repair `5`); the prices as decimal numbers; shipping and published today
/// as `0` and `1`.
pub proof fn law_query_values(params: SearchParams, page: u32, category: Option<CategoryView>)
    ensures
        ({
            let q = search_query(params, page, category);
            q.len() >= 2
        }),
        params.sort == Some(crate::model::SearchSort::Oldest) ==> search_query(params, page, category).contains(("sort"@, "PUBLISHED_ASC"@)),
        params.sort == Some(crate::model::SearchSort::Relevance) ==> search_query(params, page, category).contains(("sort"@, "RELEVANCE"@)),
        params.sort == Some(crate::model::SearchSort::Newest) ==> search_query(params, page, category).contains(("sort"@, "PUBLISHED_DESC"@)),
        params.sort == Some(crate::model::SearchSort::Closest) ==> search_query(params, page, category).contains(("sort"@, "CLOSEST"@)),
        params.sort == Some(crate::model::SearchSort::PriceDesc) ==> search_query(params, page, category).contains(("sort"@, "PRICE_DESC"@)),
        params.sort == Some(crate::model::SearchSort::PriceAsc) ==> search_query(params, page, category).contains(("sort"@, "PRICE_ASC"@)),
        params.for_rent == Some(crate::model::ForRentFilter::Buy) ==> search_query(params, page, category).contains(("for_rent"@, "0"@)),
        params.for_rent == Some(crate::model::ForRentFilter::Rent) ==> search_query(params, page, category).contains(("for_rent"@, "1"@)),
        params.trade_type == Some(crate::model::TradeTypeFilter::ForSale) ==> search_query(params, page, category).contains(("trade_type"@, "1"@)),
        params.trade_type == Some(crate::model::TradeTypeFilter::GiveAway) ==> search_query(params, page, category).contains(("trade_type"@, "2"@)),
        params.trade_type == Some(crate::model::TradeTypeFilter::Wanted) ==> search_query(params, page, category).contains(("trade_type"@, "3"@)),
        params.dealer_segment == Some(crate::model::DealerSegmentFilter::Private) ==> search_query(params, page, category).contains(("dealer_segment"@, "1"@)),
        params.dealer_segment == Some(crate::model::DealerSegmentFilter::Dealer) ==> search_query(params, page, category).contains(("dealer_segment"@, "3"@)),
        params.conditions@.contains(crate::model::ConditionFilter::New) ==> search_query(params, page, category).contains(("condition"@, "1"@)),
        params.conditions@.contains(crate::model::ConditionFilter::LikeNew) ==> search_query(params, page, category).contains(("condition"@, "2"@)),
        params.conditions@.contains(crate::model::ConditionFilter::GentlyUsed) ==> search_query(params, page, category).contains(("condition"@, "3"@)),
        params.conditions@.contains(crate::model::ConditionFilter::WellUsed) ==> search_query(params, page, category).contains(("condition"@, "4"@)),
        params.conditions@.contains(crate::model::ConditionFilter::NeedsRepair) ==> search_query(params, page, category).contains(("condition"@, "5"@)),
        params.price_from matches Some(p) ==> search_query(params, page, category).contains(("price_from"@, decimal(p as nat))),
        params.price_to matches Some(p) ==> search_query(params, page, category).contains(("price_to"@, decimal(p as nat))),
        params.shipping ==> search_query(params, page, category).contains(("shipping_types"@, "0"@)),
        params.published_today ==> search_query(params, page, category).contains(("published"@, "1"@)),
        search_query(params, page, category)[0] == ("q"@, params.query@),
        search_query(params, page, category)[1] == ("page"@, decimal(if page >= 1 { page as nat } else { 1 })),
        category matches Some(c) ==> search_query(params, page, category)[2] == (c.query_param, c.value),
{
    broadcast use lemma_concat_contains;

    let q = search_query(params, page, category);
    let base = seq![("q"@, params.query@), ("page"@, decimal(at_least_one(page) as nat))];
    let cat = opt_pair(category_pair(category));
    let sort = opt_pair(sort_pair(params.sort));
    let pf = opt_pair(price_pair("price_from"@, params.price_from));
    let pt = opt_pair(price_pair("price_to"@, params.price_to));
    let ship = opt_pair(shipping_pair(params.shipping));
    let locs = location_pairs(views(params.locations@));
    let rent = opt_pair(for_rent_pair(params.for_rent));
    let trade = opt_pair(trade_type_pair(params.trade_type));
    let dealer = opt_pair(dealer_segment_pair(params.dealer_segment));
    let conds = condition_pairs(params.conditions@);
    let publ = opt_pair(published_pair(params.published_today));
    let raw = raw_pairs(pair_views(params.raw_params@));
    assert(q == base + cat + sort + pf + pt + ship + locs + (rent + trade + dealer + conds + publ
        + raw));
    assert(q[0] == base[0]);
    assert(q[1] == base[1]);
    if category is Some {
        assert(q[2] == cat[0]);
    }
    if params.sort is Some {
        assert(sort[0] == sort_pair(params.sort).unwrap());
        assert(sort.contains(sort[0]));
    }
    if params.price_from is Some {
        assert(pf.contains(pf[0]));
    }
    if params.price_to is Some {
        assert(pt.contains(pt[0]));
    }
    if params.shipping {
        assert(ship.contains(ship[0]));
    }
    if params.for_rent is Some {
        assert(rent.contains(rent[0]));
    }
    if params.trade_type is Some {
        assert(trade.contains(trade[0]));
    }
    if params.dealer_segment is Some {
        assert(dealer.contains(dealer[0]));
    }
    if params.published_today {
        assert(publ.contains(publ[0]));
    }
    assert forall|f: crate::model::ConditionFilter| params.conditions@.contains(f) implies #[trigger] conds.contains(
        ("condition"@, f.api_value()),
    ) by {
        let j = choose|j: int| 0 <= j < params.conditions@.len() && params.conditions@[j] == f;
        assert(conds[j] == ("condition"@, f.api_value()));
    }
    if params.conditions@.contains(crate::model::ConditionFilter::New) {
        assert(conds.contains(("condition"@, crate::model::ConditionFilter::New.api_value())));
    }
    if params.conditions@.contains(crate::model::ConditionFilter::LikeNew) {
        assert(conds.contains(("condition"@, crate::model::ConditionFilter::LikeNew.api_value())));
    }
    if params.conditions@.contains(crate::model::ConditionFilter::GentlyUsed) {
        assert(conds.contains(("condition"@, crate::model::ConditionFilter::GentlyUsed.api_value())));
    }
    if params.conditions@.contains(crate::model::ConditionFilter::WellUsed) {
        assert(conds.contains(("condition"@, crate::model::ConditionFilter::WellUsed.api_value())));
    }
    if params.conditions@.contains(crate::model::ConditionFilter::NeedsRepair) {
        assert(conds.contains(("condition"@, crate::model::ConditionFilter::NeedsRepair.api_value())));
    }
}

fn push_pair(query: &mut Vec<(String, String)>, key: String, value: String)
    ensures
        pair_views(final(query)@) == pair_views(old(query)@).push((key@, value@)),
{
    let ghost before = query@;
    query.push((key, value));
    assert(pair_views(query@) == pair_views(before).push((key@, value@)));
}

fn push_locations(query: &mut Vec<(String, String)>, locations: &Vec<String>)
    ensures
        pair_views(final(query)@) == pair_views(old(query)@) + location_pairs(views(locations@)),
{
    let ghost q5 = pair_views(query@);
    let mut i: usize = 0;
    while i < locations.len()
        invariant
            i <= locations@.len(),
            pair_views(query@) == q5 + location_pairs(views(locations@.take(i as int))),
        decreases locations@.len() - i,
    {
        let ghost pre = views(locations@.take(i as int));
        proof {
            assert(views(locations@.take(i + 1)) == pre.push(locations@[i as int]@));
            assert(views(locations@.take(i + 1)).drop_last() == pre);
        }
        if !is_blank(locations[i].as_str()) {
            push_pair(query, owned("location"), locations[i].clone());
        }
        i = i + 1;
    }
    assert(locations@.take(locations@.len() as int) == locations@);
}

fn push_conditions(query: &mut Vec<(String, String)>, conditions: &Vec<ConditionFilter>)
    ensures
        pair_views(final(query)@) == pair_views(old(query)@) + condition_pairs(conditions@),
{
    let ghost q9 = pair_views(query@);
    let mut j: usize = 0;
    while j < conditions.len()
        invariant
            j <= conditions@.len(),
            pair_views(query@) == q9 + condition_pairs(conditions@.take(j as int)),
        decreases conditions@.len() - j,
    {
        let c = conditions[j];
        push_pair(query, owned("condition"), owned(c.as_api_value()));
        proof {
            assert(conditions@.take(j + 1) == conditions@.take(j as int).push(c));
            assert(condition_pairs(conditions@.take(j + 1)) == condition_pairs(
                conditions@.take(j as int),
            ).push(("condition"@, c.api_value())));
        }
        j = j + 1;
    }
    assert(conditions@.take(conditions@.len() as int) == conditions@);
}

fn push_raw_params(query: &mut Vec<(String, String)>, raw_params: &Vec<(String, String)>)
    ensures
        pair_views(final(query)@) == pair_views(old(query)@) + raw_pairs(pair_views(raw_params@)),
{
    let ghost q11 = pair_views(query@);
    let mut k: usize = 0;
    while k < raw_params.len()
        invariant
            k <= raw_params@.len(),
            pair_views(query@) == q11 + raw_pairs(pair_views(raw_params@.take(k as int))),
        decreases raw_params@.len() - k,
    {
        let ghost pre = pair_views(raw_params@.take(k as int));
        let ghost kv = raw_params@[k as int];
        proof {
            assert(pair_views(raw_params@.take(k + 1)) == pre.push((kv.0@, kv.1@)));
            assert(pair_views(raw_params@.take(k + 1)).drop_last() == pre);
        }
        let (key, value) = &raw_params[k];
        if !is_blank(key.as_str()) && !is_blank(value.as_str()) {
            push_pair(query, key.clone(), value.clone());
        }
        k = k + 1;
    }
    assert(raw_params@.take(raw_params@.len() as int) == raw_params@);
}

pub open spec fn opt_view(kv: Option<(String, String)>) -> Option<Pair> {
    match kv {
        Some(p) => Some((p.0@, p.1@)),
        None => None,
    }
}

fn push_opt(query: &mut Vec<(String, String)>, kv: Option<(String, String)>)
    ensures
        pair_views(final(query)@) == pair_views(old(query)@) + opt_pair(opt_view(kv)),
{
    let ghost before = pair_views(query@);
    match kv {
        Some((k, v)) => push_pair(query, k, v),
        None => {},
    }
    assert(pair_views(query@) == before + opt_pair(opt_view(kv)));
}

fn push_head(
    query: &mut Vec<(String, String)>,
    params: &SearchParams,
    page: u32,
    category: Option<&CategoryEntry>,
)
    requires
        old(query)@.len() == 0,
    ensures
        pair_views(final(query)@) === query_head(
            *params,
            page,
            match category {
                Some(c) => Some(c@),
                None => None,
            },
        ),
{
    let ghost cv = match category {
        Some(c) => Some(c@),
        None => None,
    };
    let ghost requested = page;
    let page = if page >= 1 {
        page
    } else {
        1
    };
    push_pair(query, owned("q"), params.query.clone());
    push_pair(query, owned("page"), u64_to_string(page as u64));
    assert(pair_views(query@) =~= seq![("q"@, params.query@), ("page"@, decimal(page as nat))]);
    let cat = match category {
        Some(c) => Some((c.query_param.clone(), c.value.clone())),
        None => None,
    };
    assert(opt_view(cat) == category_pair(cv));
    push_opt(query, cat);
    let sort = match params.sort {
        Some(sort) => Some((owned("sort"), owned(sort.as_api_value()))),
        None => None,
    };
    assert(opt_view(sort) == sort_pair(params.sort));
    push_opt(query, sort);
    let price_from = match params.price_from {
        Some(p) => Some((owned("price_from"), u64_to_string(p))),
        None => None,
    };
    assert(opt_view(price_from) == price_pair("price_from"@, params.price_from));
    push_opt(query, price_from);
    let price_to = match params.price_to {
        Some(p) => Some((owned("price_to"), u64_to_string(p))),
        None => None,
    };
    assert(opt_view(price_to) == price_pair("price_to"@, params.price_to));
    push_opt(query, price_to);
    let shipping = if params.shipping {
        Some((owned("shipping_types"), owned("0")))
    } else {
        None
    };
    assert(opt_view(shipping) == shipping_pair(params.shipping));
    push_opt(query, shipping);
    push_locations(query, &params.locations);
    assert(pair_views(query@) === query_head(*params, requested, cv));
}

fn push_tail(query: &mut Vec<(String, String)>, params: &SearchParams)
    ensures
        pair_views(final(query)@) === pair_views(old(query)@) + query_tail(*params),
{
    let ghost start = pair_views(query@);
    let mut tail: Vec<(String, String)> = Vec::new();
    let for_rent = match params.for_rent {
        Some(f) => Some((owned("for_rent"), owned(f.as_api_value()))),
        None => None,
    };
    assert(opt_view(for_rent) == for_rent_pair(params.for_rent));
    push_opt(&mut tail, for_rent);
    assert(pair_views(tail@) =~= opt_pair(for_rent_pair(params.for_rent)));
    let trade_type = match params.trade_type {
        Some(t) => Some((owned("trade_type"), owned(t.as_api_value()))),
        None => None,
    };
    assert(opt_view(trade_type) == trade_type_pair(params.trade_type));
    push_opt(&mut tail, trade_type);
    let dealer_segment = match params.dealer_segment {
        Some(d) => Some((owned("dealer_segment"), owned(d.as_api_value()))),
        None => None,
    };
    assert(opt_view(dealer_segment) == dealer_segment_pair(params.dealer_segment));
    push_opt(&mut tail, dealer_segment);
    push_conditions(&mut tail, &params.conditions);
    let published = if params.published_today {
        Some((owned("published"), owned("1")))
    } else {
        None
    };
    assert(opt_view(published) == published_pair(params.published_today));
    push_opt(&mut tail, published);
    push_raw_params(&mut tail, &params.raw_params);
    assert(pair_views(tail@) === query_tail(*params));
    let ghost t = tail@;
    query.append(&mut tail);
    assert(pair_views(query@) =~= start + pair_views(t));
}

/// The query parameters of a search request for page `page`.
pub fn build_search_query(
    params: &SearchParams,
    page: u32,
    category: Option<&CategoryEntry>,
) -> (query: Vec<(String, String)>)
    ensures
        pair_views(query@) == search_query(
            *params,
            page,
            match category {
                Some(c) => Some(c@),
                None => None,
            },
        ),
{
    let mut query: Vec<(String, String)> = Vec::new();
    push_head(&mut query, params, page, category);
    push_tail(&mut query, params);
    query
}

} // verus!
