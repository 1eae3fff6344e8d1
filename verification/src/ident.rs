//! Category ids, ad ids and ad addresses given on the command line.
use vstd::prelude::*;
use vstd::string::StrSliceExecFns;

use crate::error::FinnError;
use crate::model::{CategoryEntry, CategoryView};
use crate::text::{
    all_digits, find_chars, find_from, is_ascii_digit, is_digit, owned, push_str, starts_with,
    starts_with_str, to_chars, trim, trim_str, from_chars, is_ws, trim_start, trim_end,
    occurs_at, lemma_find_from,
};

verus! {

/// The text is made of digits and dots only, as category ids are.
pub open spec fn id_chars(s: Seq<char>) -> bool {
    forall|i: int| 0 <= i < s.len() ==> is_digit(#[trigger] s[i]) || s[i] == '.'
}

/// The query parameter a category id belongs to, by its prefix.
pub open spec fn id_query_param(id: Seq<char>) -> Seq<char> {
    if starts_with(id, "2."@) {
        "product_category"@
    } else if starts_with(id, "1."@) {
        "sub_category"@
    } else {
        "category"@
    }
}

/// A category given by id: the trimmed text made of digits and dots selects
/// the category with that value, under the parameter its prefix implies.
pub fn parse_category_id(input: &str) -> (r: Option<CategoryEntry>)
    ensures
        id_chars(trim(input@)) ==> (r matches Some(c) && c@ == (CategoryView {
            label: trim(input@),
            path: seq![trim(input@)],
            query_param: id_query_param(trim(input@)),
            value: trim(input@),
        })),
        !id_chars(trim(input@)) ==> r is None,
{
    let trimmed = trim_str(input);
    let chars = to_chars(trimmed.as_str());
    let mut i: usize = 0;
    while i < chars.len()
        invariant
            i <= chars@.len(),
            chars@ == trim(input@),
            forall|j: int| 0 <= j < i ==> is_digit(#[trigger] chars@[j]) || chars@[j] == '.',
        decreases chars@.len() - i,
    {
        if !(is_ascii_digit(chars[i]) || chars[i] == '.') {
            return None;
        }
        i = i + 1;
    }
    let query_param = if starts_with_str(trimmed.as_str(), "2.") {
        owned("product_category")
    } else if starts_with_str(trimmed.as_str(), "1.") {
        owned("sub_category")
    } else {
        owned("category")
    };
    let mut path: Vec<String> = Vec::new();
    path.push(trimmed.clone());
    let r = CategoryEntry {
        label: trimmed.clone(),
        path,
        query_param,
        value: trimmed,
    };
    assert(r@.path =~= seq![trim(input@)]);
    Some(r)
}

/// The run of digits at the start of `s`.
pub open spec fn leading_digits(s: Seq<char>) -> Seq<char>
    decreases s.len(),
{
    if s.len() > 0 && is_digit(s[0]) {
        seq![s[0]] + leading_digits(s.drop_first())
    } else {
        Seq::empty()
    }
}

/// `/item/`, which precedes the ad id in an ad's address.
pub open spec fn item_marker() -> Seq<char> {
    seq!['/', 'i', 't', 'e', 'm', '/']
}

/// The ad id in a text: all of the trimmed text when it is digits only,
/// else the digits right after the first `/item/`, if there are any.
pub open spec fn item_id(input: Seq<char>) -> Option<Seq<char>> {
    let t = trim(input);
    if all_digits(t) {
        Some(t)
    } else {
        match find_from(t, item_marker(), 0) {
            Some(start) => {
                let digits = leading_digits(t.skip(start + 6));
                if digits.len() > 0 {
                    Some(digits)
                } else {
                    None
                }
            },
            None => None,
        }
    }
}

/// The ad id in a plain id or an ad's address.
pub fn extract_item_id(input: &str) -> (r: Option<String>)
    ensures
        r matches Some(id) ==> item_id(input@) == Some(id@),
        r is None ==> item_id(input@) is None,
{
    let trimmed = trim_str(input);
    let t = to_chars(trimmed.as_str());
    let mut i: usize = 0;
    while i < t.len() && is_ascii_digit(t[i])
        invariant
            i <= t@.len(),
            forall|j: int| 0 <= j < i ==> is_digit(#[trigger] t@[j]),
        decreases t@.len() - i,
    {
        i = i + 1;
    }
    if i == t.len() {
        return Some(trimmed);
    }
    assert(!all_digits(t@)) by {
        assert(!is_digit(t@[i as int]));
    }
    let marker = to_chars("/item/");
    proof {
        reveal_strlit("/item/");
        assert(marker@ =~= item_marker());
    }
    let found = find_chars(&t, &marker);
    proof {
        crate::text::lemma_find_from(t@, marker@, 0);
    }
    match found {
        Some(start) => {
            let ghost rest = t@.skip(start + 6);
            let mut digits: Vec<char> = Vec::new();
            let mut j: usize = start + 6;
            assert(rest == t@.skip(j as int));
            while j < t.len() && is_ascii_digit(t[j])
                invariant
                    start + 6 <= j <= t@.len(),
                    rest == t@.skip(start + 6),
                    leading_digits(rest) == digits@ + leading_digits(t@.skip(j as int)),
                decreases t@.len() - j,
            {
                digits.push(t[j]);
                assert(t@.skip(j as int).drop_first() == t@.skip(j + 1));
                j = j + 1;
            }
            assert(leading_digits(t@.skip(j as int)).len() == 0);
            assert(leading_digits(rest) =~= digits@);
            if digits.len() > 0 {
                Some(from_chars(digits.as_slice()))
            } else {
                None
            }
        },
        None => None,
    }
}

proof fn lemma_leading_digits_all(d: Seq<char>)
    requires
        all_digits(d),
    ensures
        leading_digits(d) == d,
    decreases d.len(),
{
    if d.len() > 0 {
        let rest = d.drop_first();
        assert forall|i: int| 0 <= i < rest.len() implies is_digit(#[trigger] rest[i]) by {
            assert(rest[i] == d[i + 1]);
        }
        lemma_leading_digits_all(rest);
        assert(d =~= seq![d[0]] + rest);
    }
}

proof fn lemma_trim_unchanged(s: Seq<char>)
    requires
        s.len() > 0,
        !is_ws(s[0]),
        !is_ws(s[s.len() - 1]),
    ensures
        trim(s) == s,
{
    assert(trim_start(s) == s);
    assert(trim_end(s) == s);
}

proof fn lemma_occurs_in_prefix(q: Seq<char>, d: Seq<char>, m: Seq<char>, j: int)
    requires
        0 <= j,
        j + m.len() <= q.len(),
    ensures
        occurs_at(q + d, m, j) == occurs_at(q, m, j),
{
    assert((q + d).subrange(j, j + m.len()) =~= q.subrange(j, j + m.len()));
}

proof fn lemma_find_first(s: Seq<char>, p: Seq<char>, i: int, k: int)
    requires
        0 <= k <= i,
        occurs_at(s, p, i),
        forall|j: int| k <= j < i ==> !occurs_at(s, p, j),
    ensures
        find_from(s, p, k) == Some(i),
    decreases i - k,
{
    if k < i {
        assert(!occurs_at(s, p, k));
        lemma_find_first(s, p, i, k + 1);
    }
}

proof fn lemma_first_marker(p: Seq<char>, d: Seq<char>)
    requires
        find_from(p + item_marker(), item_marker(), 0) == Some(p.len() as int),
    ensures
        find_from(p + item_marker() + d, item_marker(), 0) == Some(p.len() as int),
{
    let m = item_marker();
    let n = p.len() as int;
    let q = p + m;
    let t = q + d;
    lemma_find_from(q, m, 0);
    assert(occurs_at(q, m, n));
    lemma_occurs_in_prefix(q, d, m, n);
    assert forall|j: int| 0 <= j < n implies !occurs_at(t, m, j) by {
        assert(!occurs_at(q, m, j));
        lemma_occurs_in_prefix(q, d, m, j);
    }
    lemma_find_first(t, m, n, 0);
}

/// An ad is found by its id alone and by an address that ends in `/item/`
/// and the id, so long as no earlier `/item/` occurs in the address: both
/// give that id.
pub proof fn law_item_id_by_id_or_address(p: Seq<char>, d: Seq<char>)
    requires
        d.len() > 0,
        all_digits(d),
        p.len() == 0 || !is_ws(p[0]),
        find_from(p + item_marker(), item_marker(), 0) == Some(p.len() as int),
    ensures
        item_id(d) == Some(d),
        item_id(p + item_marker() + d) == Some(d),
{
    let m = item_marker();
    let n = p.len() as int;
    let t = p + m + d;
    assert(is_digit(d[0]) && is_digit(d[d.len() - 1]));
    lemma_trim_unchanged(d);
    assert(t[t.len() - 1] == d[d.len() - 1]);
    assert(!is_ws(t[0])) by {
        if p.len() == 0 {
            assert(t[0] == m[0]);
        } else {
            assert(t[0] == p[0]);
        }
    }
    lemma_trim_unchanged(t);
    assert(!all_digits(t)) by {
        assert(t[n] == m[0]);
    }
    lemma_first_marker(p, d);
    assert(t.skip(n + 6) =~= d);
    lemma_leading_digits_all(d);
}

/// `base` with its trailing slashes removed.
pub open spec fn strip_trailing_slashes(base: Seq<char>) -> Seq<char>
    decreases base.len(),
{
    if base.len() > 0 && base.last() == '/' {
        strip_trailing_slashes(base.drop_last())
    } else {
        base
    }
}

/// The base address of FINN with trailing slashes removed.
pub fn normalize_base_url(base_url: &str) -> (r: String)
    ensures
        r@ == strip_trailing_slashes(base_url@),
{
    let v = to_chars(base_url);
    let mut hi: usize = v.len();
    assert(v@.take(v@.len() as int) == v@);
    while hi > 0 && v[hi - 1] == '/'
        invariant
            hi <= v@.len(),
            strip_trailing_slashes(v@) == strip_trailing_slashes(v@.take(hi as int)),
        decreases hi,
    {
        assert(v@.take(hi as int).drop_last() == v@.take(hi - 1));
        hi = hi - 1;
    }
    assert(strip_trailing_slashes(v@.take(hi as int)) == v@.take(hi as int));
    let mut kept = v;
    kept.truncate(hi);
    assert(kept@ == v@.take(hi as int));
    from_chars(kept.as_slice())
}

/// The path under which FINN serves an ad's page, before its id.
pub open spec fn item_path_prefix() -> Seq<char> {
    "/recommerce/forsale/item/"@
}

/// The address of the ad that `item` names: `item` itself (trimmed) when it
/// is an http(s) address, else the ad page under `base_url` for its ad id.
pub fn resolve_item_url(base_url: &str, item: &str) -> (r: Result<String, FinnError>)
    ensures
        trim(item@).len() == 0 ==> (r matches Err(FinnError::InvalidItemIdentifier(s)) && s@
            == item@),
        trim(item@).len() > 0 && (starts_with(trim(item@), "http://"@) || starts_with(
            trim(item@),
            "https://"@,
        )) ==> (r matches Ok(u) && u@ == trim(item@)),
        trim(item@).len() > 0 && !starts_with(trim(item@), "http://"@) && !starts_with(
            trim(item@),
            "https://"@,
        ) ==> match item_id(item@) {
            Some(id) => r matches Ok(u) && u@ == base_url@ + item_path_prefix() + id,
            None => r matches Err(FinnError::InvalidItemIdentifier(s)) && s@ == trim(item@),
        },
{
    let trimmed = trim_str(item);
    if trimmed.as_str().unicode_len() == 0 {
        return Err(FinnError::InvalidItemIdentifier(owned(item)));
    }
    if starts_with_str(trimmed.as_str(), "http://") || starts_with_str(trimmed.as_str(), "https://") {
        return Ok(trimmed);
    }
    proof {
        crate::text::lemma_trim_idempotent(item@);
    }
    match extract_item_id(trimmed.as_str()) {
        Some(id) => {
            let mut url = owned(base_url);
            push_str(&mut url, "/recommerce/forsale/item/");
            push_str(&mut url, id.as_str());
            Ok(url)
        },
        None => Err(FinnError::InvalidItemIdentifier(trimmed)),
    }
}

} // verus!
