//! Human-readable text for search results, item details and categories.
use vstd::prelude::*;

use crate::category::entry_views;
use crate::model::{
    path_sep, CategoryEntry, CategoryView, ItemDetail, Price, SearchItem, SearchResult,
};
use crate::text::{
    decimal, digit_char, join, join_strings, owned, push_char, push_str, trim_end, trim_end_str, u64_to_string,
    views, starts_with, contains, occurs_at, lemma_trim_end_concat, lemma_trim_end_idempotent, is_ws,
};

verus! {

// ---------------------------------------------------------------------
// Numbers and prices
// ---------------------------------------------------------------------

/// Digits in groups of three from the right, separated by spaces.
pub open spec fn group_digits(d: Seq<char>) -> Seq<char>
    decreases d.len(),
{
    if d.len() <= 3 {
        d
    } else {
        group_digits(d.take(d.len() - 3)) + seq![' '] + d.skip(d.len() - 3)
    }
}

/// A number as text with its digits grouped, e.g. `13 500`.
pub open spec fn number_text(n: u64) -> Seq<char> {
    group_digits(decimal(n as nat))
}

fn push_grouped(d: &Vec<char>, hi: usize, out: &mut String)
    requires
        hi <= d@.len(),
    ensures
        final(out)@ == old(out)@ + group_digits(d@.take(hi as int)),
    decreases hi,
{
    if hi <= 3 {
        let mut i: usize = 0;
        let ghost start = out@;
        while i < hi
            invariant
                i <= hi <= d@.len(),
                out@ == start + d@.take(i as int),
            decreases hi - i,
        {
            push_char(out, d[i]);
            i = i + 1;
            assert(d@.take(i as int) == d@.take(i - 1).push(d@[i - 1]));
        }
        assert(d@.take(hi as int).take(hi as int) == d@.take(hi as int));
    } else {
        push_grouped(d, hi - 3, out);
        push_char(out, ' ');
        let ghost mid = out@;
        let mut i: usize = hi - 3;
        while i < hi
            invariant
                3 < hi,
                hi - 3 <= i <= hi <= d@.len(),
                out@ == mid + d@.subrange(hi - 3, i as int),
            decreases hi - i,
        {
            assert(d@.subrange(hi - 3, i + 1) =~= d@.subrange(hi - 3, i as int).push(d@[i as int]));
            push_char(out, d[i]);
            i = i + 1;
        }
        let ghost t = d@.take(hi as int);
        assert(t.take(t.len() - 3) == d@.take(hi - 3));
        assert(t.skip(t.len() - 3) == d@.subrange(hi - 3, hi as int));
    }
}

/// A number as text with its digits in groups of three, e.g. `13 500`.
pub fn format_number(value: u64) -> (r: String)
    ensures
        r@ == number_text(value),
{
    let digits = u64_to_string(value);
    let d = crate::text::to_chars(digits.as_str());
    let mut out = String::new();
    push_grouped(&d, d.len(), &mut out);
    assert(d@.take(d@.len() as int) == d@);
    out
}

/// A price as text: the grouped amount and the unit, e.g. `13 500 kr`.
pub open spec fn price_text(p: Price) -> Seq<char> {
    number_text(p.amount) + seq![' '] + p.unit@
}

pub fn format_price(price: &Price) -> (r: String)
    ensures
        r@ == price_text(*price),
{
    let mut out = format_number(price.amount);
    push_char(&mut out, ' ');
    push_str(&mut out, price.unit.as_str());
    out
}

// ---------------------------------------------------------------------
// Categories
// ---------------------------------------------------------------------

/// `- path (param=value)` and a line break.
pub open spec fn category_line(c: CategoryView) -> Seq<char> {
    "- "@ + c.path_text() + " ("@ + c.query_param + "="@ + c.value + ")"@ + "\n"@
}

pub open spec fn category_lines(cats: Seq<CategoryView>) -> Seq<char>
    decreases cats.len(),
{
    if cats.len() == 0 {
        Seq::empty()
    } else {
        category_lines(cats.drop_last()) + category_line(cats.last())
    }
}

/// The list of categories: how many, then one line each.
pub open spec fn categories_text(cats: Seq<CategoryView>) -> Seq<char> {
    trim_end("Categories: "@ + decimal(cats.len()) + "\n"@ + category_lines(cats))
}

pub fn render_categories(categories: &[CategoryEntry]) -> (r: String)
    ensures
        r@ == categories_text(entry_views(categories@)),
{
    let mut out = owned("Categories: ");
    push_str(&mut out, u64_to_string(categories.len() as u64).as_str());
    push_str(&mut out, "\n");
    let ghost head = out@;
    let mut i: usize = 0;
    while i < categories.len()
        invariant
            i <= categories@.len(),
            out@ == head + category_lines(entry_views(categories@.take(i as int))),
        decreases categories@.len() - i,
    {
        let c = &categories[i];
        let ghost before = out@;
        push_str(&mut out, "- ");
        push_str(&mut out, c.path_string().as_str());
        push_str(&mut out, " (");
        push_str(&mut out, c.query_param.as_str());
        push_str(&mut out, "=");
        push_str(&mut out, c.value.as_str());
        push_str(&mut out, ")");
        push_str(&mut out, "\n");
        proof {
            assert(out@ =~= before + category_line(c@));
            assert(entry_views(categories@.take(i + 1)).drop_last() == entry_views(
                categories@.take(i as int),
            ));
            assert(entry_views(categories@.take(i + 1)).last() == c@);
        }
        i = i + 1;
    }
    assert(categories@.take(categories@.len() as int) == categories@);
    let r = trim_end_str(out.as_str());
    assert(entry_views(categories@).len() == categories@.len());
    r
}


/// `  n. path (param=value)` and a line break, for the suggestion numbered `n`.
pub open spec fn picker_line(n: nat, c: CategoryView) -> Seq<char> {
    "  "@ + decimal(n) + ". "@ + c.path_text() + " ("@ + c.query_param + "="@ + c.value + ")"@
        + "\n"@
}

/// The numbered lines of the suggestions, from 1 on.
pub open spec fn picker_lines(cats: Seq<CategoryView>) -> Seq<char>
    decreases cats.len(),
{
    if cats.len() == 0 {
        Seq::empty()
    } else {
        picker_lines(cats.drop_last()) + picker_line(cats.len(), cats.last())
    }
}

/// What the category picker shows: the numbered suggestions, then what an
/// answer can be, which depends on whether there is a filter.
pub open spec fn picker_text(cats: Seq<CategoryView>, filter_is_empty: bool) -> Seq<char> {
    "Select a category:\n"@ + picker_lines(cats) + if filter_is_empty {
        "Type a number, or enter filter text to narrow the list.\n"@
    } else {
        "Type a number, press Enter for #1, or enter new filter text.\n"@
    }
}

/// The text of the category picker for the listed suggestions.
pub fn render_picker(suggestions: &[CategoryEntry], filter_is_empty: bool) -> (r: String)
    ensures
        r@ == picker_text(entry_views(suggestions@), filter_is_empty),
{
    let mut out = owned("Select a category:\n");
    let ghost head = out@;
    let mut i: usize = 0;
    while i < suggestions.len()
        invariant
            i <= suggestions@.len(),
            out@ == head + picker_lines(entry_views(suggestions@.take(i as int))),
        decreases suggestions@.len() - i,
    {
        let c = &suggestions[i];
        let ghost before = out@;
        let n: usize = i + 1;
        push_str(&mut out, "  ");
        push_str(&mut out, u64_to_string(n as u64).as_str());
        push_str(&mut out, ". ");
        push_str(&mut out, c.path_string().as_str());
        push_str(&mut out, " (");
        push_str(&mut out, c.query_param.as_str());
        push_str(&mut out, "=");
        push_str(&mut out, c.value.as_str());
        push_str(&mut out, ")");
        push_str(&mut out, "\n");
        proof {
            assert(out@ =~= before + picker_line((i + 1) as nat, c@));
            assert(entry_views(suggestions@.take(i + 1)).drop_last() == entry_views(
                suggestions@.take(i as int),
            ));
            assert(entry_views(suggestions@.take(i + 1)).last() == c@);
            assert(entry_views(suggestions@.take(i + 1)).len() == i + 1);
        }
        i = i + 1;
    }
    assert(suggestions@.take(suggestions@.len() as int) == suggestions@);
    if filter_is_empty {
        push_str(&mut out, "Type a number, or enter filter text to narrow the list.\n");
    } else {
        push_str(&mut out, "Type a number, press Enter for #1, or enter new filter text.\n");
    }
    out
}


// ---------------------------------------------------------------------
// Search results
// ---------------------------------------------------------------------

pub open spec fn when(cond: bool, part: Seq<char>) -> Seq<Seq<char>> {
    if cond {
        seq![part]
    } else {
        Seq::empty()
    }
}

/// `" | "`, between the parts of a line.
pub open spec fn bar() -> Seq<char> {
    seq![' ', '|', ' ']
}

/// `", "`, between the entries of a list.
pub open spec fn comma() -> Seq<char> {
    seq![',', ' ']
}

/// The details shown under an ad: when it was published, its labels, its
/// flags and its brand, each when present.
pub open spec fn published_part(item: SearchItem) -> Seq<Seq<char>> {
    match item.published_at {
        Some(p) => seq!["published "@ + p@],
        None => Seq::empty(),
    }
}

pub open spec fn item_details(item: SearchItem) -> Seq<Seq<char>> {
    published_part(item) + when(item.labels@.len() > 0, "labels: "@ + join(views(item.labels@), comma())) + when(
        item.flags@.len() > 0,
        "flags: "@ + join(views(item.flags@), comma()),
    ) + (match item.brand {
        Some(b) => seq!["brand: "@ + b@],
        None => Seq::empty(),
    })
}

pub open spec fn price_part(item: SearchItem) -> Seq<char> {
    match item.price {
        Some(p) => price_text(p),
        None => "Unknown price"@,
    }
}

pub open spec fn location_part(item: SearchItem) -> Seq<char> {
    match item.location {
        Some(l) => l@,
        None => "Unknown location"@,
    }
}

pub open spec fn trade_type_part(item: SearchItem) -> Seq<char> {
    match item.trade_type {
        Some(t) => t@,
        None => "Unknown trade type"@,
    }
}

/// The block for the `n`-th ad of a result.
pub open spec fn item_block(item: SearchItem, n: nat) -> Seq<char> {
    let price = price_part(item);
    let location = location_part(item);
    let trade_type = trade_type_part(item);
    let details = item_details(item);
    "\n"@ + decimal(n) + ". "@ + item.title@ + "\n"@ + "   "@ + price + bar() + location + bar()
        + trade_type + "\n"@ + "   "@ + item.url@ + "\n"@ + if details.len() > 0 {
        "   "@ + join(details, bar()) + "\n"@
    } else {
        Seq::empty()
    }
}

pub open spec fn item_blocks(items: Seq<SearchItem>) -> Seq<char>
    decreases items.len(),
{
    if items.len() == 0 {
        Seq::empty()
    } else {
        item_blocks(items.drop_last()) + item_block(items.last(), items.len())
    }
}

/// The head of a search result: its title, the counts, the pages fetched
/// when more than one, and the marketplace when known.
pub open spec fn heading(r: SearchResult) -> Seq<char> {
    match r.title {
        Some(t) => t@,
        None => r.query@,
    }
}

pub open spec fn search_head(r: SearchResult) -> Seq<char> {
    top_lines(r) + "\n"@ + fetched_part(r) + market_part(r)
}

/// A search result as text.
pub open spec fn search_text(r: SearchResult) -> Seq<char> {
    trim_end(search_head(r) + item_blocks(r.items@))
}

/// The second line of a search result: the counts.
pub open spec fn counts_line(r: SearchResult) -> Seq<char> {
    "Matches: "@ + number_text(r.total_matches) + " | Page "@ + decimal(r.current_page as nat)
        + "/"@ + decimal(r.last_page as nat) + " | Showing "@ + decimal(r.returned_items as nat)
        + " items"@
}

/// The line that names the pages fetched.
pub open spec fn fetched_pages_line(r: SearchResult) -> Seq<char> {
    "Fetched pages: "@ + decimal(r.fetched_from_page as nat) + "-"@ + decimal(
        r.fetched_to_page as nat,
    ) + " ("@ + decimal(r.fetched_pages as nat) + " total)"@
}

/// The line that begins the block of the `n`-th ad.
pub open spec fn item_title_line(item: SearchItem, n: nat) -> Seq<char> {
    decimal(n) + ". "@ + item.title@
}

proof fn lemma_item_blocks_prefix(items: Seq<SearchItem>, k: int)
    requires
        0 <= k <= items.len(),
    ensures
        item_blocks(items) == item_blocks(items.take(k)) + item_blocks(items).skip(
            item_blocks(items.take(k)).len() as int,
        ),
    decreases items.len() - k,
{
    if k < items.len() {
        lemma_item_blocks_prefix(items, k + 1);
        assert(items.take(k + 1).drop_last() == items.take(k));
        let a = item_blocks(items.take(k));
        let b = item_blocks(items.take(k + 1));
        assert(b == a + item_block(items[k], (k + 1) as nat));
        assert(item_blocks(items) =~= a + item_blocks(items).skip(a.len() as int));
    } else {
        assert(items.take(k) == items);
        assert(item_blocks(items).skip(item_blocks(items).len() as int) =~= Seq::<char>::empty());
    }
}

/// The block of an ad, split after the ` |` that follows its price: the
/// part before that point ends in a character that is not whitespace.
#[verifier::spinoff_prover]
proof fn lemma_item_block_head(item: SearchItem, n: nat)
    ensures
        item_block(item, n) == "\n"@ + item_title_line(item, n) + "\n"@ + "   "@ + price_part(item)
            + " |"@ + item_block(item, n).skip(
            ("\n"@ + item_title_line(item, n) + "\n"@ + "   "@ + price_part(item) + " |"@).len() as int,
        ),
{
    reveal_strlit("\n");
    reveal_strlit("   ");
    reveal_strlit(" |");
    reveal_strlit(". ");
    let h = "\n"@ + item_title_line(item, n) + "\n"@ + "   "@ + price_part(item) + " |"@;
    assert(bar() == " |"@ + seq![' ']);
    assert(item_block(item, n) =~= h + item_block(item, n).skip(h.len() as int));
}

/// The first two lines of a search result, without the line break after.
pub open spec fn top_lines(r: SearchResult) -> Seq<char> {
    "Search: "@ + heading(r) + "\n"@ + counts_line(r)
}

pub open spec fn fetched_part(r: SearchResult) -> Seq<char> {
    if r.fetched_pages > 1 {
        fetched_pages_line(r) + "\n"@
    } else {
        Seq::empty()
    }
}

pub open spec fn market_part(r: SearchResult) -> Seq<char> {
    match r.marketplace {
        Some(m) => "Marketplace: "@ + m@ + "\n"@,
        None => Seq::empty(),
    }
}

/// What follows the first two lines of a search result, before trimming.
pub open spec fn after_top(r: SearchResult) -> Seq<char> {
    "\n"@ + fetched_part(r) + market_part(r) + item_blocks(r.items@)
}

#[verifier::spinoff_prover]
proof fn lemma_layout_top(r: SearchResult)
    ensures
        search_text(r) == top_lines(r) + trim_end(after_top(r)),
        search_head(r) + item_blocks(r.items@) == top_lines(r) + after_top(r),
{
    reveal_strlit(" items");
    let top = top_lines(r);
    assert(search_head(r) + item_blocks(r.items@) =~= top + after_top(r));
    assert(top.last() == counts_line(r).last());
    assert(counts_line(r).last() == 's');
    lemma_trim_end_concat(top, after_top(r));
}

#[verifier::spinoff_prover]
proof fn lemma_layout_fetched(r: SearchResult)
    requires
        r.fetched_pages > 1,
    ensures
        starts_with(trim_end(after_top(r)), "\n"@ + fetched_pages_line(r)),
{
    reveal_strlit(" total)");
    let rest = after_top(r);
    let a = "\n"@ + fetched_pages_line(r);
    let b = "\n"@ + market_part(r) + item_blocks(r.items@);
    assert(a.last() == ')');
    assert(rest =~= a + b);
    lemma_trim_end_concat(a, b);
    assert(trim_end(rest).take(a.len() as int) =~= a);
}

#[verifier::spinoff_prover]
proof fn lemma_layout_market(r: SearchResult, m: String)
    requires
        r.fetched_pages <= 1,
        r.marketplace == Some(m),
    ensures
        starts_with(trim_end(after_top(r)), "\nMarketplace:"@),
{
    reveal_strlit("\n");
    reveal_strlit("Marketplace: ");
    reveal_strlit("\nMarketplace:");
    let rest = after_top(r);
    let a = "\nMarketplace:"@;
    let b = seq![' '] + m@ + "\n"@ + item_blocks(r.items@);
    assert(rest =~= a + b);
    assert(a.last() == ':');
    lemma_trim_end_concat(a, b);
    assert(trim_end(rest).take(a.len() as int) =~= a);
}

#[verifier::spinoff_prover]
proof fn lemma_layout_first_item(r: SearchResult)
    requires
        r.fetched_pages <= 1,
        r.marketplace is None,
        r.items@.len() > 0,
    ensures
        starts_with(trim_end(after_top(r)), "\n\n"@),
{
    reveal_strlit("\n");
    reveal_strlit("\n\n");
    reveal_strlit(" |");
    let items = r.items@;
    let blocks = item_blocks(items);
    let rest = after_top(r);
    lemma_item_blocks_prefix(items, 1);
    assert(items.take(1).drop_last() =~= Seq::<SearchItem>::empty());
    assert(items.take(1).last() == items[0]);
    let b0 = item_block(items[0], 1);
    assert(item_blocks(items.take(1).drop_last()) =~= Seq::<char>::empty());
    assert(item_blocks(items.take(1)) =~= b0);
    lemma_item_block_head(items[0], 1);
    let h = "\n"@ + item_title_line(items[0], 1) + "\n"@ + "   "@ + price_part(items[0]) + " |"@;
    let a = "\n"@ + h;
    assert(a.last() == '|');
    let b = b0.skip(h.len() as int) + blocks.skip(b0.len() as int);
    assert(rest =~= a + b);
    lemma_trim_end_concat(a, b);
    assert(a[0] == '\n');
    assert(a[1] == h[0]);
    assert(trim_end(rest).take(2) =~= "\n\n"@);
}

proof fn lemma_layout_nothing_more(r: SearchResult)
    requires
        r.fetched_pages <= 1,
        r.marketplace is None,
        r.items@.len() == 0,
    ensures
        trim_end(after_top(r)).len() == 0,
{
    reveal_strlit("\n");
    assert(after_top(r) =~= seq!['\n']);
    assert(is_ws('\n'));
    assert(seq!['\n'].drop_last() =~= Seq::<char>::empty());
    reveal_with_fuel(trim_end, 2);
}

proof fn lemma_layout_third(r: SearchResult)
    ensures
        r.fetched_pages > 1 ==> starts_with(trim_end(after_top(r)), "\n"@ + fetched_pages_line(r)),
        r.fetched_pages <= 1 ==> {
            ||| trim_end(after_top(r)).len() == 0
            ||| starts_with(trim_end(after_top(r)), "\nMarketplace:"@)
            ||| starts_with(trim_end(after_top(r)), "\n\n"@)
        },
{
    if r.fetched_pages > 1 {
        lemma_layout_fetched(r);
    } else {
        match r.marketplace {
            Some(m) => lemma_layout_market(r, m),
            None => {
                if r.items@.len() == 0 {
                    lemma_layout_nothing_more(r);
                } else {
                    lemma_layout_first_item(r);
                }
            },
        }
    }
}

#[verifier::spinoff_prover]
#[verifier::rlimit(40)]
proof fn lemma_layout_item(r: SearchResult, i: int)
    requires
        0 <= i < r.items@.len(),
    ensures
        contains(search_text(r), "\n"@ + item_title_line(r.items@[i], (i + 1) as nat) + "\n"@),
{
    reveal_strlit("\n");
    reveal_strlit(" |");
    let items = r.items@;
    let line = "\n"@ + item_title_line(items[i], (i + 1) as nat) + "\n"@;
    lemma_item_blocks_prefix(items, i);
    lemma_item_blocks_prefix(items, i + 1);
    assert(items.take(i + 1).drop_last() == items.take(i));
    assert(items.take(i + 1).last() == items[i]);
    let before = item_blocks(items.take(i));
    let bi = item_block(items[i], (i + 1) as nat);
    assert(item_blocks(items.take(i + 1)) == before + bi);
    lemma_item_block_head(items[i], (i + 1) as nat);
    let h = "\n"@ + item_title_line(items[i], (i + 1) as nat) + "\n"@ + "   "@ + price_part(items[i])
        + " |"@;
    let blocks = item_blocks(items);
    let head = top_lines(r) + "\n"@ + fetched_part(r) + market_part(r) + before;
    let pre = head + h;
    let tail = bi.skip(h.len() as int) + blocks.skip((before + bi).len() as int);
    assert(blocks =~= before + bi + blocks.skip((before + bi).len() as int));
    lemma_layout_top(r);
    assert(search_head(r) + blocks =~= pre + tail);
    assert(pre.last() == '|');
    lemma_trim_end_concat(pre, tail);
    let out = search_text(r);
    let pos = head.len() as int;
    assert(out.subrange(pos, pos + line.len()) =~= line);
    assert(occurs_at(out, line, pos));
}

/// The layout of a search result: its first line is `Search: ` and the
/// title (or the search text), its second line the counts; its third line
/// names the pages fetched when more than one page was, and otherwise is
/// the marketplace line, a blank line before the first ad, or absent; each
/// ad's block has the line `n. title`; and the text has no trailing
/// whitespace.
pub proof fn law_search_text_layout(r: SearchResult)
    ensures
        ({
            let out = search_text(r);
            let top = top_lines(r);
            &&& starts_with(out, "Search: "@ + heading(r) + "\n"@)
            &&& starts_with(out, top)
            &&& r.fetched_pages > 1 ==> starts_with(
                out.skip(top.len() as int),
                "\n"@ + fetched_pages_line(r),
            )
            &&& r.fetched_pages <= 1 ==> {
                ||| out.skip(top.len() as int).len() == 0
                ||| starts_with(out.skip(top.len() as int), "\nMarketplace:"@)
                ||| starts_with(out.skip(top.len() as int), "\n\n"@)
            }
            &&& forall|i: int|
                0 <= i < r.items@.len() ==> contains(
                    out,
                    "\n"@ + item_title_line(#[trigger] r.items@[i], (i + 1) as nat) + "\n"@,
                )
            &&& trim_end(out) == out
        }),
{
    let out = search_text(r);
    let top = top_lines(r);
    lemma_layout_top(r);
    lemma_layout_third(r);
    assert(out.skip(top.len() as int) =~= trim_end(after_top(r)));
    assert(out.take(top.len() as int) =~= top);
    let first = "Search: "@ + heading(r) + "\n"@;
    assert(out.take(first.len() as int) =~= first);
    assert forall|i: int| 0 <= i < r.items@.len() implies contains(
        out,
        "\n"@ + item_title_line(#[trigger] r.items@[i], (i + 1) as nat) + "\n"@,
    ) by {
        lemma_layout_item(r, i);
    }
    lemma_trim_end_idempotent(search_head(r) + item_blocks(r.items@));
}

/// `s` holds no line break.
pub open spec fn no_newline(s: Seq<char>) -> bool {
    forall|i: int| 0 <= i < s.len() ==> s[i] != '\n'
}

/// No line of `s` after the first begins with `c`.
#[verifier::opaque]
pub open spec fn no_later_line_begins_with(s: Seq<char>, c: char) -> bool {
    forall|k: int| 0 < k < s.len() && s[k - 1] == '\n' ==> #[trigger] s[k] != c
}

/// Some line of `s` begins with `p`.
pub open spec fn has_line_starting(s: Seq<char>, p: Seq<char>) -> bool {
    exists|k: int|
        0 <= k < s.len() && (k == 0 || s[k - 1] == '\n') && #[trigger] starts_with(s.skip(k), p)
}

/// The texts of an ad that a search result shows hold no line break.
pub open spec fn item_fields_without_newline(item: SearchItem) -> bool {
    &&& no_newline(item.title@)
    &&& no_newline(item.url@)
    &&& (item.location matches Some(l) ==> no_newline(l@))
    &&& (item.trade_type matches Some(t) ==> no_newline(t@))
    &&& (item.price matches Some(p) ==> no_newline(p.unit@))
    &&& (item.published_at matches Some(t) ==> no_newline(t@))
    &&& (item.brand matches Some(b) ==> no_newline(b@))
    &&& forall|i: int| 0 <= i < item.labels@.len() ==> no_newline(#[trigger] item.labels@[i]@)
    &&& forall|i: int| 0 <= i < item.flags@.len() ==> no_newline(#[trigger] item.flags@[i]@)
}

/// The texts that a search result shows hold no line break.
pub open spec fn fields_without_newline(r: SearchResult) -> bool {
    &&& no_newline(heading(r))
    &&& (r.marketplace matches Some(m) ==> no_newline(m@))
    &&& forall|i: int| 0 <= i < r.items@.len() ==> item_fields_without_newline(#[trigger] r.items@[i])
}

proof fn lemma_lines_concat(a: Seq<char>, b: Seq<char>, c: char)
    requires
        no_later_line_begins_with(a, c),
        no_later_line_begins_with(b, c),
        a.len() > 0 && a.last() == '\n' && b.len() > 0 ==> b[0] != c,
    ensures
        no_later_line_begins_with(a + b, c),
        b.len() > 0 ==> (a + b).last() == b.last(),
        a.len() > 0 ==> (a + b)[0] == a[0],
{
    reveal(no_later_line_begins_with);
    let s = a + b;
    assert forall|k: int| 0 < k < s.len() && s[k - 1] == '\n' implies #[trigger] s[k] != c by {
        if k < a.len() {
            assert(s[k] == a[k] && s[k - 1] == a[k - 1]);
        } else if k == a.len() {
            assert(s[k - 1] == a.last());
            assert(s[k] == b[0]);
        } else {
            assert(s[k] == b[k - a.len()] && s[k - 1] == b[k - 1 - a.len()]);
        }
    }
}

proof fn lemma_lines_short(s: Seq<char>, c: char)
    requires
        s.len() <= 1,
    ensures
        no_later_line_begins_with(s, c),
{
    reveal(no_later_line_begins_with);
}

proof fn lemma_lines_flat(s: Seq<char>, c: char)
    requires
        no_newline(s),
    ensures
        no_later_line_begins_with(s, c),
{
    reveal(no_later_line_begins_with);
}

proof fn lemma_no_newline_concat(a: Seq<char>, b: Seq<char>)
    requires
        no_newline(a),
        no_newline(b),
    ensures
        no_newline(a + b),
{
    assert forall|i: int| 0 <= i < (a + b).len() implies (a + b)[i] != '\n' by {
        if i < a.len() {
            assert((a + b)[i] == a[i]);
        } else {
            assert((a + b)[i] == b[i - a.len()]);
        }
    }
}

proof fn lemma_decimal_chars(n: nat)
    ensures
        decimal(n).len() > 0,
        forall|i: int| 0 <= i < decimal(n).len() ==> '0' <= #[trigger] decimal(n)[i] <= '9',
    decreases n,
{
    if n >= 10 {
        lemma_decimal_chars(n / 10);
        let prev = decimal(n / 10);
        assert forall|i: int| 0 <= i < decimal(n).len() implies '0' <= #[trigger] decimal(n)[i] <= '9' by {
            if i < prev.len() {
                assert(decimal(n)[i] == prev[i]);
            }
        }
    }
}

proof fn lemma_grouped_chars(d: Seq<char>)
    requires
        forall|i: int| 0 <= i < d.len() ==> d[i] != '\n',
    ensures
        no_newline(group_digits(d)),
    decreases d.len(),
{
    if d.len() > 3 {
        let head = d.take(d.len() - 3);
        lemma_grouped_chars(head);
        let tail = d.skip(d.len() - 3);
        assert(no_newline(tail));
        lemma_no_newline_concat(group_digits(head), seq![' ']);
        lemma_no_newline_concat(group_digits(head) + seq![' '], tail);
    }
}

proof fn lemma_number_text_plain(n: u64)
    ensures
        no_newline(number_text(n)),
{
    lemma_decimal_chars(n as nat);
    lemma_grouped_chars(decimal(n as nat));
}

proof fn lemma_join_plain(parts: Seq<Seq<char>>, sep: Seq<char>)
    requires
        forall|i: int| 0 <= i < parts.len() ==> no_newline(#[trigger] parts[i]),
        no_newline(sep),
    ensures
        no_newline(join(parts, sep)),
{
    let p = |c: char| c != '\n';
    assert forall|i: int, j: int| 0 <= i < parts.len() && 0 <= j < parts[i].len() implies p(
        #[trigger] parts[i][j],
    ) by {
        assert(no_newline(parts[i]));
    }
    assert forall|j: int| 0 <= j < sep.len() implies p(#[trigger] sep[j]) by {}
    crate::text::lemma_join_chars(parts, sep, p);
}

proof fn lemma_details_plain(item: SearchItem)
    requires
        item_fields_without_newline(item),
    ensures
        forall|i: int| 0 <= i < item_details(item).len() ==> no_newline(#[trigger] item_details(item)[i]),
{
    reveal_strlit("published ");
    reveal_strlit("labels: ");
    reveal_strlit("flags: ");
    reveal_strlit("brand: ");
    let lab = views(item.labels@);
    let fl = views(item.flags@);
    assert forall|i: int| 0 <= i < lab.len() implies no_newline(#[trigger] lab[i]) by {
        assert(lab[i] == item.labels@[i]@);
    }
    assert forall|i: int| 0 <= i < fl.len() implies no_newline(#[trigger] fl[i]) by {
        assert(fl[i] == item.flags@[i]@);
    }
    assert(no_newline(comma()));
    lemma_join_plain(lab, comma());
    lemma_join_plain(fl, comma());
    lemma_no_newline_concat("labels: "@, join(lab, comma()));
    lemma_no_newline_concat("flags: "@, join(fl, comma()));
    let pp = published_part(item);
    let lp = when(item.labels@.len() > 0, "labels: "@ + join(lab, comma()));
    let fp = when(item.flags@.len() > 0, "flags: "@ + join(fl, comma()));
    let bp = match item.brand {
        Some(b) => seq!["brand: "@ + b@],
        None => Seq::<Seq<char>>::empty(),
    };
    match item.published_at {
        Some(t) => lemma_no_newline_concat("published "@, t@),
        None => {},
    }
    match item.brand {
        Some(b) => lemma_no_newline_concat("brand: "@, b@),
        None => {},
    }
    let d = item_details(item);
    assert(d == pp + lp + fp + bp);
    assert forall|i: int| 0 <= i < d.len() implies no_newline(#[trigger] d[i]) by {
        let n1 = pp.len();
        let n2 = n1 + lp.len();
        let n3 = n2 + fp.len();
        if i < n1 {
            assert(d[i] == pp[i]);
        } else if i < n2 {
            assert(d[i] == lp[i - n1]);
        } else if i < n3 {
            assert(d[i] == fp[i - n2]);
        } else {
            assert(d[i] == bp[i - n3]);
        }
    }
}

proof fn lemma_price_plain(item: SearchItem)
    requires
        item_fields_without_newline(item),
    ensures
        no_newline(price_part(item)),
        no_newline(location_part(item)),
        no_newline(trade_type_part(item)),
{
    reveal_strlit("Unknown price");
    reveal_strlit("Unknown location");
    reveal_strlit("Unknown trade type");
    match item.price {
        Some(p) => {
            lemma_number_text_plain(p.amount);
            lemma_no_newline_concat(number_text(p.amount), seq![' ']);
            lemma_no_newline_concat(number_text(p.amount) + seq![' '], p.unit@);
        },
        None => {},
    }
}

/// The block of an ad has no later line that begins with `F`; it begins and
/// ends with a line break.
#[verifier::spinoff_prover]
proof fn lemma_item_block_lines(item: SearchItem, n: nat)
    requires
        item_fields_without_newline(item),
    ensures
        no_later_line_begins_with(item_block(item, n), 'F'),
        item_block(item, n).len() > 0,
        item_block(item, n)[0] == '\n',
        item_block(item, n).last() == '\n',
{
    reveal_strlit("\n");
    reveal_strlit(". ");
    reveal_strlit("   ");
    let c = 'F';
    let price = price_part(item);
    let location = location_part(item);
    let trade_type = trade_type_part(item);
    let details = item_details(item);
    lemma_price_plain(item);
    lemma_details_plain(item);
    lemma_decimal_chars(n);
    let nl = "\n"@;
    assert(nl == seq!['\n']);
    let sp = "   "@;
    assert(sp == seq![' ', ' ', ' ']);
    lemma_lines_short(nl, c);
    lemma_lines_flat(decimal(n), c);
    lemma_lines_flat(". "@, c);
    lemma_lines_flat(item.title@, c);
    lemma_lines_flat(sp, c);
    lemma_lines_flat(price, c);
    lemma_lines_flat(bar(), c);
    lemma_lines_flat(location, c);
    lemma_lines_flat(trade_type, c);
    lemma_lines_flat(item.url@, c);
    let a1 = nl + decimal(n);
    lemma_lines_concat(nl, decimal(n), c);
    let a2 = a1 + ". "@;
    lemma_lines_concat(a1, ". "@, c);
    let a3 = a2 + item.title@;
    lemma_lines_concat(a2, item.title@, c);
    let a4 = a3 + nl;
    lemma_lines_concat(a3, nl, c);
    let a5 = a4 + sp;
    lemma_lines_concat(a4, sp, c);
    let a6 = a5 + price;
    lemma_lines_concat(a5, price, c);
    let a7 = a6 + bar();
    lemma_lines_concat(a6, bar(), c);
    let a8 = a7 + location;
    lemma_lines_concat(a7, location, c);
    let a9 = a8 + bar();
    lemma_lines_concat(a8, bar(), c);
    let a10 = a9 + trade_type;
    lemma_lines_concat(a9, trade_type, c);
    let a11 = a10 + nl;
    lemma_lines_concat(a10, nl, c);
    let a12 = a11 + sp;
    lemma_lines_concat(a11, sp, c);
    let a13 = a12 + item.url@;
    lemma_lines_concat(a12, item.url@, c);
    let a14 = a13 + nl;
    lemma_lines_concat(a13, nl, c);
    let tail = if details.len() > 0 {
        sp + join(details, bar()) + nl
    } else {
        Seq::empty()
    };
    if details.len() > 0 {
        lemma_join_plain(details, bar());
        lemma_lines_flat(join(details, bar()), c);
        lemma_lines_concat(sp, join(details, bar()), c);
        lemma_lines_concat(sp + join(details, bar()), nl, c);
    }
    if details.len() == 0 {
        lemma_lines_flat(tail, c);
    }
    lemma_lines_concat(a14, tail, c);
    assert(item_block(item, n) == a14 + tail);
}

proof fn lemma_item_blocks_lines(items: Seq<SearchItem>)
    requires
        forall|i: int| 0 <= i < items.len() ==> item_fields_without_newline(#[trigger] items[i]),
    ensures
        no_later_line_begins_with(item_blocks(items), 'F'),
        item_blocks(items).len() > 0 ==> item_blocks(items)[0] == '\n' && item_blocks(items).last()
            == '\n',
    decreases items.len(),
{
    if items.len() == 0 {
        lemma_lines_short(item_blocks(items), 'F');
    } else {
        let prev = items.drop_last();
        assert forall|i: int| 0 <= i < prev.len() implies item_fields_without_newline(#[trigger] prev[i]) by {
            assert(prev[i] == items[i]);
        }
        lemma_item_blocks_lines(prev);
        assert(items.last() == items[items.len() - 1]);
        lemma_item_block_lines(items.last(), items.len());
        lemma_lines_concat(item_blocks(prev), item_block(items.last(), items.len()), 'F');
    }
}

proof fn lemma_counts_plain(r: SearchResult)
    ensures
        no_newline(counts_line(r)),
        counts_line(r)[0] == 'M',
{
    reveal_strlit("Matches: ");
    reveal_strlit(" | Page ");
    reveal_strlit("/");
    reveal_strlit(" | Showing ");
    reveal_strlit(" items");
    lemma_number_text_plain(r.total_matches);
    lemma_decimal_chars(r.current_page as nat);
    lemma_decimal_chars(r.last_page as nat);
    lemma_decimal_chars(r.returned_items as nat);
    let x1 = "Matches: "@ + number_text(r.total_matches);
    lemma_no_newline_concat("Matches: "@, number_text(r.total_matches));
    lemma_no_newline_concat(x1, " | Page "@);
    let x2 = x1 + " | Page "@;
    lemma_no_newline_concat(x2, decimal(r.current_page as nat));
    let x3 = x2 + decimal(r.current_page as nat);
    lemma_no_newline_concat(x3, "/"@);
    let x4 = x3 + "/"@;
    lemma_no_newline_concat(x4, decimal(r.last_page as nat));
    let x5 = x4 + decimal(r.last_page as nat);
    lemma_no_newline_concat(x5, " | Showing "@);
    let x6 = x5 + " | Showing "@;
    lemma_no_newline_concat(x6, decimal(r.returned_items as nat));
    let x7 = x6 + decimal(r.returned_items as nat);
    lemma_no_newline_concat(x7, " items"@);
    assert(counts_line(r) == x7 + " items"@);
    assert(counts_line(r)[0] == "Matches: "@[0]);
}

/// With its texts free of line breaks, a search result's untrimmed text
/// has no later line that begins with `F` when at most one page was fetched.
#[verifier::spinoff_prover]
proof fn lemma_search_lines(r: SearchResult)
    requires
        fields_without_newline(r),
        r.fetched_pages <= 1,
    ensures
        no_later_line_begins_with(search_head(r) + item_blocks(r.items@), 'F'),
{
    reveal_strlit("Search: ");
    reveal_strlit("\n");
    reveal_strlit("Marketplace: ");
    let c = 'F';
    let nl = "\n"@;
    assert(nl == seq!['\n']);
    lemma_counts_plain(r);
    let h = "Search: "@ + heading(r);
    lemma_no_newline_concat("Search: "@, heading(r));
    lemma_lines_flat(h, c);
    lemma_lines_short(nl, c);
    lemma_lines_flat(counts_line(r), c);
    let t1 = h + nl;
    lemma_lines_concat(h, nl, c);
    let top = t1 + counts_line(r);
    lemma_lines_concat(t1, counts_line(r), c);
    assert(top == top_lines(r));
    let t2 = top + nl;
    lemma_lines_concat(top, nl, c);
    assert(fetched_part(r) == Seq::<char>::empty());
    assert(t2 + fetched_part(r) == t2);
    let m = market_part(r);
    match r.marketplace {
        Some(mk) => {
            lemma_no_newline_concat("Marketplace: "@, mk@);
            lemma_lines_flat("Marketplace: "@ + mk@, c);
            lemma_lines_concat("Marketplace: "@ + mk@, nl, c);
        },
        None => {
            lemma_lines_short(m, c);
        },
    }
    lemma_lines_concat(t2, m, c);
    let t3 = t2 + m;
    lemma_item_blocks_lines(r.items@);
    lemma_lines_concat(t3, item_blocks(r.items@), c);
    assert(search_head(r) == t2 + fetched_part(r) + m);
}

/// With its texts free of line breaks, a search result has a line that
/// begins with `Fetched pages:` exactly when more than one page was fetched;
/// when more than one was, that line is `Fetched pages: a-b (n total)`.
pub proof fn law_fetched_pages_line(r: SearchResult)
    ensures
        r.fetched_pages > 1 ==> has_line_starting(search_text(r), fetched_pages_line(r)),
        r.fetched_pages > 1 ==> has_line_starting(search_text(r), "Fetched pages:"@),
        fields_without_newline(r) && r.fetched_pages <= 1 ==> !has_line_starting(
            search_text(r),
            "Fetched pages:"@,
        ),
{
    reveal_strlit("\n");
    reveal_strlit("Fetched pages: ");
    reveal_strlit("Fetched pages:");
    reveal_strlit("Search: ");
    let out = search_text(r);
    let top = top_lines(r);
    law_search_text_layout(r);
    if r.fetched_pages > 1 {
        let k: int = top.len() as int + 1;
        let rest = out.skip(top.len() as int);
        let line = fetched_pages_line(r);
        let pl = "\n"@ + line;
        assert(starts_with(rest, pl));
        assert(rest.take(pl.len() as int) == pl);
        assert(pl[0] == '\n');
        assert(rest[0] == rest.take(pl.len() as int)[0]);
        assert(out[k - 1] == rest[0]);
        assert(out.skip(k) =~= rest.skip(1));
        assert forall|i: int| 0 <= i < line.len() implies rest.skip(1)[i] == line[i] by {
            assert(rest.skip(1)[i] == rest[i + 1]);
            assert(rest[i + 1] == rest.take(pl.len() as int)[i + 1]);
            assert(pl[i + 1] == line[i]);
        }
        assert(rest.skip(1).take(line.len() as int) =~= line);
        assert(starts_with(out.skip(k), line));
        assert(line.take(14) =~= "Fetched pages:"@);
        assert(out.skip(k).take(14) =~= "Fetched pages:"@) by {
            assert forall|i: int| 0 <= i < 14 implies out.skip(k)[i] == line[i] by {
                assert(out.skip(k).take(line.len() as int)[i] == out.skip(k)[i]);
            }
        }
        assert(k < out.len());
        assert(starts_with(out.skip(k), "Fetched pages:"@));
        assert(has_line_starting(out, "Fetched pages:"@));
    }
    if fields_without_newline(r) && r.fetched_pages <= 1 {
        let whole = search_head(r) + item_blocks(r.items@);
        lemma_search_lines(r);
        lemma_layout_top(r);
        crate::text::lemma_trim_end_shape(whole);
        assert(out == trim_end(whole));
        reveal(no_later_line_begins_with);
        if has_line_starting(out, "Fetched pages:"@) {
            let k = choose|k: int|
                0 <= k < out.len() && (k == 0 || out[k - 1] == '\n') && #[trigger] starts_with(
                    out.skip(k),
                    "Fetched pages:"@,
                );
            assert(out.skip(k)[0] == "Fetched pages:"@[0]);
            assert(out[k] == 'F');
            if k == 0 {
                assert(out.take(8) == "Search: "@);
                assert(out[0] == 'S');
            } else {
                assert(out[k] == whole[k]);
                assert(out[k - 1] == whole[k - 1]);
                assert(whole[k] != 'F');
            }
        }
    }
}

fn push_list(out: &mut Vec<String>, label: &str, items: &Vec<String>)
    ensures
        views(final(out)@) == views(old(out)@) + when(
            items@.len() > 0,
            label@ + join(views(items@), comma()),
        ),
{
    if items.len() > 0 {
        let mut part = owned(label);
        let sep = ", ";
        proof {
            reveal_strlit(", ");
            assert(sep@ =~= comma());
        }
        push_str(&mut part, join_strings(items, sep).as_str());
        let ghost before = out@;
        out.push(part);
        assert(views(out@) =~= views(before) + when(
            items@.len() > 0,
            label@ + join(views(items@), comma()),
        ));
    } else {
        assert(views(out@) =~= views(out@) + when(
            items@.len() > 0,
            label@ + join(views(items@), comma()),
        ));
    }
}

fn details_of(item: &SearchItem) -> (r: Vec<String>)
    ensures
        views(r@) == item_details(*item),
{
    let mut details: Vec<String> = Vec::new();
    match &item.published_at {
        Some(p) => {
            let mut part = owned("published ");
            push_str(&mut part, p.as_str());
            details.push(part);
        },
        None => {},
    }
    let ghost d0 = views(details@);
    push_list(&mut details, "labels: ", &item.labels);
    push_list(&mut details, "flags: ", &item.flags);
    let ghost d2 = views(details@);
    match &item.brand {
        Some(b) => {
            let mut part = owned("brand: ");
            push_str(&mut part, b.as_str());
            details.push(part);
            assert(views(details@) =~= d2 + seq!["brand: "@ + b@]);
        },
        None => {
            assert(views(details@) =~= d2 + Seq::<Seq<char>>::empty());
        },
    }
    assert(d0 =~= published_part(*item));
    assert(views(details@) === item_details(*item));
    details
}

fn price_part_of(item: &SearchItem) -> (r: String)
    ensures
        r@ == price_part(*item),
{
    match &item.price {
        Some(p) => format_price(p),
        None => owned("Unknown price"),
    }
}

fn location_part_of(item: &SearchItem) -> (r: String)
    ensures
        r@ == location_part(*item),
{
    match &item.location {
        Some(l) => l.clone(),
        None => owned("Unknown location"),
    }
}

fn trade_type_part_of(item: &SearchItem) -> (r: String)
    ensures
        r@ == trade_type_part(*item),
{
    match &item.trade_type {
        Some(t) => t.clone(),
        None => owned("Unknown trade type"),
    }
}

fn bar_str() -> (r: &'static str)
    ensures
        r@ == bar(),
{
    let sep = " | ";
    proof {
        reveal_strlit(" | ");
        assert(sep@ =~= bar());
    }
    sep
}

fn details_line(item: &SearchItem) -> (r: String)
    ensures
        r@ == (if item_details(*item).len() > 0 {
            "   "@ + join(item_details(*item), bar()) + "\n"@
        } else {
            Seq::empty()
        }),
{
    let details = details_of(item);
    if details.len() > 0 {
        let mut line = owned("   ");
        push_str(&mut line, join_strings(&details, bar_str()).as_str());
        push_str(&mut line, "\n");
        line
    } else {
        String::new()
    }
}

fn push_item_block(out: &mut String, item: &SearchItem, n: usize)
    ensures
        final(out)@ == old(out)@ + item_block(*item, n as nat),
{
    let mut b = owned("\n");
    push_str(&mut b, u64_to_string(n as u64).as_str());
    push_str(&mut b, ". ");
    push_str(&mut b, item.title.as_str());
    push_str(&mut b, "\n");
    push_str(&mut b, "   ");
    push_str(&mut b, price_part_of(item).as_str());
    push_str(&mut b, bar_str());
    push_str(&mut b, location_part_of(item).as_str());
    push_str(&mut b, bar_str());
    push_str(&mut b, trade_type_part_of(item).as_str());
    push_str(&mut b, "\n");
    push_str(&mut b, "   ");
    push_str(&mut b, item.url.as_str());
    push_str(&mut b, "\n");
    push_str(&mut b, details_line(item).as_str());
    assert(b@ === item_block(*item, n as nat));
    push_str(out, b.as_str());
}

fn fetched_line(result: &SearchResult) -> (r: String)
    ensures
        r@ == fetched_part(*result),
{
    if result.fetched_pages > 1 {
        let mut line = owned("Fetched pages: ");
        push_str(&mut line, u64_to_string(result.fetched_from_page as u64).as_str());
        push_str(&mut line, "-");
        push_str(&mut line, u64_to_string(result.fetched_to_page as u64).as_str());
        push_str(&mut line, " (");
        push_str(&mut line, u64_to_string(result.fetched_pages as u64).as_str());
        push_str(&mut line, " total)");
        push_str(&mut line, "\n");
        line
    } else {
        String::new()
    }
}

fn marketplace_line(result: &SearchResult) -> (r: String)
    ensures
        r@ == market_part(*result),
{
    match &result.marketplace {
        Some(m) => {
            let mut line = owned("Marketplace: ");
            push_str(&mut line, m.as_str());
            push_str(&mut line, "\n");
            line
        },
        None => String::new(),
    }
}

fn heading_of(result: &SearchResult) -> (r: String)
    ensures
        r@ == heading(*result),
{
    match &result.title {
        Some(t) => t.clone(),
        None => result.query.clone(),
    }
}

fn counts_text(result: &SearchResult) -> (r: String)
    ensures
        r@ == counts_line(*result),
{
    let mut b = owned("Matches: ");
    push_str(&mut b, format_number(result.total_matches).as_str());
    push_str(&mut b, " | Page ");
    push_str(&mut b, u64_to_string(result.current_page as u64).as_str());
    push_str(&mut b, "/");
    push_str(&mut b, u64_to_string(result.last_page as u64).as_str());
    push_str(&mut b, " | Showing ");
    push_str(&mut b, u64_to_string(result.returned_items as u64).as_str());
    push_str(&mut b, " items");
    b
}

fn push_search_head(out: &mut String, result: &SearchResult)
    ensures
        final(out)@ == old(out)@ + search_head(*result),
{
    let mut b = owned("Search: ");
    push_str(&mut b, heading_of(result).as_str());
    push_str(&mut b, "\n");
    push_str(&mut b, counts_text(result).as_str());
    push_str(&mut b, "\n");
    push_str(&mut b, fetched_line(result).as_str());
    push_str(&mut b, marketplace_line(result).as_str());
    assert(b@ === search_head(*result));
    push_str(out, b.as_str());
}

/// A search result as text: the head, then a block for each ad.
pub fn render_search_result(result: &SearchResult) -> (r: String)
    ensures
        r@ == search_text(*result),
{
    let mut out = String::new();
    push_search_head(&mut out, result);
    let ghost head = out@;
    let mut i: usize = 0;
    while i < result.items.len()
        invariant
            i <= result.items@.len(),
            out@ == head + item_blocks(result.items@.take(i as int)),
        decreases result.items@.len() - i,
    {
        push_item_block(&mut out, &result.items[i], i + 1);
        proof {
            assert(result.items@.take(i + 1).drop_last() == result.items@.take(i as int));
            assert(result.items@.take(i + 1).last() == result.items@[i as int]);
        }
        i = i + 1;
    }
    assert(result.items@.take(result.items@.len() as int) == result.items@);
    trim_end_str(out.as_str())
}


// ---------------------------------------------------------------------
// Item details
// ---------------------------------------------------------------------

pub open spec fn opt_part(o: Option<String>) -> Seq<Seq<char>> {
    match o {
        Some(s) => seq![s@],
        None => Seq::empty(),
    }
}

/// The price, location and trade type of an ad, each when known.
pub open spec fn summary_parts(item: ItemDetail) -> Seq<Seq<char>> {
    (match item.price {
        Some(p) => seq![price_text(p)],
        None => Seq::empty(),
    }) + opt_part(item.location) + opt_part(item.trade_type)
}

/// The ways an ad can be bought that apply to it.
pub open spec fn commerce_parts(item: ItemDetail) -> Seq<Seq<char>> {
    when(item.is_transactable, "transactable"@) + when(item.buy_now, "buy now"@) + when(
        item.eligible_for_shipping,
        "shipping available"@,
    ) + when(item.seller_pays_shipping, "seller pays shipping"@)
}

/// A line per attribute, in the order of the entries.
pub open spec fn attribute_lines(extras: Seq<(String, String)>) -> Seq<char>
    decreases extras.len(),
{
    if extras.len() == 0 {
        Seq::empty()
    } else {
        attribute_lines(extras.drop_last()) + "  - "@ + extras.last().0@ + ": "@
            + extras.last().1@ + "\n"@
    }
}

pub open spec fn summary_line(item: ItemDetail) -> Seq<char> {
    if summary_parts(item).len() > 0 {
        join(summary_parts(item), bar()) + "\n"@
    } else {
        Seq::empty()
    }
}

pub open spec fn category_path_line(item: ItemDetail) -> Seq<char> {
    if item.category_path@.len() > 0 {
        "Category: "@ + join(views(item.category_path@), path_sep()) + "\n"@
    } else {
        Seq::empty()
    }
}

pub open spec fn edited_line(item: ItemDetail) -> Seq<char> {
    match item.edited_at {
        Some(e) => "Edited: "@ + e@ + "\n"@,
        None => Seq::empty(),
    }
}

pub open spec fn commerce_line(item: ItemDetail) -> Seq<char> {
    if commerce_parts(item).len() > 0 {
        "Commerce: "@ + join(commerce_parts(item), bar()) + "\n"@
    } else {
        Seq::empty()
    }
}

/// A piece of text that ends in a character other than whitespace is kept
/// whole when the text around it is trimmed at its end.
proof fn lemma_kept_piece(a: Seq<char>, p: Seq<char>, b: Seq<char>)
    requires
        p.len() > 0,
        !is_ws(p.last()),
    ensures
        occurs_at(trim_end(a + p + b), p, a.len() as int),
        contains(trim_end(a + p + b), p),
{
    let pre = a + p;
    assert(pre.last() == p.last());
    lemma_trim_end_concat(pre, b);
    let out = trim_end(a + p + b);
    assert(out == pre + trim_end(b));
    let pos = a.len() as int;
    assert(out.subrange(pos, pos + p.len()) =~= p);
}

/// The untrimmed text of an ad's details.
pub open spec fn detail_body(item: ItemDetail) -> Seq<char> {
    "Item: "@ + item.title@ + "\n"@ + summary_line(item) + item.url@ + "\n"@
        + category_path_line(item) + edited_line(item) + commerce_line(item)
        + attributes_section(item) + description_section(item)
}

proof fn lemma_attribute_lines_prefix(extras: Seq<(String, String)>, k: int)
    requires
        0 <= k <= extras.len(),
    ensures
        attribute_lines(extras) == attribute_lines(extras.take(k)) + attribute_lines(extras).skip(
            attribute_lines(extras.take(k)).len() as int,
        ),
    decreases extras.len() - k,
{
    if k < extras.len() {
        lemma_attribute_lines_prefix(extras, k + 1);
        assert(extras.take(k + 1).drop_last() == extras.take(k));
        let a = attribute_lines(extras.take(k));
        assert(attribute_lines(extras) =~= a + attribute_lines(extras).skip(a.len() as int));
    } else {
        assert(extras.take(k) == extras);
        assert(attribute_lines(extras).skip(attribute_lines(extras).len() as int) =~= Seq::<
            char,
        >::empty());
    }
}

#[verifier::spinoff_prover]
proof fn lemma_detail_edited(item: ItemDetail, e: String)
    requires
        item.edited_at == Some(e),
    ensures
        contains(item_detail_text(item), "Edited:"@),
        e@.len() > 0 && !is_ws(e@.last()) ==> contains(item_detail_text(item), "Edited: "@ + e@),
{
    reveal_strlit("Edited: ");
    reveal_strlit("Edited:");
    reveal_strlit("\n");
    let a = "Item: "@ + item.title@ + "\n"@ + summary_line(item) + item.url@ + "\n"@
        + category_path_line(item);
    let tail = commerce_line(item) + attributes_section(item) + description_section(item);
    let p = "Edited:"@;
    assert(detail_body(item) =~= a + p + (seq![' '] + e@ + "\n"@ + tail));
    lemma_kept_piece(a, p, seq![' '] + e@ + "\n"@ + tail);
    if e@.len() > 0 && !is_ws(e@.last()) {
        let q = "Edited: "@ + e@;
        assert(q.last() == e@.last());
        assert(detail_body(item) =~= a + q + ("\n"@ + tail));
        lemma_kept_piece(a, q, "\n"@ + tail);
    }
}

#[verifier::spinoff_prover]
proof fn lemma_detail_category(item: ItemDetail)
    requires
        item.category_path@.len() > 0,
    ensures
        contains(item_detail_text(item), "Category:"@),
        item.category_path@.last()@.len() > 0 && !is_ws(item.category_path@.last()@.last()) ==> contains(
            item_detail_text(item),
            "Category: "@ + join(views(item.category_path@), path_sep()),
        ),
{
    reveal_strlit("Category: ");
    reveal_strlit("Category:");
    reveal_strlit("\n");
    let a = "Item: "@ + item.title@ + "\n"@ + summary_line(item) + item.url@ + "\n"@;
    let tail = edited_line(item) + commerce_line(item) + attributes_section(item)
        + description_section(item);
    let j = join(views(item.category_path@), path_sep());
    let p = "Category:"@;
    assert(detail_body(item) =~= a + p + (seq![' '] + j + "\n"@ + tail));
    lemma_kept_piece(a, p, seq![' '] + j + "\n"@ + tail);
    let ws = views(item.category_path@);
    if item.category_path@.last()@.len() > 0 && !is_ws(item.category_path@.last()@.last()) {
        let q = "Category: "@ + j;
        assert(ws.last() == item.category_path@.last()@);
        assert(ws.drop_last().len() == 0 ==> j == ws[0]);
        assert(j.len() > 0 && j.last() == ws.last().last()) by {
            if ws.len() == 1 {
                assert(j == ws[0]);
            } else {
                assert(j == join(ws.drop_last(), path_sep()) + path_sep() + ws.last());
            }
        }
        assert(q.last() == j.last());
        assert(detail_body(item) =~= a + q + ("\n"@ + tail));
        lemma_kept_piece(a, q, "\n"@ + tail);
    }
}

#[verifier::spinoff_prover]
proof fn lemma_detail_description(item: ItemDetail, d: String)
    requires
        item.description == Some(d),
    ensures
        contains(item_detail_text(item), "Description:"@),
        d@.len() > 0 && !is_ws(d@.last()) ==> contains(
            item_detail_text(item),
            "Description:\n"@ + d@,
        ),
{
    reveal_strlit("\nDescription:\n");
    reveal_strlit("Description:");
    reveal_strlit("Description:\n");
    reveal_strlit("\n");
    let a = "Item: "@ + item.title@ + "\n"@ + summary_line(item) + item.url@ + "\n"@
        + category_path_line(item) + edited_line(item) + commerce_line(item) + attributes_section(
        item,
    ) + seq!['\n'];
    let p = "Description:"@;
    assert(detail_body(item) =~= a + p + (seq!['\n'] + d@ + "\n"@));
    lemma_kept_piece(a, p, seq!['\n'] + d@ + "\n"@);
    if d@.len() > 0 && !is_ws(d@.last()) {
        let q = "Description:\n"@ + d@;
        assert(q.last() == d@.last());
        assert(detail_body(item) =~= a + q + "\n"@);
        lemma_kept_piece(a, q, "\n"@);
    }
}

#[verifier::spinoff_prover]
proof fn lemma_detail_attributes_heading(item: ItemDetail)
    requires
        item.extras@.len() > 0,
    ensures
        contains(item_detail_text(item), "Attributes:"@),
{
    reveal_strlit("Attributes:\n");
    reveal_strlit("Attributes:");
    let a0 = "Item: "@ + item.title@ + "\n"@ + summary_line(item) + item.url@ + "\n"@
        + category_path_line(item) + edited_line(item) + commerce_line(item);
    let lines = attribute_lines(item.extras@);
    assert(detail_body(item) =~= a0 + "Attributes:"@ + (seq!['\n'] + lines + description_section(
        item,
    )));
    lemma_kept_piece(a0, "Attributes:"@, seq!['\n'] + lines + description_section(item));
}

proof fn lemma_attribute_line_place(extras: Seq<(String, String)>, i: int)
    requires
        0 <= i < extras.len(),
    ensures
        attribute_lines(extras) == attribute_lines(extras.take(i)) + ("  - "@ + extras[i].0@ + ": "@
            + extras[i].1@ + "\n"@) + attribute_lines(extras).skip(
            (attribute_lines(extras.take(i)) + ("  - "@ + extras[i].0@ + ": "@ + extras[i].1@
                + "\n"@)).len() as int,
        ),
{
    lemma_attribute_lines_prefix(extras, i);
    lemma_attribute_lines_prefix(extras, i + 1);
    assert(extras.take(i + 1).drop_last() == extras.take(i));
    assert(extras.take(i + 1).last() == extras[i]);
    let before = attribute_lines(extras.take(i));
    let li = "  - "@ + extras[i].0@ + ": "@ + extras[i].1@ + "\n"@;
    assert(attribute_lines(extras.take(i + 1)) == before + li);
    let lines = attribute_lines(extras);
    assert(lines =~= before + li + lines.skip((before + li).len() as int));
}

#[verifier::spinoff_prover]
#[verifier::rlimit(40)]
proof fn lemma_detail_attribute(item: ItemDetail, i: int)
    requires
        0 <= i < item.extras@.len(),
    ensures
        contains(item_detail_text(item), "  - "@ + item.extras@[i].0@ + ":"@),
        item.extras@[i].1@.len() > 0 && !is_ws(item.extras@[i].1@.last()) ==> contains(
            item_detail_text(item),
            "  - "@ + item.extras@[i].0@ + ": "@ + item.extras@[i].1@,
        ),
{
    reveal_strlit("Attributes:\n");
    reveal_strlit("  - ");
    reveal_strlit(": ");
    reveal_strlit(":");
    reveal_strlit("\n");
    let ex = item.extras@;
    let a0 = "Item: "@ + item.title@ + "\n"@ + summary_line(item) + item.url@ + "\n"@
        + category_path_line(item) + edited_line(item) + commerce_line(item);
    let lines = attribute_lines(ex);
    lemma_attribute_line_place(ex, i);
    let before = attribute_lines(ex.take(i));
    let li = "  - "@ + ex[i].0@ + ": "@ + ex[i].1@ + "\n"@;
    let rest = lines.skip((before + li).len() as int);
    let a = a0 + "Attributes:\n"@ + before;
    let p = "  - "@ + ex[i].0@ + ":"@;
    let tail = seq![' '] + ex[i].1@ + "\n"@ + rest + description_section(item);
    assert(detail_body(item) =~= a + p + tail);
    lemma_kept_piece(a, p, tail);
    if ex[i].1@.len() > 0 && !is_ws(ex[i].1@.last()) {
        let q = "  - "@ + ex[i].0@ + ": "@ + ex[i].1@;
        assert(q.last() == ex[i].1@.last());
        assert(detail_body(item) =~= a + q + ("\n"@ + rest + description_section(item)));
        lemma_kept_piece(a, q, "\n"@ + rest + description_section(item));
    }
}

/// The layout of an ad's details: they begin with `Item:` and the title;
/// they have the line `Category:` with the path joined by ` > ` when there
/// is a path, `Edited:` with the time when it is known, `Attributes:` with
/// a line `  - id: value` for each attribute when there are any, and
/// `Description:` followed on the next line by the description when there
/// is one (each value shown whole when it ends in a character other than
/// whitespace, since the text's end is trimmed).
pub proof fn law_item_detail_layout(item: ItemDetail)
    ensures
        starts_with(item_detail_text(item), "Item:"@),
        item.title@.len() > 0 && !is_ws(item.title@.last()) ==> starts_with(
            item_detail_text(item),
            "Item: "@ + item.title@,
        ),
        item.category_path@.len() > 0 ==> contains(item_detail_text(item), "Category:"@),
        item.category_path@.len() > 0 && item.category_path@.last()@.len() > 0 && !is_ws(
            item.category_path@.last()@.last(),
        ) ==> contains(
            item_detail_text(item),
            "Category: "@ + join(views(item.category_path@), path_sep()),
        ),
        item.edited_at is Some ==> contains(item_detail_text(item), "Edited:"@),
        item.edited_at is Some && item.edited_at.unwrap()@.len() > 0 && !is_ws(
            item.edited_at.unwrap()@.last(),
        ) ==> contains(item_detail_text(item), "Edited: "@ + item.edited_at.unwrap()@),
        forall|i: int|
            0 <= i < item.extras@.len() ==> contains(
                item_detail_text(item),
                "  - "@ + (#[trigger] item.extras@[i]).0@ + ":"@,
            ),
        forall|i: int|
            0 <= i < item.extras@.len() && item.extras@[i].1@.len() > 0 && !is_ws(
                item.extras@[i].1@.last(),
            ) ==> contains(
                item_detail_text(item),
                "  - "@ + (#[trigger] item.extras@[i]).0@ + ": "@ + item.extras@[i].1@,
            ),
        item.extras@.len() > 0 ==> contains(item_detail_text(item), "Attributes:"@),
        item.description is Some ==> contains(item_detail_text(item), "Description:"@),
        item.description is Some && item.description.unwrap()@.len() > 0 && !is_ws(
            item.description.unwrap()@.last(),
        ) ==> contains(item_detail_text(item), "Description:\n"@ + item.description.unwrap()@),
{
    lemma_detail_start(item);
    if item.category_path@.len() > 0 {
        lemma_detail_category(item);
    }
    match item.edited_at {
        Some(e) => lemma_detail_edited(item, e),
        None => {},
    }
    match item.description {
        Some(d) => lemma_detail_description(item, d),
        None => {},
    }
    assert forall|i: int| 0 <= i < item.extras@.len() implies contains(
        item_detail_text(item),
        "  - "@ + (#[trigger] item.extras@[i]).0@ + ":"@,
    ) by {
        lemma_detail_attribute(item, i);
    }
    assert forall|i: int|
        0 <= i < item.extras@.len() && item.extras@[i].1@.len() > 0 && !is_ws(
            item.extras@[i].1@.last(),
        ) implies contains(
        item_detail_text(item),
        "  - "@ + (#[trigger] item.extras@[i]).0@ + ": "@ + item.extras@[i].1@,
    ) by {
        lemma_detail_attribute(item, i);
    }
    if item.extras@.len() > 0 {
        lemma_detail_attributes_heading(item);
    }
}

#[verifier::spinoff_prover]
proof fn lemma_detail_start(item: ItemDetail)
    ensures
        starts_with(item_detail_text(item), "Item:"@),
        item.title@.len() > 0 && !is_ws(item.title@.last()) ==> starts_with(
            item_detail_text(item),
            "Item: "@ + item.title@,
        ),
{
    reveal_strlit("Item: ");
    reveal_strlit("Item:");
    let out = item_detail_text(item);
    let rest = seq![' '] + item.title@ + "\n"@ + summary_line(item) + item.url@ + "\n"@
        + category_path_line(item) + edited_line(item) + commerce_line(item)
        + attributes_section(item) + description_section(item);
    assert(detail_body(item) =~= Seq::<char>::empty() + "Item:"@ + rest);
    lemma_kept_piece(Seq::empty(), "Item:"@, rest);
    assert(out.take(5) =~= "Item:"@);
    if item.title@.len() > 0 && !is_ws(item.title@.last()) {
        let q = "Item: "@ + item.title@;
        let r2 = "\n"@ + summary_line(item) + item.url@ + "\n"@ + category_path_line(item)
            + edited_line(item) + commerce_line(item) + attributes_section(item)
            + description_section(item);
        assert(q.last() == item.title@.last());
        assert(detail_body(item) =~= Seq::<char>::empty() + q + r2);
        lemma_kept_piece(Seq::empty(), q, r2);
        assert(out.take(q.len() as int) =~= q);
    }
}

/// Each way of buying is listed exactly when its own flag is set:
/// `transactable`, `buy now`, `shipping available` when the ad can be
/// shipped, `seller pays shipping` when the seller pays for shipping; and
/// when any is set, the item's text has the line `Commerce: ` with them,
/// separated by ` | `.
pub proof fn law_commerce_labels(item: ItemDetail)
    ensures
        commerce_parts(item).contains("transactable"@) <==> item.is_transactable,
        commerce_parts(item).contains("buy now"@) <==> item.buy_now,
        commerce_parts(item).contains("shipping available"@) <==> item.eligible_for_shipping,
        commerce_parts(item).contains("seller pays shipping"@) <==> item.seller_pays_shipping,
        commerce_parts(item).len() > 0 ==> contains(
            item_detail_text(item),
            "Commerce: "@ + join(commerce_parts(item), bar()),
        ),
{
    broadcast use crate::text::lemma_seq_concat_contains;

    reveal_strlit("transactable");
    reveal_strlit("buy now");
    reveal_strlit("shipping available");
    reveal_strlit("seller pays shipping");
    assert("transactable"@.len() == 12);
    assert("buy now"@.len() == 7);
    assert("shipping available"@.len() == 18);
    assert("seller pays shipping"@.len() == 20);
    let t = when(item.is_transactable, "transactable"@);
    let b = when(item.buy_now, "buy now"@);
    let e = when(item.eligible_for_shipping, "shipping available"@);
    let sp = when(item.seller_pays_shipping, "seller pays shipping"@);
    assert(commerce_parts(item) == t + b + e + sp);
    if item.is_transactable {
        assert(t[0] == "transactable"@);
    }
    if item.buy_now {
        assert(b[0] == "buy now"@);
    }
    if item.eligible_for_shipping {
        assert(e[0] == "shipping available"@);
    }
    if item.seller_pays_shipping {
        assert(sp[0] == "seller pays shipping"@);
    }
    if commerce_parts(item).len() > 0 {
        lemma_commerce_line_kept(item);
    }
}

#[verifier::spinoff_prover]
proof fn lemma_commerce_line_kept(item: ItemDetail)
    requires
        commerce_parts(item).len() > 0,
    ensures
        contains(item_detail_text(item), "Commerce: "@ + join(commerce_parts(item), bar())),
{
    reveal_strlit("transactable");
    reveal_strlit("buy now");
    reveal_strlit("shipping available");
    reveal_strlit("seller pays shipping");
    reveal_strlit("\n");
    let parts = commerce_parts(item);
    assert forall|i: int| 0 <= i < parts.len() implies (#[trigger] parts[i]).len() > 0 && !is_ws(
        parts[i].last(),
    ) by {
        let t = when(item.is_transactable, "transactable"@);
        let b = when(item.buy_now, "buy now"@);
        let e = when(item.eligible_for_shipping, "shipping available"@);
        let sp = when(item.seller_pays_shipping, "seller pays shipping"@);
        assert(parts == t + b + e + sp);
        let n1 = t.len() as int;
        let n2 = n1 + b.len();
        let n3 = n2 + e.len();
        if i < n1 {
            assert(parts[i] == t[i]);
        } else if i < n2 {
            assert(parts[i] == b[i - n1]);
        } else if i < n3 {
            assert(parts[i] == e[i - n2]);
        } else {
            assert(parts[i] == sp[i - n3]);
        }
    }
    crate::text::lemma_join_ends(parts, bar());
    let line = "Commerce: "@ + join(parts, bar());
    assert(parts.last() == parts[parts.len() - 1]);
    assert(line.last() == join(parts, bar()).last());
    let before = "Item: "@ + item.title@ + "\n"@ + summary_line(item) + item.url@ + "\n"@
        + category_path_line(item) + edited_line(item);
    let pre = before + line;
    let rest = "\n"@ + attributes_section(item) + description_section(item);
    let whole = "Item: "@ + item.title@ + "\n"@ + summary_line(item) + item.url@ + "\n"@
        + category_path_line(item) + edited_line(item) + commerce_line(item)
        + attributes_section(item) + description_section(item);
    assert(commerce_line(item) == line + "\n"@);
    assert(whole =~= pre + rest);
    assert(pre.last() == line.last());
    lemma_trim_end_concat(pre, rest);
    let out = item_detail_text(item);
    assert(out == pre + trim_end(rest));
    let pos = before.len() as int;
    assert(out.subrange(pos, pos + line.len()) =~= line);
    assert(occurs_at(out, line, pos));
}

pub open spec fn attributes_section(item: ItemDetail) -> Seq<char> {
    if item.extras@.len() > 0 {
        "Attributes:\n"@ + attribute_lines(item.extras@)
    } else {
        Seq::empty()
    }
}

pub open spec fn description_section(item: ItemDetail) -> Seq<char> {
    match item.description {
        Some(d) => "\nDescription:\n"@ + d@ + "\n"@,
        None => Seq::empty(),
    }
}

/// An ad's details as text: title, summary, address, category path, when
/// edited, how it can be bought, its attributes and its description.
pub open spec fn item_detail_text(item: ItemDetail) -> Seq<char> {
    trim_end(
        "Item: "@ + item.title@ + "\n"@ + summary_line(item) + item.url@ + "\n"@
            + category_path_line(item) + edited_line(item) + commerce_line(item)
            + attributes_section(item) + description_section(item),
    )
}

fn push_opt_part(parts: &mut Vec<String>, o: &Option<String>)
    ensures
        views(final(parts)@) == views(old(parts)@) + opt_part(*o),
{
    let ghost before = parts@;
    match o {
        Some(s) => {
            parts.push(s.clone());
            assert(views(parts@) =~= views(before) + opt_part(*o));
        },
        None => {
            assert(views(parts@) =~= views(before) + opt_part(*o));
        },
    }
}

fn summary_line_of(item: &ItemDetail) -> (r: String)
    ensures
        r@ == summary_line(*item),
{
    let mut parts: Vec<String> = Vec::new();
    match &item.price {
        Some(p) => parts.push(format_price(p)),
        None => {},
    }
    let ghost p0 = views(parts@);
    assert(p0 =~= (match item.price {
        Some(p) => seq![price_text(p)],
        None => Seq::<Seq<char>>::empty(),
    }));
    push_opt_part(&mut parts, &item.location);
    push_opt_part(&mut parts, &item.trade_type);
    assert(views(parts@) === summary_parts(*item));
    if parts.len() > 0 {
        let mut line = join_strings(&parts, bar_str());
        push_str(&mut line, "\n");
        line
    } else {
        String::new()
    }
}

fn push_when(parts: &mut Vec<String>, cond: bool, text: &str)
    ensures
        views(final(parts)@) == views(old(parts)@) + when(cond, text@),
{
    let ghost before = parts@;
    if cond {
        parts.push(owned(text));
    }
    assert(views(parts@) =~= views(before) + when(cond, text@));
}

fn commerce_line_of(item: &ItemDetail) -> (r: String)
    ensures
        r@ == commerce_line(*item),
{
    let mut parts: Vec<String> = Vec::new();
    assert(views(parts@) =~= Seq::<Seq<char>>::empty());
    push_when(&mut parts, item.is_transactable, "transactable");
    assert(views(parts@) =~= when(item.is_transactable, "transactable"@));
    push_when(&mut parts, item.buy_now, "buy now");
    push_when(&mut parts, item.eligible_for_shipping, "shipping available");
    push_when(&mut parts, item.seller_pays_shipping, "seller pays shipping");
    assert(views(parts@) === commerce_parts(*item));
    if parts.len() > 0 {
        let mut line = owned("Commerce: ");
        push_str(&mut line, join_strings(&parts, bar_str()).as_str());
        push_str(&mut line, "\n");
        line
    } else {
        String::new()
    }
}

fn category_path_line_of(item: &ItemDetail) -> (r: String)
    ensures
        r@ == category_path_line(*item),
{
    if item.category_path.len() > 0 {
        let sep = " > ";
        proof {
            reveal_strlit(" > ");
            assert(sep@ =~= path_sep());
        }
        let mut line = owned("Category: ");
        push_str(&mut line, join_strings(&item.category_path, sep).as_str());
        push_str(&mut line, "\n");
        line
    } else {
        String::new()
    }
}

fn edited_line_of(item: &ItemDetail) -> (r: String)
    ensures
        r@ == edited_line(*item),
{
    match &item.edited_at {
        Some(e) => {
            let mut line = owned("Edited: ");
            push_str(&mut line, e.as_str());
            push_str(&mut line, "\n");
            line
        },
        None => String::new(),
    }
}

fn attributes_section_of(item: &ItemDetail) -> (r: String)
    ensures
        r@ == attributes_section(*item),
{
    if item.extras.len() == 0 {
        return String::new();
    }
    let mut lines = String::new();
    let mut i: usize = 0;
    while i < item.extras.len()
        invariant
            i <= item.extras@.len(),
            lines@ == attribute_lines(item.extras@.take(i as int)),
        decreases item.extras@.len() - i,
    {
        let (k, v) = &item.extras[i];
        push_str(&mut lines, "  - ");
        push_str(&mut lines, k.as_str());
        push_str(&mut lines, ": ");
        push_str(&mut lines, v.as_str());
        push_str(&mut lines, "\n");
        proof {
            assert(item.extras@.take(i + 1).drop_last() == item.extras@.take(i as int));
            assert(item.extras@.take(i + 1).last() == item.extras@[i as int]);
        }
        i = i + 1;
    }
    assert(item.extras@.take(item.extras@.len() as int) == item.extras@);
    let mut section = owned("Attributes:\n");
    push_str(&mut section, lines.as_str());
    section
}

fn description_section_of(item: &ItemDetail) -> (r: String)
    ensures
        r@ == description_section(*item),
{
    match &item.description {
        Some(d) => {
            let mut s = owned("\nDescription:\n");
            push_str(&mut s, d.as_str());
            push_str(&mut s, "\n");
            s
        },
        None => String::new(),
    }
}

/// An ad's details as text.
pub fn render_item_detail(item: &ItemDetail) -> (r: String)
    ensures
        r@ == item_detail_text(*item),
{
    let mut b = owned("Item: ");
    push_str(&mut b, item.title.as_str());
    push_str(&mut b, "\n");
    push_str(&mut b, summary_line_of(item).as_str());
    push_str(&mut b, item.url.as_str());
    push_str(&mut b, "\n");
    push_str(&mut b, category_path_line_of(item).as_str());
    push_str(&mut b, edited_line_of(item).as_str());
    push_str(&mut b, commerce_line_of(item).as_str());
    push_str(&mut b, attributes_section_of(item).as_str());
    push_str(&mut b, description_section_of(item).as_str());
    trim_end_str(b.as_str())
}


// ---------------------------------------------------------------------
// Laws
// ---------------------------------------------------------------------

/// `s` with its spaces taken out.
pub open spec fn without_spaces(s: Seq<char>) -> Seq<char>
    decreases s.len(),
{
    if s.len() == 0 {
        Seq::empty()
    } else if s.last() == ' ' {
        without_spaces(s.drop_last())
    } else {
        without_spaces(s.drop_last()).push(s.last())
    }
}

proof fn lemma_without_spaces_concat(a: Seq<char>, b: Seq<char>)
    ensures
        without_spaces(a + b) == without_spaces(a) + without_spaces(b),
    decreases b.len(),
{
    if b.len() == 0 {
        assert(a + b == a);
        assert(without_spaces(a) + without_spaces(b) == without_spaces(a));
    } else {
        assert((a + b).drop_last() == a + b.drop_last());
        lemma_without_spaces_concat(a, b.drop_last());
    }
}

proof fn lemma_without_spaces_identity(s: Seq<char>)
    requires
        forall|i: int| 0 <= i < s.len() ==> s[i] != ' ',
    ensures
        without_spaces(s) == s,
    decreases s.len(),
{
    if s.len() > 0 {
        lemma_without_spaces_identity(s.drop_last());
        assert(s.drop_last().push(s.last()) == s);
    }
}

proof fn lemma_decimal_digits(n: nat)
    ensures
        forall|i: int| 0 <= i < decimal(n).len() ==> decimal(n)[i] != ' ',
    decreases n,
{
    if n >= 10 {
        lemma_decimal_digits(n / 10);
        assert(digit_char((n % 10) as nat) != ' ');
        let prev = decimal(n / 10);
        assert forall|i: int| 0 <= i < decimal(n).len() implies decimal(n)[i] != ' ' by {
            if i < prev.len() {
                assert(decimal(n)[i] == prev[i]);
            }
        }
    } else {
        assert(digit_char(n) != ' ');
    }
}

proof fn lemma_group_digits(d: Seq<char>)
    requires
        forall|i: int| 0 <= i < d.len() ==> d[i] != ' ',
    ensures
        without_spaces(group_digits(d)) == d,
    decreases d.len(),
{
    if d.len() <= 3 {
        lemma_without_spaces_identity(d);
    } else {
        let head = d.take(d.len() - 3);
        let tail = d.skip(d.len() - 3);
        lemma_group_digits(head);
        lemma_without_spaces_concat(group_digits(head) + seq![' '], tail);
        lemma_without_spaces_concat(group_digits(head), seq![' ']);
        assert(without_spaces(seq![' ']) == Seq::<char>::empty()) by {
            let sp = seq![' '];
            assert(sp.len() == 1);
            assert(sp.last() == ' ');
            assert(sp.drop_last() =~= Seq::<char>::empty());
            assert(without_spaces(Seq::<char>::empty()) == Seq::<char>::empty());
        }
        lemma_without_spaces_identity(tail);
        assert(head + tail == d);
    }
}

/// Grouping the digits of a number only adds spaces: without them, the
/// text is the number's plain decimal digits.
pub proof fn law_number_text_keeps_digits(n: u64)
    ensures
        without_spaces(number_text(n)) == decimal(n as nat),
{
    lemma_decimal_digits(n as nat);
    lemma_group_digits(decimal(n as nat));
}

} // verus!
