//! Category text: normalisation, aliases, and resolving what a user typed
//! to one category.
use vstd::prelude::*;
use vstd::string::StrSliceExecFns;

use crate::error::FinnError;
use crate::ext::{alphanumeric, is_alphanumeric};
use crate::model::{CategoryEntry, CategoryView};
use crate::text::{
    is_ascii_alnum, is_ascii_alphanumeric, ascii_lower, collapse, collapse_whitespace, is_whitespace, is_ws, to_ascii_lowercase, to_chars,
    trim, trim_str, contains, contains_chars, join, join_strings, owned, str_eq, views, push_str,
    is_ascii_upper, words, lemma_words_shape, lemma_join_chars, lemma_trim_collapse,
    lemma_collapse_idempotent, lemma_collapse_spacing,
};

verus! {

/// Letters and digits (`char::is_alphanumeric`): among ASCII characters
/// exactly `0-9`, `A-Z` and `a-z`; beyond ASCII, as the Unicode tables say.
pub open spec fn is_alnum(c: char) -> bool {
    if (c as u32) < 128 {
        is_ascii_alnum(c)
    } else {
        alphanumeric(c)
    }
}

fn is_letter_or_digit(c: char) -> (r: bool)
    ensures
        r == is_alnum(c),
{
    if (c as u32) < 128 {
        is_ascii_alphanumeric(c)
    } else {
        is_alphanumeric(c)
    }
}

/// Characters that separate words in category text.
pub open spec fn is_separator(c: char) -> bool {
    c == '>' || c == '/' || c == '-' || c == '_' || c == ',' || c == '.' || c == ':' || c == ';'
        || c == '(' || c == ')'
}

/// What one character of category text becomes before spacing is tidied:
/// Norwegian letters are spelled in ASCII, `&` becomes ` og `, separators
/// and other symbols become spaces, letters and digits are lowered.
pub open spec fn map_char(c: char) -> Seq<char> {
    if c == 'Æ' || c == 'æ' {
        seq!['a', 'e']
    } else if c == 'Ø' || c == 'ø' {
        seq!['o']
    } else if c == 'Å' || c == 'å' {
        seq!['a']
    } else if c == '&' {
        seq![' ', 'o', 'g', ' ']
    } else if is_separator(c) {
        seq![' ']
    } else if is_alnum(c) || is_ws(c) {
        seq![ascii_lower(c)]
    } else {
        seq![' ']
    }
}

/// `map_char` applied to every character, the results laid end to end.
pub open spec fn expand(s: Seq<char>) -> Seq<char>
    decreases s.len(),
{
    if s.len() == 0 {
        Seq::empty()
    } else {
        expand(s.drop_last()) + map_char(s.last())
    }
}

/// Category text in the form in which texts are compared: trimmed, mapped
/// character by character, and its words separated by single spaces.
pub open spec fn normalize(s: Seq<char>) -> Seq<char> {
    collapse(expand(trim(s)))
}

fn push_mapped(out: &mut Vec<char>, c: char)
    ensures
        final(out)@ == old(out)@ + map_char(c),
{
    let ghost before = out@;
    if c == 'Æ' || c == 'æ' {
        out.push('a');
        out.push('e');
    } else if c == 'Ø' || c == 'ø' {
        out.push('o');
    } else if c == 'Å' || c == 'å' {
        out.push('a');
    } else if c == '&' {
        out.push(' ');
        out.push('o');
        out.push('g');
        out.push(' ');
    } else if c == '>' || c == '/' || c == '-' || c == '_' || c == ',' || c == '.' || c == ':'
        || c == ';' || c == '(' || c == ')' {
        out.push(' ');
    } else if is_letter_or_digit(c) || is_whitespace(c) {
        out.push(to_ascii_lowercase(c));
    } else {
        out.push(' ');
    }
    assert(out@ =~= before + map_char(c));
}

/// The normal form of category text.
pub fn normalize_category(input: &str) -> (out: String)
    ensures
        out@ == normalize(input@),
{
    let trimmed = trim_str(input);
    let chars = to_chars(trimmed.as_str());
    let mut expanded: Vec<char> = Vec::new();
    let mut i: usize = 0;
    while i < chars.len()
        invariant
            i <= chars@.len(),
            expanded@ == expand(chars@.take(i as int)),
        decreases chars@.len() - i,
    {
        proof {
            assert(chars@.take(i + 1).drop_last() == chars@.take(i as int));
        }
        push_mapped(&mut expanded, chars[i]);
        i = i + 1;
    }
    assert(chars@.take(chars@.len() as int) == chars@);
    collapse_whitespace(&expanded)
}

/// A character that mapping leaves as it is.
pub open spec fn unchanged_by_mapping(c: char) -> bool {
    map_char(c) == seq![c]
}

proof fn lemma_mapped_chars_unchanged(c: char)
    ensures
        forall|k: int| 0 <= k < map_char(c).len() ==> unchanged_by_mapping(#[trigger] map_char(c)[k]),
{
    let m = map_char(c);
    assert(unchanged_by_mapping(' ')) by {
        assert(map_char(' ') =~= seq![' ']);
    }
    assert(unchanged_by_mapping('a')) by {
        assert(map_char('a') =~= seq!['a']);
    }
    assert(unchanged_by_mapping('e')) by {
        assert(map_char('e') =~= seq!['e']);
    }
    assert(unchanged_by_mapping('o')) by {
        assert(map_char('o') =~= seq!['o']);
    }
    assert(unchanged_by_mapping('g')) by {
        assert(map_char('g') =~= seq!['g']);
    }
    if !(c == 'Æ' || c == 'æ' || c == 'Ø' || c == 'ø' || c == 'Å' || c == 'å' || c == '&'
        || is_separator(c)) && (is_alnum(c) || is_ws(c)) {
        let d = ascii_lower(c);
        assert(m == seq![d]);
        if is_ascii_upper(c) {
            assert('a' <= d && d <= 'z');
            assert(is_alnum(d));
        } else {
            assert(d == c);
        }
        assert(map_char(d) =~= seq![d]);
    }
}

proof fn lemma_expand_unchanged_chars(t: Seq<char>)
    ensures
        forall|k: int| 0 <= k < expand(t).len() ==> unchanged_by_mapping(#[trigger] expand(t)[k]),
    decreases t.len(),
{
    if t.len() > 0 {
        let prev = t.drop_last();
        lemma_expand_unchanged_chars(prev);
        lemma_mapped_chars_unchanged(t.last());
        let a = expand(prev);
        let m = map_char(t.last());
        assert forall|k: int| 0 <= k < expand(t).len() implies unchanged_by_mapping(
            #[trigger] expand(t)[k],
        ) by {
            if k < a.len() {
                assert(expand(t)[k] == a[k]);
            } else {
                assert(expand(t)[k] == m[k - a.len()]);
            }
        }
    }
}

proof fn lemma_expand_identity(y: Seq<char>)
    requires
        forall|k: int| 0 <= k < y.len() ==> unchanged_by_mapping(#[trigger] y[k]),
    ensures
        expand(y) == y,
    decreases y.len(),
{
    if y.len() > 0 {
        let prev = y.drop_last();
        assert forall|k: int| 0 <= k < prev.len() implies unchanged_by_mapping(#[trigger] prev[k]) by {
            assert(prev[k] == y[k]);
        }
        lemma_expand_identity(prev);
        assert(unchanged_by_mapping(y[y.len() - 1]));
        assert(y == prev.push(y.last()));
        assert(expand(y) =~= y);
    }
}

proof fn lemma_normalized_chars_unchanged(s: Seq<char>)
    ensures
        forall|k: int|
            0 <= k < normalize(s).len() ==> unchanged_by_mapping(#[trigger] normalize(s)[k]),
{
    let x = expand(trim(s));
    let y = collapse(x);
    lemma_expand_unchanged_chars(trim(s));
    let p = |c: char| unchanged_by_mapping(c);
    assert forall|k: int| 0 <= k < x.len() implies p(#[trigger] x[k]) by {}
    lemma_words_shape(x, p);
    assert(unchanged_by_mapping(' ')) by {
        assert(map_char(' ') =~= seq![' ']);
    }
    let sep = seq![' '];
    assert forall|j: int| 0 <= j < sep.len() implies p(#[trigger] sep[j]) by {}
    assert forall|i: int, j: int|
        0 <= i < words(x).len() && 0 <= j < words(x)[i].len() implies p(
        #[trigger] words(x)[i][j],
    ) by {}
    lemma_join_chars(words(x), sep, p);
    assert(collapse(x) == join(words(x), sep));
    assert forall|k: int| 0 <= k < y.len() implies unchanged_by_mapping(#[trigger] y[k]) by {
        assert(p(join(words(x), sep)[k]));
    }
}

/// Normalising category text twice gives what normalising it once gave.
pub proof fn law_normalize_idempotent(s: Seq<char>)
    ensures
        normalize(normalize(s)) == normalize(s),
{
    let x = expand(trim(s));
    let y = collapse(x);
    lemma_normalized_chars_unchanged(s);
    assert(y == normalize(s));
    assert forall|k: int| 0 <= k < y.len() implies unchanged_by_mapping(#[trigger] y[k]) by {
        assert(normalize(s)[k] == y[k]);
    }
    lemma_trim_collapse(x);
    lemma_expand_identity(y);
    lemma_collapse_idempotent(x);
}

proof fn lemma_unchanged_char_kinds(c: char)
    requires
        unchanged_by_mapping(c),
    ensures
        !is_ascii_upper(c),
        !is_separator(c),
        c != '&',
        c != 'Æ' && c != 'æ' && c != 'Ø' && c != 'ø' && c != 'Å' && c != 'å',
{
    let m = map_char(c);
    assert(m.len() == 1 && m[0] == c);
    if is_ascii_upper(c) {
        assert(m[0] == ascii_lower(c));
    }
}

/// The normal form of category text has no whitespace at either end, no
/// whitespace but single spaces between words, no ASCII capitals, and none
/// of `& > / - _ , . : ; ( )` nor the Norwegian letters `Æ æ Ø ø Å å`.
pub proof fn law_normalize_shape(s: Seq<char>)
    ensures
        ({
            let y = normalize(s);
            &&& y.len() == 0 || (!is_ws(y[0]) && !is_ws(y.last()))
            &&& forall|k: int| 0 <= k < y.len() && is_ws(#[trigger] y[k]) ==> y[k] == ' '
            &&& forall|k: int| 0 <= k < y.len() - 1 ==> !(is_ws(#[trigger] y[k]) && is_ws(y[k + 1]))
            &&& forall|k: int|
                0 <= k < y.len() ==> {
                    let c = #[trigger] y[k];
                    &&& !is_ascii_upper(c)
                    &&& !is_separator(c)
                    &&& c != '&'
                    &&& c != 'Æ' && c != 'æ' && c != 'Ø' && c != 'ø' && c != 'Å' && c != 'å'
                }
        }),
{
    let y = normalize(s);
    lemma_collapse_spacing(expand(trim(s)));
    lemma_normalized_chars_unchanged(s);
    assert forall|k: int| 0 <= k < y.len() - 1 implies !(is_ws(#[trigger] y[k]) && is_ws(y[k + 1])) by {
        if is_ws(y[k]) {
            assert(!is_ws(y[k + 1]));
        }
    }
    assert forall|k: int| 0 <= k < y.len() implies {
        let c = #[trigger] y[k];
        &&& !is_ascii_upper(c)
        &&& !is_separator(c)
        &&& c != '&'
        &&& c != 'Æ' && c != 'æ' && c != 'Ø' && c != 'ø' && c != 'Å' && c != 'å'
    } by {
        lemma_unchanged_char_kinds(y[k]);
    }
}

/// English and short names under which some categories are also found,
/// by the normal form of their label.
pub open spec fn aliases_of_label(label: Seq<char>) -> Seq<Seq<char>> {
    (if label == "elektronikk og hvitevarer"@ {
        seq!["electronics"@, "appliances"@, "technology"@, "tech"@]
    } else {
        Seq::empty()
    }) + if label == "data"@ {
        seq!["computer"@, "computers"@, "pc"@, "it"@]
    } else if label == "datakomponenter"@ {
        seq!["components"@, "computer components"@, "pc parts"@]
    } else if label == "baerbar pc"@ {
        seq!["laptop"@, "notebook"@, "portable computer"@]
    } else if label == "stasjonaer pc"@ {
        seq!["desktop"@, "desktop computer"@]
    } else if label == "mobiltelefoner"@ {
        seq!["phone"@, "phones"@, "smartphone"@, "mobile"@]
    } else if label == "sport og friluftsliv"@ {
        seq!["sport"@, "sports"@, "outdoor"@, "outdoors"@]
    } else {
        Seq::empty()
    }
}

pub open spec fn aliases(c: CategoryView) -> Seq<Seq<char>> {
    aliases_of_label(normalize(c.label))
}

/// The aliases of a category, by the normal form of its label: each label
/// of the alias table has exactly its own list, in order, and any other
/// label has none.
pub proof fn law_alias_table(c: CategoryView)
    ensures
        normalize(c.label) == "elektronikk og hvitevarer"@ ==> aliases(c) == seq!["electronics"@, "appliances"@, "technology"@, "tech"@],
        normalize(c.label) == "data"@ ==> aliases(c) == seq!["computer"@, "computers"@, "pc"@, "it"@],
        normalize(c.label) == "datakomponenter"@ ==> aliases(c) == seq!["components"@, "computer components"@, "pc parts"@],
        normalize(c.label) == "baerbar pc"@ ==> aliases(c) == seq!["laptop"@, "notebook"@, "portable computer"@],
        normalize(c.label) == "stasjonaer pc"@ ==> aliases(c) == seq!["desktop"@, "desktop computer"@],
        normalize(c.label) == "mobiltelefoner"@ ==> aliases(c) == seq!["phone"@, "phones"@, "smartphone"@, "mobile"@],
        normalize(c.label) == "sport og friluftsliv"@ ==> aliases(c) == seq!["sport"@, "sports"@, "outdoor"@, "outdoors"@],
        normalize(c.label) != "elektronikk og hvitevarer"@ && normalize(c.label) != "data"@ && normalize(c.label) != "datakomponenter"@ && normalize(c.label) != "baerbar pc"@ && normalize(c.label) != "stasjonaer pc"@ && normalize(c.label) != "mobiltelefoner"@ && normalize(c.label) != "sport og friluftsliv"@ ==> aliases(c).len() == 0,
{
    reveal_strlit("elektronikk og hvitevarer");
    reveal_strlit("data");
    reveal_strlit("datakomponenter");
    reveal_strlit("baerbar pc");
    reveal_strlit("stasjonaer pc");
    reveal_strlit("mobiltelefoner");
    reveal_strlit("sport og friluftsliv");
    assert("elektronikk og hvitevarer"@.len() == 25 && "elektronikk og hvitevarer"@[0] == 'e' && "elektronikk og hvitevarer"@[24] == 'r');
    assert("data"@.len() == 4 && "data"@[0] == 'd' && "data"@[3] == 'a');
    assert("datakomponenter"@.len() == 15 && "datakomponenter"@[0] == 'd' && "datakomponenter"@[14] == 'r');
    assert("baerbar pc"@.len() == 10 && "baerbar pc"@[0] == 'b' && "baerbar pc"@[9] == 'c');
    assert("stasjonaer pc"@.len() == 13 && "stasjonaer pc"@[0] == 's' && "stasjonaer pc"@[12] == 'c');
    assert("mobiltelefoner"@.len() == 14 && "mobiltelefoner"@[0] == 'm' && "mobiltelefoner"@[13] == 'r');
    assert("sport og friluftsliv"@.len() == 20 && "sport og friluftsliv"@[0] == 's' && "sport og friluftsliv"@[19] == 'v');
}

/// The texts a category is looked up by: its label, its path, its aliases.
pub open spec fn search_strings(c: CategoryView) -> Seq<Seq<char>> {
    seq![c.label, c.path_text()] + aliases(c)
}

fn push_text(v: &mut Vec<String>, s: &str)
    ensures
        views(final(v)@) == views(old(v)@).push(s@),
{
    let ghost before = v@;
    v.push(owned(s));
    assert(views(v@) == views(before).push(s@));
}

/// The aliases of a category.
pub fn category_aliases(category: &CategoryEntry) -> (r: Vec<String>)
    ensures
        views(r@) == aliases(category@),
{
    let label = normalize_category(category.label.as_str());
    let l = label.as_str();
    let mut r: Vec<String> = Vec::new();
    if str_eq(l, "elektronikk og hvitevarer") {
        push_text(&mut r, "electronics");
        push_text(&mut r, "appliances");
        push_text(&mut r, "technology");
        push_text(&mut r, "tech");
    }
    let ghost first = views(r@);
    if str_eq(l, "data") {
        push_text(&mut r, "computer");
        push_text(&mut r, "computers");
        push_text(&mut r, "pc");
        push_text(&mut r, "it");
    } else if str_eq(l, "datakomponenter") {
        push_text(&mut r, "components");
        push_text(&mut r, "computer components");
        push_text(&mut r, "pc parts");
    } else if str_eq(l, "baerbar pc") {
        push_text(&mut r, "laptop");
        push_text(&mut r, "notebook");
        push_text(&mut r, "portable computer");
    } else if str_eq(l, "stasjonaer pc") {
        push_text(&mut r, "desktop");
        push_text(&mut r, "desktop computer");
    } else if str_eq(l, "mobiltelefoner") {
        push_text(&mut r, "phone");
        push_text(&mut r, "phones");
        push_text(&mut r, "smartphone");
        push_text(&mut r, "mobile");
    } else if str_eq(l, "sport og friluftsliv") {
        push_text(&mut r, "sport");
        push_text(&mut r, "sports");
        push_text(&mut r, "outdoor");
        push_text(&mut r, "outdoors");
    }
    assert(views(r@) =~= aliases(category@));
    r
}

/// The texts a category is looked up by.
pub fn category_search_strings(category: &CategoryEntry) -> (r: Vec<String>)
    ensures
        views(r@) == search_strings(category@),
{
    let mut r: Vec<String> = Vec::new();
    r.push(category.label.clone());
    r.push(category.path_string());
    let ghost head = r@;
    let mut aliases = category_aliases(category);
    let ghost tail = aliases@;
    r.append(&mut aliases);
    assert(views(r@) =~= views(head) + views(tail));
    r
}


/// The ways in which a category text is matched, tried in this order.
#[derive(Clone, Copy, PartialEq, Eq, Structural)]
pub enum MatchKind {
    /// The normal form of the category's path equals the text's.
    Path,
    /// The normal form of the category's label equals the text's.
    Label,
    /// The normal form of one of its search strings equals the text's.
    Alias,
    /// The normal form of one of its search strings contains the text's.
    Substring,
}

/// Whether category `c` matches normalised text `n` in the way `kind`.
pub open spec fn matches(kind: MatchKind, c: CategoryView, n: Seq<char>) -> bool {
    match kind {
        MatchKind::Path => normalize(c.path_text()) == n,
        MatchKind::Label => normalize(c.label) == n,
        MatchKind::Alias => exists|i: int|
            0 <= i < search_strings(c).len() && normalize(#[trigger] search_strings(c)[i]) == n,
        MatchKind::Substring => exists|i: int|
            0 <= i < search_strings(c).len() && contains(
                normalize(#[trigger] search_strings(c)[i]),
                n,
            ),
    }
}

/// The categories that match, in their order.
pub open spec fn select(cats: Seq<CategoryView>, kind: MatchKind, n: Seq<char>) -> Seq<
    CategoryView,
>
    decreases cats.len(),
{
    if cats.len() == 0 {
        Seq::empty()
    } else {
        let prev = select(cats.drop_last(), kind, n);
        if matches(kind, cats.last(), n) {
            prev.push(cats.last())
        } else {
            prev
        }
    }
}

pub open spec fn entry_views(v: Seq<CategoryEntry>) -> Seq<CategoryView> {
    v.map_values(|c: CategoryEntry| c@)
}

/// Whether `category` matches the normalised text `n` in the way `kind`.
pub fn category_matches(category: &CategoryEntry, kind: MatchKind, n: &Vec<char>) -> (r: bool)
    ensures
        r == matches(kind, category@, n@),
{
    match kind {
        MatchKind::Path => {
            let p = category.path_string();
            let np = normalize_category(p.as_str());
            let nn = crate::text::from_chars(n.as_slice());
            np == nn
        },
        MatchKind::Label => {
            let np = normalize_category(category.label.as_str());
            let nn = crate::text::from_chars(n.as_slice());
            np == nn
        },
        MatchKind::Alias | MatchKind::Substring => {
            let strings = category_search_strings(category);
            let ghost ss = search_strings(category@);
            let nn = crate::text::from_chars(n.as_slice());
            let mut i: usize = 0;
            while i < strings.len()
                invariant
                    i <= strings@.len(),
                    views(strings@) == ss,
                    ss == search_strings(category@),
                    nn@ == n@,
                    kind == MatchKind::Alias || kind == MatchKind::Substring,
                    forall|j: int|
                        0 <= j < i ==> !(if kind == MatchKind::Alias {
                            normalize(#[trigger] ss[j]) == n@
                        } else {
                            contains(normalize(ss[j]), n@)
                        }),
                decreases strings@.len() - i,
            {
                assert(ss[i as int] == strings@[i as int]@);
                let cand = normalize_category(strings[i].as_str());
                let hit = if kind == MatchKind::Alias {
                    cand == nn
                } else {
                    let cv = to_chars(cand.as_str());
                    contains_chars(&cv, n)
                };
                if hit {
                    return true;
                }
                i = i + 1;
            }
            false
        },
    }
}

/// The indices of the categories that match, in order.
pub fn select_matching(categories: &[CategoryEntry], kind: MatchKind, n: &Vec<char>) -> (r: Vec<
    usize,
>)
    ensures
        r@.map_values(|i: usize| categories@[i as int]@) == select(
            entry_views(categories@),
            kind,
            n@,
        ),
        forall|j: int| 0 <= j < r@.len() ==> #[trigger] r@[j] < categories@.len(),
{
    let mut r: Vec<usize> = Vec::new();
    let mut i: usize = 0;
    while i < categories.len()
        invariant
            i <= categories@.len(),
            r@.map_values(|k: usize| categories@[k as int]@) == select(
                entry_views(categories@.take(i as int)),
                kind,
                n@,
            ),
            forall|j: int| 0 <= j < r@.len() ==> #[trigger] r@[j] < i,
        decreases categories@.len() - i,
    {
        let ghost pre = entry_views(categories@.take(i as int));
        let ghost old_r = r@;
        proof {
            assert(entry_views(categories@.take(i + 1)).drop_last() == pre);
            assert(entry_views(categories@.take(i + 1)).last() == categories@[i as int]@);
        }
        if category_matches(&categories[i], kind, n) {
            r.push(i);
            assert(r@.map_values(|k: usize| categories@[k as int]@) == old_r.map_values(
                |k: usize| categories@[k as int]@,
            ).push(categories@[i as int]@));
        }
        i = i + 1;
    }
    assert(categories@.take(categories@.len() as int) == categories@);
    r
}


/// How many categories an error message names at most.
pub const SUGGESTION_LIMIT: usize = 8;

/// The paths of the first `SUGGESTION_LIMIT` categories.
pub open spec fn first_paths(cats: Seq<CategoryView>) -> Seq<Seq<char>> {
    let k = if cats.len() < SUGGESTION_LIMIT {
        cats.len() as int
    } else {
        SUGGESTION_LIMIT as int
    };
    cats.take(k).map_values(|c: CategoryView| c.path_text())
}

/// `", "`, between the category paths of a message.
pub open spec fn list_sep() -> Seq<char> {
    seq![',', ' ']
}

/// The paths of the first few of the given categories, separated by `", "`.
fn listed_paths(categories: &[CategoryEntry], picks: &Vec<usize>) -> (r: String)
    requires
        forall|j: int| 0 <= j < picks@.len() ==> #[trigger] picks@[j] < categories@.len(),
    ensures
        r@ == join(first_paths(picks@.map_values(|i: usize| categories@[i as int]@)), list_sep()),
{
    let ghost sel = picks@.map_values(|i: usize| categories@[i as int]@);
    let k: usize = if picks.len() < SUGGESTION_LIMIT {
        picks.len()
    } else {
        SUGGESTION_LIMIT
    };
    let mut paths: Vec<String> = Vec::new();
    let mut i: usize = 0;
    while i < k
        invariant
            i <= k <= picks@.len(),
            k == (if picks@.len() < SUGGESTION_LIMIT {
                picks@.len()
            } else {
                SUGGESTION_LIMIT as nat
            }),
            sel == picks@.map_values(|i: usize| categories@[i as int]@),
            forall|j: int| 0 <= j < picks@.len() ==> #[trigger] picks@[j] < categories@.len(),
            views(paths@) == sel.take(i as int).map_values(|c: CategoryView| c.path_text()),
        decreases k - i,
    {
        let p = categories[picks[i]].path_string();
        let ghost before = paths@;
        paths.push(p);
        assert(views(paths@) == views(before).push(p@));
        assert(sel.take(i + 1) == sel.take(i as int).push(sel[i as int]));
        i = i + 1;
    }
    let sep = ", ";
    proof {
        reveal_strlit(", ");
        assert(sep@ =~= list_sep());
    }
    join_strings(&paths, sep)
}

/// What looking a category text up by the exact ways of `MatchKind` finds.
pub enum Lookup {
    /// The text is blank once normalised.
    Blank,
    /// Exactly one category matches in the first way that any matches.
    Found(CategoryView),
    /// Several categories match in the first way that any matches.
    Ambiguous(Seq<CategoryView>),
    /// No category matches in any of the ways.
    Missing,
}

pub open spec fn phase(cats: Seq<CategoryView>, kind: MatchKind, n: Seq<char>) -> Option<Lookup> {
    let sel = select(cats, kind, n);
    if sel.len() == 0 {
        None
    } else if sel.len() == 1 {
        Some(Lookup::Found(sel[0]))
    } else {
        Some(Lookup::Ambiguous(sel))
    }
}

/// Looking `input` up among `cats`: by path, then by label, then by alias,
/// then by substring; the first way that matches any category decides.
pub open spec fn lookup(input: Seq<char>, cats: Seq<CategoryView>) -> Lookup {
    let n = normalize(input);
    if n.len() == 0 {
        Lookup::Blank
    } else {
        match phase(cats, MatchKind::Path, n) {
            Some(l) => l,
            None => match phase(cats, MatchKind::Label, n) {
                Some(l) => l,
                None => match phase(cats, MatchKind::Alias, n) {
                    Some(l) => l,
                    None => match phase(cats, MatchKind::Substring, n) {
                        Some(l) => l,
                        None => Lookup::Missing,
                    },
                },
            },
        }
    }
}

/// What `resolve_single_match` and `resolve_category_exact` return for a lookup.
pub open spec fn lookup_result(
    input: Seq<char>,
    l: Lookup,
    r: Result<Option<CategoryEntry>, FinnError>,
) -> bool {
    match l {
        Lookup::Blank => r matches Err(FinnError::UnknownCategory { input: i, suggestions: s })
            && i@ == input && s@ == "No category text was provided."@,
        Lookup::Found(c) => r matches Ok(Some(e)) && e@ == c,
        Lookup::Ambiguous(sel) => r matches Err(FinnError::AmbiguousCategory { input: i, matches: m })
            && i@ == input && m@ == join(first_paths(sel), list_sep()),
        Lookup::Missing => r matches Ok(None),
    }
}

/// The one matching category, none, or an error naming the first few
/// when several match.
pub fn resolve_single_match(input: &str, categories: &[CategoryEntry], matches: &Vec<usize>) -> (r:
    Result<Option<CategoryEntry>, FinnError>)
    requires
        forall|j: int| 0 <= j < matches@.len() ==> #[trigger] matches@[j] < categories@.len(),
    ensures
        ({
            let sel = matches@.map_values(|i: usize| categories@[i as int]@);
            lookup_result(
                input@,
                if sel.len() == 0 {
                    Lookup::Missing
                } else if sel.len() == 1 {
                    Lookup::Found(sel[0])
                } else {
                    Lookup::Ambiguous(sel)
                },
                r,
            )
        }),
{
    if matches.len() == 0 {
        Ok(None)
    } else if matches.len() == 1 {
        Ok(Some(categories[matches[0]].clone()))
    } else {
        let examples = listed_paths(categories, matches);
        Err(FinnError::AmbiguousCategory { input: owned(input), matches: examples })
    }
}

/// Looks `input` up among the categories by path, label, alias and
/// substring, as `lookup` says; `Ok(None)` when none of these matches.
pub fn resolve_category_exact(input: &str, categories: &[CategoryEntry]) -> (r: Result<
    Option<CategoryEntry>,
    FinnError,
>)
    ensures
        lookup_result(input@, lookup(input@, entry_views(categories@)), r),
{
    let normalized = normalize_category(input);
    if normalized.as_str().unicode_len() == 0 {
        let suggestions = owned("No category text was provided.");
        return Err(FinnError::UnknownCategory { input: owned(input), suggestions });
    }
    let n = to_chars(normalized.as_str());
    let path_matches = select_matching(categories, MatchKind::Path, &n);
    let found = resolve_single_match(input, categories, &path_matches);
    if !matches!(found, Ok(None)) {
        return found;
    }
    let label_matches = select_matching(categories, MatchKind::Label, &n);
    let found = resolve_single_match(input, categories, &label_matches);
    if !matches!(found, Ok(None)) {
        return found;
    }
    let alias_matches = select_matching(categories, MatchKind::Alias, &n);
    let found = resolve_single_match(input, categories, &alias_matches);
    if !matches!(found, Ok(None)) {
        return found;
    }
    let substring_matches = select_matching(categories, MatchKind::Substring, &n);
    resolve_single_match(input, categories, &substring_matches)
}


fn listed_all(categories: &[CategoryEntry]) -> (r: String)
    ensures
        r@ == join(first_paths(entry_views(categories@)), list_sep()),
{
    let mut picks: Vec<usize> = Vec::new();
    let mut i: usize = 0;
    while i < categories.len()
        invariant
            i <= categories@.len(),
            picks@ == Seq::new(i as nat, |j: int| j as usize),
        decreases categories@.len() - i,
    {
        picks.push(i);
        i = i + 1;
    }
    assert(picks@.map_values(|i: usize| categories@[i as int]@) =~= entry_views(categories@));
    listed_paths(categories, &picks)
}

/// What follows when exact matching found nothing: `ranked` holds the
/// candidates, best first; `accept_best` tells whether the best one scores
/// high enough, alone or ahead of the next, to be taken, and `close` whether
/// it scores high enough for the text to count as ambiguous.
pub open spec fn ranking_result(
    input: Seq<char>,
    ranked: Seq<CategoryView>,
    accept_best: bool,
    close: bool,
    r: Result<CategoryEntry, FinnError>,
) -> bool {
    if ranked.len() == 0 {
        r matches Err(FinnError::UnknownCategory { input: i, suggestions: s }) && i@ == input
            && s@ == "No close matches were found."@
    } else if accept_best {
        r matches Ok(c) && c@ == ranked[0]
    } else if close {
        r matches Err(FinnError::AmbiguousCategory { input: i, matches: m }) && i@ == input && m@
            == join(first_paths(ranked), list_sep())
    } else {
        r matches Err(FinnError::UnknownCategory { input: i, suggestions: s }) && i@ == input && s@
            == "Did you mean: "@ + join(first_paths(ranked), list_sep()) + "?"@
    }
}

/// The category that ranking picks, or the error that names the closest
/// candidates, as `ranking_result` says.
pub fn resolve_from_ranking(
    input: &str,
    ranked: &[CategoryEntry],
    accept_best: bool,
    close: bool,
) -> (r: Result<CategoryEntry, FinnError>)
    ensures
        ranking_result(input@, entry_views(ranked@), accept_best, close, r),
{
    if ranked.len() > 0 && accept_best {
        return Ok(ranked[0].clone());
    }
    if ranked.len() == 0 {
        let suggestions = owned("No close matches were found.");
        return Err(FinnError::UnknownCategory { input: owned(input), suggestions });
    }
    let listed = listed_all(ranked);
    if close {
        return Err(FinnError::AmbiguousCategory { input: owned(input), matches: listed });
    }
    let mut suggestions = owned("Did you mean: ");
    push_str(&mut suggestions, listed.as_str());
    push_str(&mut suggestions, "?");
    Err(FinnError::UnknownCategory { input: owned(input), suggestions })
}

/// Every category of `ranked` is one of `cats`.
pub open spec fn drawn_from(ranked: Seq<CategoryView>, cats: Seq<CategoryView>) -> bool {
    forall|i: int| 0 <= i < ranked.len() ==> cats.contains(#[trigger] ranked[i])
}

proof fn lemma_select_within(cats: Seq<CategoryView>, kind: MatchKind, n: Seq<char>)
    ensures
        drawn_from(select(cats, kind, n), cats),
    decreases cats.len(),
{
    if cats.len() > 0 {
        let prev = cats.drop_last();
        lemma_select_within(prev, kind, n);
        let sel = select(cats, kind, n);
        assert forall|i: int| 0 <= i < sel.len() implies cats.contains(#[trigger] sel[i]) by {
            if i < select(prev, kind, n).len() {
                let x = select(prev, kind, n)[i];
                assert(sel[i] == x);
                assert(prev.contains(x));
                let j = choose|j: int| 0 <= j < prev.len() && prev[j] == x;
                assert(cats[j] == x);
            } else {
                assert(sel[i] == cats.last());
                assert(cats[cats.len() - 1] == cats.last());
            }
        }
    }
}

proof fn lemma_lookup_within(input: Seq<char>, cats: Seq<CategoryView>)
    ensures
        lookup(input, cats) matches Lookup::Found(c) ==> cats.contains(c),
        cats.len() == 0 && normalize(input).len() > 0 ==> lookup(input, cats) == Lookup::Missing,
{
    let n = normalize(input);
    lemma_select_within(cats, MatchKind::Path, n);
    lemma_select_within(cats, MatchKind::Label, n);
    lemma_select_within(cats, MatchKind::Alias, n);
    lemma_select_within(cats, MatchKind::Substring, n);
    if cats.len() == 0 {
        assert(select(cats, MatchKind::Path, n).len() == 0);
        assert(select(cats, MatchKind::Label, n).len() == 0);
        assert(select(cats, MatchKind::Alias, n).len() == 0);
        assert(select(cats, MatchKind::Substring, n).len() == 0);
    }
}

/// Resolves category text to one category: exactly by path, then label,
/// then alias, then substring, as `lookup` says; when none of these matches,
/// by the ranking of the categories by similarity, as `ranking_result` says.
/// `ranked` holds categories drawn from `categories`, so the category found
/// is always one of `categories`.
pub fn resolve_category_name(
    input: &str,
    categories: &[CategoryEntry],
    ranked: &[CategoryEntry],
    accept_best: bool,
    close: bool,
) -> (r: Result<CategoryEntry, FinnError>)
    requires
        drawn_from(entry_views(ranked@), entry_views(categories@)),
    ensures
        match lookup(input@, entry_views(categories@)) {
            Lookup::Missing => ranking_result(input@, entry_views(ranked@), accept_best, close, r),
            Lookup::Found(c) => r matches Ok(e) && e@ == c,
            Lookup::Blank => r matches Err(FinnError::UnknownCategory { input: i, suggestions: s })
                && i@ == input@ && s@ == "No category text was provided."@,
            Lookup::Ambiguous(sel) => r matches Err(
                FinnError::AmbiguousCategory { input: i, matches: m },
            ) && i@ == input@ && m@ == join(first_paths(sel), list_sep()),
        },
        r matches Ok(c) ==> entry_views(categories@).contains(c@),
        categories@.len() == 0 && normalize(input@).len() > 0 ==> (r matches Err(
            FinnError::UnknownCategory { input: i, suggestions: s },
        ) && i@ == input@ && s@ == "No close matches were found."@),
{
    proof {
        lemma_lookup_within(input@, entry_views(categories@));
        if categories@.len() == 0 && entry_views(ranked@).len() > 0 {
            assert(entry_views(categories@).contains(entry_views(ranked@)[0]));
        }
    }
    match resolve_category_exact(input, categories) {
        Ok(Some(category)) => Ok(category),
        Ok(None) => resolve_from_ranking(input, ranked, accept_best, close),
        Err(e) => Err(e),
    }
}


proof fn lemma_select_single(cats: Seq<CategoryView>, kind: MatchKind, n: Seq<char>, i: int)
    requires
        0 <= i < cats.len(),
        matches(kind, cats[i], n),
        forall|j: int| 0 <= j < cats.len() && j != i ==> !matches(kind, #[trigger] cats[j], n),
    ensures
        select(cats, kind, n) == seq![cats[i]],
    decreases cats.len(),
{
    let prev = cats.drop_last();
    if i == cats.len() - 1 {
        lemma_select_none(prev, kind, n);
    } else {
        assert forall|j: int| 0 <= j < prev.len() && j != i implies !matches(
            kind,
            #[trigger] prev[j],
            n,
        ) by {
            assert(prev[j] == cats[j]);
        }
        lemma_select_single(prev, kind, n, i);
    }
}

proof fn lemma_select_none(cats: Seq<CategoryView>, kind: MatchKind, n: Seq<char>)
    requires
        forall|j: int| 0 <= j < cats.len() ==> !matches(kind, #[trigger] cats[j], n),
    ensures
        select(cats, kind, n).len() == 0,
    decreases cats.len(),
{
    if cats.len() > 0 {
        let prev = cats.drop_last();
        assert forall|j: int| 0 <= j < prev.len() implies !matches(kind, #[trigger] prev[j], n) by {
            assert(prev[j] == cats[j]);
        }
        lemma_select_none(prev, kind, n);
    }
}

/// A category is found by its full path (or any text with the same normal
/// form) whenever no other category's path has that normal form.
pub proof fn law_lookup_by_path(cats: Seq<CategoryView>, i: int, input: Seq<char>)
    requires
        0 <= i < cats.len(),
        normalize(input).len() > 0,
        normalize(cats[i].path_text()) == normalize(input),
        forall|j: int|
            0 <= j < cats.len() && j != i ==> normalize(#[trigger] cats[j].path_text()) != normalize(
                input,
            ),
    ensures
        lookup(input, cats) == Lookup::Found(cats[i]),
{
    lemma_select_single(cats, MatchKind::Path, normalize(input), i);
}


/// The place of each way of matching in the order in which they are tried.
pub open spec fn match_rank(kind: MatchKind) -> int {
    match kind {
        MatchKind::Path => 0,
        MatchKind::Label => 1,
        MatchKind::Alias => 2,
        MatchKind::Substring => 3,
    }
}

/// No category of `cats` matches `n` in the way `kind`.
pub open spec fn none_match(cats: Seq<CategoryView>, kind: MatchKind, n: Seq<char>) -> bool {
    forall|j: int| 0 <= j < cats.len() ==> !matches(kind, #[trigger] cats[j], n)
}

/// When no category matches in any of the ways tried before `kind`, and
/// exactly one matches in the way `kind`, the lookup finds that one.
pub proof fn law_lookup_first_unique_match(
    cats: Seq<CategoryView>,
    kind: MatchKind,
    i: int,
    input: Seq<char>,
)
    requires
        0 <= i < cats.len(),
        normalize(input).len() > 0,
        forall|k: MatchKind|
            match_rank(k) < match_rank(kind) ==> #[trigger] none_match(cats, k, normalize(input)),
        matches(kind, cats[i], normalize(input)),
        forall|j: int|
            0 <= j < cats.len() && j != i ==> !matches(kind, #[trigger] cats[j], normalize(input)),
    ensures
        lookup(input, cats) == Lookup::Found(cats[i]),
{
    let n = normalize(input);
    lemma_select_single(cats, kind, n, i);
    if match_rank(kind) > 0 {
        assert(none_match(cats, MatchKind::Path, n));
        lemma_select_none(cats, MatchKind::Path, n);
    }
    if match_rank(kind) > 1 {
        assert(none_match(cats, MatchKind::Label, n));
        lemma_select_none(cats, MatchKind::Label, n);
    }
    if match_rank(kind) > 2 {
        assert(none_match(cats, MatchKind::Alias, n));
        lemma_select_none(cats, MatchKind::Alias, n);
    }
}

/// A category is found by one of its aliases (any text whose normal form
/// is that alias) when no category's path or label has that normal form
/// and no other category has a search text with that normal form.
pub proof fn law_lookup_by_alias(cats: Seq<CategoryView>, i: int, j: int, input: Seq<char>)
    requires
        0 <= i < cats.len(),
        0 <= j < aliases(cats[i]).len(),
        normalize(input) == aliases(cats[i])[j],
        normalize(input).len() > 0,
        none_match(cats, MatchKind::Path, normalize(input)),
        none_match(cats, MatchKind::Label, normalize(input)),
        forall|k: int|
            0 <= k < cats.len() && k != i ==> !matches(
                MatchKind::Alias,
                #[trigger] cats[k],
                normalize(input),
            ),
    ensures
        lookup(input, cats) == Lookup::Found(cats[i]),
{
    let n = normalize(input);
    let c = cats[i];
    law_normalize_idempotent(input);
    let ss = search_strings(c);
    assert(ss[2 + j] == aliases(c)[j]);
    assert(normalize(ss[2 + j]) == n);
    assert(matches(MatchKind::Alias, c, n));
    assert forall|k: MatchKind| match_rank(k) < match_rank(MatchKind::Alias) implies #[trigger] none_match(
        cats,
        k,
        n,
    ) by {
        assert(k == MatchKind::Path || k == MatchKind::Label);
    }
    law_lookup_first_unique_match(cats, MatchKind::Alias, i, input);
}

/// Category text is matched by its normal form alone: texts that differ
/// only in case, spacing, separators or Norwegian letters find the same,
/// and a text finds what its normal form finds.
pub proof fn law_lookup_by_normal_form(a: Seq<char>, b: Seq<char>, cats: Seq<CategoryView>)
    requires
        normalize(a) == normalize(b),
    ensures
        lookup(a, cats) == lookup(b, cats),
        lookup(normalize(a), cats) == lookup(a, cats),
{
    law_normalize_idempotent(a);
}

/// The normal forms of a category's search strings that are not empty.
pub open spec fn normalized_strings(c: CategoryView) -> Set<Seq<char>> {
    Set::new(
        |n: Seq<char>|
            n.len() > 0 && exists|i: int|
                0 <= i < search_strings(c).len() && normalize(#[trigger] search_strings(c)[i]) == n,
    )
}

/// The distinct non-empty normal forms of a category's search strings, in
/// increasing order.
pub fn normalized_search_strings(category: &CategoryEntry) -> (r: Vec<String>)
    ensures
        forall|i: int, j: int|
            0 <= i < j < r@.len() ==> crate::order::text_lt(#[trigger] r@[i]@, #[trigger] r@[j]@),
        forall|i: int| 0 <= i < r@.len() ==> normalized_strings(category@).contains(#[trigger] r@[i]@),
        forall|n: Seq<char>|
            normalized_strings(category@).contains(n) ==> exists|i: int|
                0 <= i < r@.len() && #[trigger] r@[i]@ == n,
{
    let strings = category_search_strings(category);
    let ghost ss = search_strings(category@);
    let mut unique: Vec<(String, ())> = Vec::new();
    let ghost mut m: Map<Seq<char>, ()> = Map::empty();
    assert(crate::keyed::keyed(unique@) =~= Seq::<(Seq<char>, ())>::empty());
    let mut i: usize = 0;
    while i < strings.len()
        invariant
            i <= strings@.len(),
            views(strings@) == ss,
            ss == search_strings(category@),
            crate::keyed::represents(crate::keyed::keyed(unique@), m),
            forall|n: Seq<char>|
                m.contains_key(n) <==> (n.len() > 0 && exists|j: int|
                    0 <= j < i && normalize(#[trigger] ss[j]) == n),
        decreases strings@.len() - i,
    {
        let normalized = normalize_category(strings[i].as_str());
        assert(ss[i as int] == strings@[i as int]@);
        if !normalized.as_str().is_empty() {
            let ghost key = normalized@;
            crate::keyed::insert_keyed(&mut unique, normalized, (), Ghost(m));
            proof {
                m = m.insert(key, ());
            }
        }
        i = i + 1;
    }
    let mut r: Vec<String> = Vec::new();
    let mut k: usize = 0;
    while k < unique.len()
        invariant
            k <= unique@.len(),
            r@.len() == k,
            forall|j: int| 0 <= j < k ==> #[trigger] r@[j]@ == unique@[j].0@,
        decreases unique@.len() - k,
    {
        r.push(unique[k].0.clone());
        k = k + 1;
    }
    proof {
        let e = crate::keyed::keyed(unique@);
        assert forall|a: int, b: int| 0 <= a < b < r@.len() implies crate::order::text_lt(
            #[trigger] r@[a]@,
            #[trigger] r@[b]@,
        ) by {
            assert(e[a].0 == r@[a]@);
            assert(e[b].0 == r@[b]@);
        }
        assert forall|j: int| 0 <= j < r@.len() implies normalized_strings(category@).contains(
            #[trigger] r@[j]@,
        ) by {
            assert(e[j].0 == r@[j]@);
            assert(m.contains_key(e[j].0));
        }
        assert forall|n: Seq<char>| normalized_strings(category@).contains(n) implies exists|j: int|
            0 <= j < r@.len() && #[trigger] r@[j]@ == n by {
            assert(m.contains_key(n));
            let j = choose|j: int| 0 <= j < e.len() && e[j].0 == n;
            assert(r@[j]@ == n);
        }
    }
    r
}

/// How many of `len` categories a listing of at most `limit` shows: at
/// least one when there are any.
pub open spec fn shown_count(limit: usize, len: nat) -> int {
    let limit = if limit < 1 {
        1
    } else {
        limit as int
    };
    if limit < len {
        limit
    } else {
        len as int
    }
}

/// The first `limit` categories (at least one when there are any).
pub fn take_categories(categories: &[CategoryEntry], limit: usize) -> (r: Vec<CategoryEntry>)
    ensures
        entry_views(r@) == entry_views(categories@).take(shown_count(limit, categories@.len())),
{
    let limit = if limit >= 1 {
        limit
    } else {
        1
    };
    let n = if limit < categories.len() {
        limit
    } else {
        categories.len()
    };
    let mut r: Vec<CategoryEntry> = Vec::new();
    let mut i: usize = 0;
    while i < n
        invariant
            i <= n <= categories@.len(),
            entry_views(r@) == entry_views(categories@).take(i as int),
        decreases n - i,
    {
        let ghost before = r@;
        r.push(categories[i].clone());
        assert(entry_views(r@) =~= entry_views(before).push(categories@[i as int]@));
        assert(entry_views(categories@).take(i + 1) =~= entry_views(categories@).take(i as int).push(
            categories@[i as int]@,
        ));
        i = i + 1;
    }
    r
}

/// The categories to suggest for `input`, at most `limit` of them (at least
/// one when there are any): the first categories when the text is blank
/// once normalised, else the first of `ranked`, which holds the categories
/// whose similarity to the text is close enough to the best, best first,
/// drawn from `categories`.
pub fn suggest_categories(
    categories: &[CategoryEntry],
    input: &str,
    limit: usize,
    ranked: &[CategoryEntry],
) -> (r: Vec<CategoryEntry>)
    requires
        drawn_from(entry_views(ranked@), entry_views(categories@)),
    ensures
        drawn_from(entry_views(r@), entry_views(categories@)),
        normalize(input@).len() == 0 ==> entry_views(r@) == entry_views(categories@).take(
            shown_count(limit, categories@.len()),
        ),
        normalize(input@).len() > 0 ==> entry_views(r@) == entry_views(ranked@).take(
            shown_count(limit, ranked@.len()),
        ),
{
    let normalized = normalize_category(input);
    let r = if normalized.as_str().unicode_len() == 0 {
        take_categories(categories, limit)
    } else {
        take_categories(ranked, limit)
    };
    proof {
        let cv = entry_views(categories@);
        let rv = entry_views(r@);
        assert forall|i: int| 0 <= i < rv.len() implies cv.contains(#[trigger] rv[i]) by {
            if normalize(input@).len() == 0 {
                assert(rv[i] == cv[i]);
            } else {
                assert(rv[i] == entry_views(ranked@)[i]);
            }
        }
    }
    r
}

} // verus!
