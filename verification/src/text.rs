//! Character-level text handling: whitespace, trimming, word splitting,
//! joining, decimal numbers and substring search, all over `Seq<char>`.
use vstd::prelude::*;
use vstd::string::StringExecFns;

verus! {

// ---------------------------------------------------------------------
// Characters
// ---------------------------------------------------------------------

/// Unicode `White_Space`, the property that `char::is_whitespace`,
/// `str::trim` and `str::split_whitespace` go by.
pub open spec fn is_ws(c: char) -> bool {
    ||| ('\u{9}' <= c && c <= '\u{d}')
    ||| c == ' '
    ||| c == '\u{85}'
    ||| c == '\u{a0}'
    ||| c == '\u{1680}'
    ||| ('\u{2000}' <= c && c <= '\u{200a}')
    ||| c == '\u{2028}'
    ||| c == '\u{2029}'
    ||| c == '\u{202f}'
    ||| c == '\u{205f}'
    ||| c == '\u{3000}'
}

pub open spec fn is_digit(c: char) -> bool {
    '0' <= c && c <= '9'
}

pub open spec fn is_ascii_upper(c: char) -> bool {
    'A' <= c && c <= 'Z'
}

pub open spec fn is_ascii_alnum(c: char) -> bool {
    ||| is_digit(c)
    ||| is_ascii_upper(c)
    ||| ('a' <= c && c <= 'z')
}

/// `char::to_ascii_lowercase`: ASCII capitals are lowered, all else is kept.
pub open spec fn ascii_lower(c: char) -> char {
    if is_ascii_upper(c) {
        ((c as u32) + 32) as char
    } else {
        c
    }
}

pub fn is_whitespace(c: char) -> (r: bool)
    ensures
        r == is_ws(c),
{
    ('\u{9}' <= c && c <= '\u{d}') || c == ' ' || c == '\u{85}' || c == '\u{a0}' || c
        == '\u{1680}' || ('\u{2000}' <= c && c <= '\u{200a}') || c == '\u{2028}' || c
        == '\u{2029}' || c == '\u{202f}' || c == '\u{205f}' || c == '\u{3000}'
}

pub fn is_ascii_alphanumeric(c: char) -> (r: bool)
    ensures
        r == is_ascii_alnum(c),
{
    ('0' <= c && c <= '9') || ('A' <= c && c <= 'Z') || ('a' <= c && c <= 'z')
}

pub fn is_ascii_digit(c: char) -> (r: bool)
    ensures
        r == is_digit(c),
{
    '0' <= c && c <= '9'
}

pub fn to_ascii_lowercase(c: char) -> (r: char)
    ensures
        r == ascii_lower(c),
{
    if 'A' <= c && c <= 'Z' {
        let code: u8 = c as u8;
        assert(code as u32 == c as u32);
        let lowered: u8 = code + 32;
        lowered as char
    } else {
        c
    }
}

// ---------------------------------------------------------------------
// Strings and character vectors
// ---------------------------------------------------------------------

/// Appends one character to a `String` (`String::push`).
#[verifier::external_body]
pub(crate) fn push_char(s: &mut String, c: char)
    ensures
        final(s)@ == old(s)@.push(c),
{
    s.push(c);
}

/// A `String` holding the characters of a string slice.
pub(crate) fn owned(s: &str) -> (r: String)
    ensures
        r@ == s@,
{
    s.to_owned()
}

/// Appends a string slice to a `String`.
pub(crate) fn push_str(s: &mut String, t: &str)
    ensures
        final(s)@ == old(s)@ + t@,
{
    s.append(t);
}

/// The characters of a string slice, in order.
pub fn to_chars(s: &str) -> (out: Vec<char>)
    ensures
        out@ == s@,
{
    let mut out: Vec<char> = Vec::new();
    for c in it: s.chars()
        invariant
            out@ == it.seq().take(it.index() as int),
            it.seq() == s@,
    {
        out.push(c);
    }
    out
}

/// A `String` made of the characters of `v`.
pub fn from_chars(v: &[char]) -> (out: String)
    ensures
        out@ == v@,
{
    let mut out = String::new();
    let mut i: usize = 0;
    while i < v.len()
        invariant
            i <= v@.len(),
            out@ == v@.take(i as int),
        decreases v@.len() - i,
    {
        push_char(&mut out, v[i]);
        i = i + 1;
        assert(v@.take(i as int) == v@.take(i - 1).push(v@[i - 1]));
    }
    assert(v@.take(v@.len() as int) == v@);
    out
}

/// Whether two strings hold the same characters.
pub fn str_eq(a: &str, b: &str) -> (r: bool)
    ensures
        r == (a@ == b@),
{
    let x = owned(a);
    let y = owned(b);
    x == y
}

/// A copy of a vector of strings.
pub fn clone_strings(v: &Vec<String>) -> (out: Vec<String>)
    ensures
        out@ == v@,
{
    let mut out: Vec<String> = Vec::new();
    let mut i: usize = 0;
    while i < v.len()
        invariant
            i <= v@.len(),
            out@ == v@.take(i as int),
        decreases v@.len() - i,
    {
        out.push(v[i].clone());
        i = i + 1;
        assert(v@.take(i as int) == v@.take(i - 1).push(v@[i - 1]));
    }
    assert(v@.take(v@.len() as int) == v@);
    out
}

/// The characters of each string.
pub open spec fn views(v: Seq<String>) -> Seq<Seq<char>> {
    v.map_values(|s: String| s@)
}

// ---------------------------------------------------------------------
// Trimming
// ---------------------------------------------------------------------

/// `s` with its leading whitespace removed (`str::trim_start`).
pub open spec fn trim_start(s: Seq<char>) -> Seq<char>
    decreases s.len(),
{
    if s.len() > 0 && is_ws(s[0]) {
        trim_start(s.drop_first())
    } else {
        s
    }
}

/// `s` with its trailing whitespace removed (`str::trim_end`).
pub open spec fn trim_end(s: Seq<char>) -> Seq<char>
    decreases s.len(),
{
    if s.len() > 0 && is_ws(s.last()) {
        trim_end(s.drop_last())
    } else {
        s
    }
}

/// `s` with leading and trailing whitespace removed (`str::trim`).
pub open spec fn trim(s: Seq<char>) -> Seq<char> {
    trim_end(trim_start(s))
}

/// Every character of `s` is whitespace (so `s.trim()` is empty).
pub open spec fn blank(s: Seq<char>) -> bool {
    forall|i: int| 0 <= i < s.len() ==> is_ws(#[trigger] s[i])
}

pub proof fn lemma_trim_start_skip(s: Seq<char>, i: int)
    requires
        0 <= i <= s.len(),
        forall|j: int| 0 <= j < i ==> is_ws(#[trigger] s[j]),
    ensures
        trim_start(s) == trim_start(s.skip(i)),
    decreases i,
{
    if i > 0 {
        assert(s.drop_first().skip(i - 1) == s.skip(i));
        assert forall|j: int| 0 <= j < i - 1 implies is_ws(#[trigger] s.drop_first()[j]) by {
            assert(s.drop_first()[j] == s[j + 1]);
        }
        lemma_trim_start_skip(s.drop_first(), i - 1);
    } else {
        assert(s.skip(0) == s);
    }
}

pub proof fn lemma_trim_end_take(s: Seq<char>, i: int)
    requires
        0 <= i <= s.len(),
        forall|j: int| i <= j < s.len() ==> is_ws(#[trigger] s[j]),
    ensures
        trim_end(s) == trim_end(s.take(i)),
    decreases s.len() - i,
{
    if i < s.len() {
        assert(s.drop_last().take(i) == s.take(i));
        assert forall|j: int| i <= j < s.drop_last().len() implies is_ws(
            #[trigger] s.drop_last()[j],
        ) by {
            assert(s.drop_last()[j] == s[j]);
        }
        lemma_trim_end_take(s.drop_last(), i);
    } else {
        assert(s.take(i) == s);
    }
}

/// The trimmed text is empty exactly when every character is whitespace.
pub proof fn lemma_trim_empty_iff_blank(s: Seq<char>)
    ensures
        (trim(s).len() == 0) == blank(s),
        (trim_start(s).len() == 0) == blank(s),
    decreases s.len(),
{
    if s.len() > 0 {
        lemma_trim_empty_iff_blank(s.drop_first());
        if is_ws(s[0]) {
            assert(blank(s) == blank(s.drop_first())) by {
                if blank(s.drop_first()) {
                    assert forall|i: int| 0 <= i < s.len() implies is_ws(#[trigger] s[i]) by {
                        if i > 0 {
                            assert(s[i] == s.drop_first()[i - 1]);
                        }
                    }
                }
            }
        } else {
            assert(!blank(s));
            lemma_trim_end_not_empty(s);
        }
    }
}

proof fn lemma_trim_end_not_empty(s: Seq<char>)
    requires
        s.len() > 0,
        !is_ws(s[0]),
    ensures
        trim_end(s).len() > 0,
    decreases s.len(),
{
    if is_ws(s.last()) {
        lemma_trim_end_not_empty(s.drop_last());
    }
}

proof fn lemma_trim_start_shape(s: Seq<char>)
    ensures
        trim_start(s).len() == 0 || !is_ws(trim_start(s)[0]),
    decreases s.len(),
{
    if s.len() > 0 && is_ws(s[0]) {
        lemma_trim_start_shape(s.drop_first());
    }
}

pub proof fn lemma_trim_end_shape(s: Seq<char>)
    ensures
        trim_end(s).len() <= s.len(),
        forall|i: int| 0 <= i < trim_end(s).len() ==> trim_end(s)[i] == s[i],
        trim_end(s).len() == 0 || !is_ws(trim_end(s).last()),
    decreases s.len(),
{
    if s.len() > 0 && is_ws(s.last()) {
        lemma_trim_end_shape(s.drop_last());
        assert forall|i: int| 0 <= i < trim_end(s).len() implies trim_end(s)[i] == s[i] by {
            assert(s.drop_last()[i] == s[i]);
        }
    }
}

/// Trailing whitespace after a non-whitespace character is trimmed from
/// what follows that character only.
pub proof fn lemma_trim_end_concat(a: Seq<char>, b: Seq<char>)
    requires
        a.len() > 0,
        !is_ws(a.last()),
    ensures
        trim_end(a + b) == a + trim_end(b),
    decreases b.len(),
{
    if b.len() == 0 {
        assert(a + b == a);
        assert(trim_end(a) == a);
    } else if is_ws(b.last()) {
        assert((a + b).drop_last() == a + b.drop_last());
        lemma_trim_end_concat(a, b.drop_last());
    } else {
        assert((a + b).last() == b.last());
    }
}

/// Trimming the end twice is trimming it once.
pub proof fn lemma_trim_end_idempotent(s: Seq<char>)
    ensures
        trim_end(trim_end(s)) == trim_end(s),
{
    lemma_trim_end_shape(s);
}

/// Trimming twice is trimming once.
pub proof fn lemma_trim_idempotent(s: Seq<char>)
    ensures
        trim(trim(s)) == trim(s),
{
    let t = trim_start(s);
    let r = trim(s);
    lemma_trim_start_shape(s);
    lemma_trim_end_shape(t);
    if r.len() > 0 {
        assert(r[0] == t[0]);
    }
    assert(trim_start(r) == r);
    assert(trim_end(r) == r);
}

/// `s.trim()`.
pub fn trim_str(s: &str) -> (out: String)
    ensures
        out@ == trim(s@),
{
    let v = to_chars(s);
    let n = v.len();
    let mut lo: usize = 0;
    while lo < n && is_whitespace(v[lo])
        invariant
            lo <= n,
            n == v@.len(),
            forall|j: int| 0 <= j < lo ==> is_ws(#[trigger] v@[j]),
        decreases n - lo,
    {
        lo = lo + 1;
    }
    proof {
        lemma_trim_start_skip(v@, lo as int);
        if lo < n {
            assert(trim_start(v@.skip(lo as int)) == v@.skip(lo as int));
        } else {
            assert(v@.skip(lo as int).len() == 0);
        }
    }
    let ghost mid = v@.skip(lo as int);
    let mut hi: usize = n;
    while hi > lo && is_whitespace(v[hi - 1])
        invariant
            lo <= hi <= n,
            n == v@.len(),
            mid == v@.skip(lo as int),
            forall|j: int| hi - lo <= j < mid.len() ==> is_ws(#[trigger] mid[j]),
        decreases hi,
    {
        hi = hi - 1;
        assert(mid[hi - lo] == v@[hi as int]);
    }
    proof {
        lemma_trim_end_take(mid, hi - lo);
        let t = mid.take(hi - lo);
        if hi > lo {
            assert(t.last() == v@[hi - 1]);
        }
        assert(trim_end(t) == t);
        assert(t == v@.subrange(lo as int, hi as int));
    }
    let mut out = String::new();
    let mut i: usize = lo;
    while i < hi
        invariant
            lo <= i <= hi <= n,
            n == v@.len(),
            out@ == v@.subrange(lo as int, i as int),
        decreases hi - i,
    {
        push_char(&mut out, v[i]);
        i = i + 1;
        assert(v@.subrange(lo as int, i as int) == v@.subrange(lo as int, i - 1).push(
            v@[i - 1],
        ));
    }
    out
}

/// `s.trim().is_empty()`.
pub fn is_blank(s: &str) -> (r: bool)
    ensures
        r == blank(s@),
{
    let v = to_chars(s);
    let mut i: usize = 0;
    while i < v.len()
        invariant
            i <= v@.len(),
            v@ == s@,
            forall|j: int| 0 <= j < i ==> is_ws(#[trigger] v@[j]),
        decreases v@.len() - i,
    {
        if !is_whitespace(v[i]) {
            return false;
        }
        i = i + 1;
    }
    true
}

/// `s.trim_end()`.
pub fn trim_end_str(s: &str) -> (out: String)
    ensures
        out@ == trim_end(s@),
{
    let v = to_chars(s);
    let mut hi: usize = v.len();
    while hi > 0 && is_whitespace(v[hi - 1])
        invariant
            hi <= v@.len(),
            forall|j: int| hi <= j < v@.len() ==> is_ws(#[trigger] v@[j]),
        decreases hi,
    {
        hi = hi - 1;
    }
    proof {
        lemma_trim_end_take(v@, hi as int);
        assert(trim_end(v@.take(hi as int)) == v@.take(hi as int));
    }
    let mut out = String::new();
    let mut i: usize = 0;
    while i < hi
        invariant
            i <= hi <= v@.len(),
            out@ == v@.take(i as int),
        decreases hi - i,
    {
        push_char(&mut out, v[i]);
        i = i + 1;
        assert(v@.take(i as int) == v@.take(i - 1).push(v@[i - 1]));
    }
    out
}


// ---------------------------------------------------------------------
// Joining and splitting
// ---------------------------------------------------------------------

/// The parts laid end to end with `sep` between neighbours (`[T]::join`).
pub open spec fn join(parts: Seq<Seq<char>>, sep: Seq<char>) -> Seq<char>
    decreases parts.len(),
{
    if parts.len() == 0 {
        Seq::empty()
    } else if parts.len() == 1 {
        parts[0]
    } else {
        join(parts.drop_last(), sep) + sep + parts.last()
    }
}

pub proof fn lemma_join_push(parts: Seq<Seq<char>>, w: Seq<char>, sep: Seq<char>)
    ensures
        join(parts.push(w), sep) == if parts.len() == 0 {
            w
        } else {
            join(parts, sep) + sep + w
        },
{
    assert(parts.push(w).drop_last() == parts);
    if parts.len() == 0 {
        assert(parts.push(w)[0] == w);
    }
}

/// `parts.join(sep)` for a vector of strings.
pub fn join_strings(parts: &Vec<String>, sep: &str) -> (out: String)
    ensures
        out@ == join(views(parts@), sep@),
{
    let mut out = String::new();
    let mut i: usize = 0;
    while i < parts.len()
        invariant
            i <= parts@.len(),
            out@ == join(views(parts@.take(i as int)), sep@),
        decreases parts@.len() - i,
    {
        let ghost before = parts@.take(i as int);
        if i > 0 {
            push_str(&mut out, sep);
        }
        push_str(&mut out, parts[i].as_str());
        proof {
            let now = parts@.take(i + 1);
            assert(now == before.push(parts@[i as int]));
            assert(views(now) == views(before).push(parts@[i as int]@));
            lemma_join_push(views(before), parts@[i as int]@, sep@);
            if i == 0 {
                assert(out@ == parts@[0]@);
            }
        }
        i = i + 1;
    }
    assert(parts@.take(parts@.len() as int) == parts@);
    out
}

/// The maximal runs of non-whitespace characters of `s`, in order
/// (`str::split_whitespace`).
pub open spec fn words(s: Seq<char>) -> Seq<Seq<char>>
    decreases s.len(),
{
    if s.len() == 0 {
        Seq::empty()
    } else {
        let prev = words(s.drop_last());
        let c = s.last();
        if is_ws(c) {
            prev
        } else if s.len() >= 2 && !is_ws(s[s.len() - 2]) {
            prev.update(prev.len() - 1, prev.last().push(c))
        } else {
            prev.push(seq![c])
        }
    }
}

/// `s.split_whitespace().collect::<Vec<_>>().join(" ")`: the words of `s`
/// separated by single spaces.
pub open spec fn collapse(s: Seq<char>) -> Seq<char> {
    join(words(s), seq![' '])
}

pub proof fn lemma_words_nonempty(s: Seq<char>)
    requires
        s.len() > 0,
        !is_ws(s.last()),
    ensures
        words(s).len() > 0,
    decreases s.len(),
{
    if s.len() >= 2 && !is_ws(s[s.len() - 2]) {
        assert(s.drop_last().last() == s[s.len() - 2]);
        lemma_words_nonempty(s.drop_last());
    }
}

/// One step of `collapse`: how appending a character changes the collapsed text.
pub proof fn lemma_collapse_push(s: Seq<char>, c: char)
    ensures
        is_ws(c) ==> collapse(s.push(c)) == collapse(s),
        !is_ws(c) && s.len() > 0 && !is_ws(s.last()) ==> collapse(s.push(c)) == collapse(
            s,
        ).push(c),
        !is_ws(c) && (s.len() == 0 || is_ws(s.last())) ==> collapse(s.push(c)) == if words(
            s,
        ).len() == 0 {
            seq![c]
        } else {
            collapse(s) + seq![' '] + seq![c]
        },
{
    let t = s.push(c);
    assert(t.drop_last() == s);
    let prev = words(s);
    if !is_ws(c) {
        if s.len() > 0 && !is_ws(s.last()) {
            assert(t[t.len() - 2] == s.last());
            lemma_words_nonempty(s);
            let upd = prev.update(prev.len() - 1, prev.last().push(c));
            if prev.len() == 1 {
                assert(upd[0] == prev[0].push(c));
            } else {
                assert(upd.drop_last() == prev.drop_last());
                assert(join(upd, seq![' ']) == join(prev.drop_last(), seq![' ']) + seq![' ']
                    + prev.last().push(c));
                assert(join(upd, seq![' ']) == join(prev, seq![' ']).push(c));
            }
        } else {
            if s.len() > 0 {
                assert(t[t.len() - 2] == s.last());
            }
            lemma_join_push(prev, seq![c], seq![' ']);
        }
    }
}

/// Every word of `s` is non-empty, holds no whitespace, and holds only
/// characters with a property `p` that all of `s` has.
pub proof fn lemma_words_shape(s: Seq<char>, p: spec_fn(char) -> bool)
    requires
        forall|k: int| 0 <= k < s.len() ==> p(#[trigger] s[k]),
    ensures
        forall|i: int| 0 <= i < words(s).len() ==> (#[trigger] words(s)[i]).len() > 0,
        forall|i: int, j: int|
            0 <= i < words(s).len() && 0 <= j < words(s)[i].len() ==> !is_ws(
                #[trigger] words(s)[i][j],
            ) && p(words(s)[i][j]),
    decreases s.len(),
{
    if s.len() > 0 {
        let prev = s.drop_last();
        assert forall|k: int| 0 <= k < prev.len() implies p(#[trigger] prev[k]) by {
            assert(prev[k] == s[k]);
        }
        lemma_words_shape(prev, p);
        let c = s.last();
        assert(p(c)) by {
            assert(s[s.len() - 1] == c);
        }
        let pw = words(prev);
        if !is_ws(c) && s.len() >= 2 && !is_ws(s[s.len() - 2]) {
            assert(prev.last() == s[s.len() - 2]);
            lemma_words_nonempty(prev);
            let w = words(s);
            assert forall|i: int, j: int|
                0 <= i < w.len() && 0 <= j < w[i].len() implies !is_ws(#[trigger] w[i][j]) && p(
                w[i][j],
            ) by {
                if i == w.len() - 1 {
                    if j < pw.last().len() {
                        assert(w[i][j] == pw[i][j]);
                    }
                } else {
                    assert(w[i] == pw[i]);
                }
            }
        } else if !is_ws(c) {
            let w = words(s);
            assert forall|i: int, j: int|
                0 <= i < w.len() && 0 <= j < w[i].len() implies !is_ws(#[trigger] w[i][j]) && p(
                w[i][j],
            ) by {
                if i < pw.len() {
                    assert(w[i] == pw[i]);
                }
            }
        }
    }
}

/// Appending a word to text that ends in whitespace adds that word.
pub proof fn lemma_words_append_word(x: Seq<char>, w: Seq<char>)
    requires
        x.len() == 0 || is_ws(x.last()),
        w.len() > 0,
        forall|j: int| 0 <= j < w.len() ==> !is_ws(#[trigger] w[j]),
    ensures
        words(x + w) == words(x).push(w),
    decreases w.len(),
{
    let t = x + w;
    assert(t.drop_last() == x + w.drop_last());
    assert(t.last() == w.last());
    if w.len() == 1 {
        assert(w.drop_last().len() == 0);
        assert(x + w.drop_last() == x);
        if x.len() > 0 {
            assert(t[t.len() - 2] == x.last());
        }
        assert(seq![w.last()] == w);
    } else {
        lemma_words_append_word(x, w.drop_last());
        assert(t[t.len() - 2] == w[w.len() - 2]);
        let prev = words(x).push(w.drop_last());
        assert(prev.update(prev.len() - 1, prev.last().push(w.last())) =~= words(x).push(w)) by {
            assert(w.drop_last().push(w.last()) == w);
        }
    }
}

/// Splitting words joined by single spaces gives the words back.
pub proof fn lemma_words_join(ws: Seq<Seq<char>>)
    requires
        forall|i: int| 0 <= i < ws.len() ==> (#[trigger] ws[i]).len() > 0,
        forall|i: int, j: int| 0 <= i < ws.len() && 0 <= j < ws[i].len() ==> !is_ws(#[trigger] ws[i][j]),
    ensures
        words(join(ws, seq![' '])) == ws,
    decreases ws.len(),
{
    if ws.len() == 1 {
        lemma_words_append_word(Seq::empty(), ws[0]);
        assert(Seq::<char>::empty() + ws[0] == ws[0]);
        assert(Seq::<Seq<char>>::empty().push(ws[0]) == ws);
    } else if ws.len() > 1 {
        let prev = ws.drop_last();
        lemma_words_join(prev);
        let x = join(prev, seq![' ']) + seq![' '];
        assert(x.drop_last() == join(prev, seq![' ']));
        assert(words(x) == words(join(prev, seq![' '])));
        lemma_words_append_word(x, ws.last());
        assert(prev.push(ws.last()) == ws);
    }
}

/// Every character of the parts and of the separator has `p`, so every
/// character of the joined text has it.
pub proof fn lemma_join_chars(ws: Seq<Seq<char>>, sep: Seq<char>, p: spec_fn(char) -> bool)
    requires
        forall|i: int, j: int| 0 <= i < ws.len() && 0 <= j < ws[i].len() ==> p(#[trigger] ws[i][j]),
        forall|j: int| 0 <= j < sep.len() ==> p(#[trigger] sep[j]),
    ensures
        forall|k: int| 0 <= k < join(ws, sep).len() ==> p(#[trigger] join(ws, sep)[k]),
    decreases ws.len(),
{
    if ws.len() == 1 {
        assert forall|k: int| 0 <= k < join(ws, sep).len() implies p(#[trigger] join(ws, sep)[k]) by {
            assert(join(ws, sep)[k] == ws[0][k]);
        }
    } else if ws.len() > 1 {
        let prev = ws.drop_last();
        assert forall|i: int, j: int| 0 <= i < prev.len() && 0 <= j < prev[i].len() implies p(
            #[trigger] prev[i][j],
        ) by {
            assert(prev[i] == ws[i]);
        }
        lemma_join_chars(prev, sep, p);
        let a = join(prev, sep);
        let l = ws.last();
        assert forall|k: int| 0 <= k < join(ws, sep).len() implies p(#[trigger] join(ws, sep)[k]) by {
            if k < a.len() {
                assert(join(ws, sep)[k] == a[k]);
            } else if k < a.len() + sep.len() {
                assert(join(ws, sep)[k] == sep[k - a.len()]);
            } else {
                assert(join(ws, sep)[k] == l[k - a.len() - sep.len()]);
                assert(l == ws[ws.len() - 1]);
            }
        }
    }
}

/// Joined non-empty parts begin with the first part's first character and
/// end with the last part's last character.
pub proof fn lemma_join_ends(ws: Seq<Seq<char>>, sep: Seq<char>)
    requires
        ws.len() > 0,
        forall|i: int| 0 <= i < ws.len() ==> (#[trigger] ws[i]).len() > 0,
    ensures
        join(ws, sep).len() > 0,
        join(ws, sep)[0] == ws[0][0],
        join(ws, sep).last() == ws.last().last(),
    decreases ws.len(),
{
    if ws.len() > 1 {
        let prev = ws.drop_last();
        assert forall|i: int| 0 <= i < prev.len() implies (#[trigger] prev[i]).len() > 0 by {
            assert(prev[i] == ws[i]);
        }
        lemma_join_ends(prev, sep);
        assert(prev[0] == ws[0]);
    }
}

/// Parts without whitespace, each non-empty, joined by single spaces: every
/// whitespace character is a space with a non-whitespace character on
/// either side of it.
proof fn lemma_join_spacing(ws: Seq<Seq<char>>)
    requires
        forall|i: int| 0 <= i < ws.len() ==> (#[trigger] ws[i]).len() > 0,
        forall|i: int, j: int| 0 <= i < ws.len() && 0 <= j < ws[i].len() ==> !is_ws(#[trigger] ws[i][j]),
    ensures
        forall|k: int|
            0 <= k < join(ws, seq![' ']).len() && is_ws(#[trigger] join(ws, seq![' '])[k]) ==> {
                let t = join(ws, seq![' ']);
                &&& t[k] == ' '
                &&& 0 < k < t.len() - 1
                &&& !is_ws(t[k - 1])
                &&& !is_ws(t[k + 1])
            },
    decreases ws.len(),
{
    let sep = seq![' '];
    if ws.len() == 1 {
        assert forall|k: int| 0 <= k < join(ws, sep).len() implies !is_ws(#[trigger] join(ws, sep)[k]) by {
            assert(join(ws, sep)[k] == ws[0][k]);
        }
    } else if ws.len() > 1 {
        let prev = ws.drop_last();
        assert forall|i: int| 0 <= i < prev.len() implies (#[trigger] prev[i]).len() > 0 by {
            assert(prev[i] == ws[i]);
        }
        assert forall|i: int, j: int| 0 <= i < prev.len() && 0 <= j < prev[i].len() implies !is_ws(
            #[trigger] prev[i][j],
        ) by {
            assert(prev[i] == ws[i]);
        }
        lemma_join_spacing(prev);
        lemma_join_ends(prev, sep);
        let a = join(prev, sep);
        let l = ws.last();
        assert(l == ws[ws.len() - 1]);
        assert(!is_ws(a.last())) by {
            let pl = prev.last();
            assert(pl == prev[prev.len() - 1]);
            assert(!is_ws(prev[prev.len() - 1][pl.len() - 1]));
        }
        assert(!is_ws(l[0]));
        let t = join(ws, sep);
        assert(t == a + sep + l);
        assert forall|k: int| 0 <= k < t.len() && is_ws(#[trigger] t[k]) implies {
            &&& t[k] == ' '
            &&& 0 < k < t.len() - 1
            &&& !is_ws(t[k - 1])
            &&& !is_ws(t[k + 1])
        } by {
            if k < a.len() {
                assert(t[k] == a[k]);
                assert(is_ws(a[k]));
                assert(t[k - 1] == a[k - 1]);
                assert(t[k + 1] == a[k + 1]);
            } else if k == a.len() {
                assert(t[k - 1] == a.last());
                assert(t[k + 1] == l[0]);
            } else {
                assert(t[k] == l[k - a.len() - 1]);
            }
        }
    }
}

/// Collapsed text neither begins nor ends with whitespace, and every
/// whitespace character in it is a single space between two words.
pub proof fn lemma_collapse_spacing(x: Seq<char>)
    ensures
        ({
            let c = collapse(x);
            &&& c.len() == 0 || (!is_ws(c[0]) && !is_ws(c.last()))
            &&& forall|k: int|
                0 <= k < c.len() && is_ws(#[trigger] c[k]) ==> {
                    &&& c[k] == ' '
                    &&& 0 < k < c.len() - 1
                    &&& !is_ws(c[k - 1])
                    &&& !is_ws(c[k + 1])
                }
        }),
{
    let p = |c: char| true;
    lemma_words_shape(x, p);
    lemma_join_spacing(words(x));
    let c = collapse(x);
    if c.len() > 0 {
        assert(!is_ws(c[0]));
        assert(!is_ws(c[c.len() - 1]));
    }
}

/// An element of two sequences laid end to end is in one of them.
pub broadcast proof fn lemma_seq_concat_contains<A>(a: Seq<A>, b: Seq<A>, x: A)
    ensures
        #[trigger] (a + b).contains(x) <==> (a.contains(x) || b.contains(x)),
{
    if a.contains(x) {
        let i = choose|i: int| 0 <= i < a.len() && a[i] == x;
        assert((a + b)[i] == x);
    }
    if b.contains(x) {
        let i = choose|i: int| 0 <= i < b.len() && b[i] == x;
        assert((a + b)[a.len() + i] == x);
    }
    if (a + b).contains(x) {
        let i = choose|i: int| 0 <= i < (a + b).len() && (a + b)[i] == x;
        if i < a.len() {
            assert(a[i] == x);
        } else {
            assert(b[i - a.len()] == x);
        }
    }
}

/// Collapsing twice is collapsing once.
pub proof fn lemma_collapse_idempotent(x: Seq<char>)
    ensures
        collapse(collapse(x)) == collapse(x),
{
    let p = |c: char| true;
    lemma_words_shape(x, p);
    lemma_words_join(words(x));
}

/// Collapsed text neither begins nor ends with whitespace, so trimming it
/// changes nothing.
pub proof fn lemma_trim_collapse(x: Seq<char>)
    ensures
        trim(collapse(x)) == collapse(x),
{
    let p = |c: char| true;
    lemma_words_shape(x, p);
    let c = collapse(x);
    if words(x).len() > 0 {
        lemma_join_ends(words(x), seq![' ']);
        assert(!is_ws(c[0])) by {
            assert(words(x)[0][0] == c[0]);
        }
        assert(!is_ws(c.last())) by {
            let w = words(x);
            assert(w.last() == w[w.len() - 1]);
            assert(w[w.len() - 1][w[w.len() - 1].len() - 1] == c.last());
        }
    }
    assert(trim_start(c) == c);
    assert(trim_end(c) == c);
}

/// `s.split_whitespace().collect::<Vec<_>>().join(" ")` over characters.
pub fn collapse_whitespace(v: &Vec<char>) -> (out: String)
    ensures
        out@ == collapse(v@),
{
    let mut out = String::new();
    let mut i: usize = 0;
    let mut any: bool = false;
    while i < v.len()
        invariant
            i <= v@.len(),
            out@ == collapse(v@.take(i as int)),
            any == (words(v@.take(i as int)).len() > 0),
        decreases v@.len() - i,
    {
        let c = v[i];
        let ghost pre = v@.take(i as int);
        proof {
            assert(v@.take(i + 1) == pre.push(c));
            lemma_collapse_push(pre, c);
            if i > 0 {
                assert(pre.last() == v@[i - 1]);
            }
        }
        if !is_whitespace(c) {
            if i > 0 && !is_whitespace(v[i - 1]) {
                push_char(&mut out, c);
                proof {
                    lemma_words_nonempty(v@.take(i + 1));
                }
            } else {
                if any {
                    push_char(&mut out, ' ');
                }
                push_char(&mut out, c);
                proof {
                    lemma_words_nonempty(v@.take(i + 1));
                }
            }
            any = true;
        } else {
            proof {
                assert(v@.take(i + 1).drop_last() == pre);
            }
        }
        i = i + 1;
    }
    assert(v@.take(v@.len() as int) == v@);
    out
}


// ---------------------------------------------------------------------
// Decimal numbers
// ---------------------------------------------------------------------

pub open spec fn digit_char(d: nat) -> char {
    (d + 48) as char
}

/// The decimal digits of `n`, most significant first, without leading zeros
/// (`u64::to_string`).
pub open spec fn decimal(n: nat) -> Seq<char>
    decreases n,
{
    if n < 10 {
        seq![digit_char(n)]
    } else {
        decimal(n / 10).push(digit_char(n % 10))
    }
}

fn push_decimal(n: u64, out: &mut String)
    ensures
        final(out)@ == old(out)@ + decimal(n as nat),
    decreases n,
{
    if n >= 10 {
        push_decimal(n / 10, out);
    }
    let d: u8 = (n % 10) as u8;
    let c: char = (d + 48) as char;
    push_char(out, c);
}

/// `n.to_string()` for unsigned integers.
pub fn u64_to_string(n: u64) -> (out: String)
    ensures
        out@ == decimal(n as nat),
{
    let mut out = String::new();
    push_decimal(n, &mut out);
    out
}

/// The value of a run of decimal digits.
pub open spec fn digits_value(s: Seq<char>) -> nat
    decreases s.len(),
{
    if s.len() == 0 {
        0
    } else {
        digits_value(s.drop_last()) * 10 + ((s.last() as nat) - 48) as nat
    }
}

pub open spec fn all_digits(s: Seq<char>) -> bool {
    forall|i: int| 0 <= i < s.len() ==> is_digit(#[trigger] s[i])
}

/// `s.parse::<u64>()`: an optional `+`, then one or more decimal digits
/// whose value fits in 64 bits.
pub open spec fn parse_u64_spec(s: Seq<char>) -> Option<u64> {
    let body = if s.len() > 0 && s[0] == '+' {
        s.drop_first()
    } else {
        s
    };
    if body.len() > 0 && all_digits(body) && digits_value(body) <= u64::MAX {
        Some(digits_value(body) as u64)
    } else {
        None
    }
}

proof fn lemma_digits_value_grows(s: Seq<char>, i: int)
    requires
        0 <= i <= s.len(),
        all_digits(s),
    ensures
        digits_value(s.take(i)) <= digits_value(s),
    decreases s.len() - i,
{
    if i < s.len() {
        assert(s.drop_last().take(i) == s.take(i));
        assert forall|j: int| 0 <= j < s.drop_last().len() implies is_digit(
            #[trigger] s.drop_last()[j],
        ) by {
            assert(s.drop_last()[j] == s[j]);
        }
        lemma_digits_value_grows(s.drop_last(), i);
        assert(is_digit(s[s.len() - 1]));
    } else {
        assert(s.take(i) == s);
    }
}

/// `s.parse::<u64>().ok()`.
pub fn parse_u64(s: &str) -> (r: Option<u64>)
    ensures
        r == parse_u64_spec(s@),
{
    let v = to_chars(s);
    let n = v.len();
    let start: usize = if n > 0 && v[0] == '+' {
        1
    } else {
        0
    };
    let ghost body = v@.skip(start as int);
    proof {
        if start == 1 {
            assert(body == v@.drop_first());
        } else {
            assert(body == v@);
        }
    }
    assert(body == (if s@.len() > 0 && s@[0] == '+' {
        s@.drop_first()
    } else {
        s@
    }));
    if start >= n {
        assert(body.len() == 0);
        return None;
    }
    let mut i: usize = start;
    while i < n
        invariant
            start <= i <= n,
            n == v@.len(),
            v@ == s@,
            body == v@.skip(start as int),
            body == (if s@.len() > 0 && s@[0] == '+' {
                s@.drop_first()
            } else {
                s@
            }),
            forall|j: int| start <= j < i ==> is_digit(#[trigger] v@[j]),
        decreases n - i,
    {
        if !is_ascii_digit(v[i]) {
            assert(!is_digit(body[i - start]));
            return None;
        }
        i = i + 1;
    }
    assert(all_digits(body)) by {
        assert forall|j: int| 0 <= j < body.len() implies is_digit(#[trigger] body[j]) by {
            assert(body[j] == v@[j + start]);
        }
    }
    let mut value: u64 = 0;
    let mut k: usize = start;
    while k < n
        invariant
            start <= k <= n,
            n == v@.len(),
            v@ == s@,
            body == v@.skip(start as int),
            body == (if s@.len() > 0 && s@[0] == '+' {
                s@.drop_first()
            } else {
                s@
            }),
            all_digits(body),
            value as nat == digits_value(body.take(k - start)),
        decreases n - k,
    {
        let c = v[k];
        assert(body[k - start] == c);
        assert(is_digit(c));
        let d: u64 = (c as u32 - 48) as u64;
        assert(body.take(k - start + 1).drop_last() == body.take(k - start));
        if value > (u64::MAX - d) / 10 {
            proof {
                assert(digits_value(body.take(k - start + 1)) == value * 10 + d);
                assert(value * 10 + d > u64::MAX);
                lemma_digits_value_grows(body, k - start + 1);
            }
            return None;
        }
        value = value * 10 + d;
        k = k + 1;
    }
    assert(body.take(n - start) == body);
    Some(value)
}

// ---------------------------------------------------------------------
// Searching in text
// ---------------------------------------------------------------------

/// `s` begins with `p`.
pub open spec fn starts_with(s: Seq<char>, p: Seq<char>) -> bool {
    p.len() <= s.len() && s.take(p.len() as int) == p
}

/// `p` occurs in `s` at index `i`.
pub open spec fn occurs_at(s: Seq<char>, p: Seq<char>, i: int) -> bool {
    0 <= i && i + p.len() <= s.len() && s.subrange(i, i + p.len()) == p
}

/// `p` occurs somewhere in `s` (`str::contains`).
pub open spec fn contains(s: Seq<char>, p: Seq<char>) -> bool {
    exists|i: int| occurs_at(s, p, i)
}

/// The first index, from `k` on, where `p` occurs in `s` (`str::find`).
pub open spec fn find_from(s: Seq<char>, p: Seq<char>, k: int) -> Option<int>
    decreases s.len() + 1 - k,
{
    if k < 0 || k + p.len() > s.len() {
        None
    } else if occurs_at(s, p, k) {
        Some(k)
    } else {
        find_from(s, p, k + 1)
    }
}

pub proof fn lemma_find_from(s: Seq<char>, p: Seq<char>, k: int)
    requires
        0 <= k,
    ensures
        find_from(s, p, k) matches Some(i) ==> k <= i && occurs_at(s, p, i) && forall|j: int|
            k <= j < i ==> !occurs_at(s, p, j),
        find_from(s, p, k) is None ==> forall|j: int| k <= j ==> !occurs_at(s, p, j),
    decreases s.len() + 1 - k,
{
    if k + p.len() <= s.len() && !occurs_at(s, p, k) {
        lemma_find_from(s, p, k + 1);
    }
}

pub proof fn lemma_contains_find(s: Seq<char>, p: Seq<char>)
    ensures
        contains(s, p) == (find_from(s, p, 0) is Some),
{
    lemma_find_from(s, p, 0);
    if let Some(i) = find_from(s, p, 0) {
        assert(occurs_at(s, p, i));
    }
}

fn occurs_at_exec(s: &Vec<char>, p: &Vec<char>, i: usize) -> (r: bool)
    requires
        i + p@.len() <= s@.len(),
    ensures
        r == occurs_at(s@, p@, i as int),
{
    let slen = s.len();
    let mut j: usize = 0;
    while j < p.len()
        invariant
            slen == s@.len(),
            j <= p@.len(),
            i + p@.len() <= s@.len(),
            forall|t: int| 0 <= t < j ==> s@[i + t] == p@[t],
        decreases p@.len() - j,
    {
        let idx: usize = i + j;
        if s[idx] != p[j] {
            assert(s@.subrange(i as int, i + p@.len())[j as int] != p@[j as int]);
            return false;
        }
        j = j + 1;
    }
    assert(s@.subrange(i as int, i + p@.len()) == p@);
    true
}

/// The first index at which `p` occurs in `s`.
pub fn find_chars(s: &Vec<char>, p: &Vec<char>) -> (r: Option<usize>)
    ensures
        r matches Some(i) ==> find_from(s@, p@, 0) == Some(i as int),
        r is None ==> find_from(s@, p@, 0) is None,
{
    if p.len() > s.len() {
        return None;
    }
    let mut k: usize = 0;
    let last: usize = s.len() - p.len();
    loop
        invariant
            p@.len() <= s@.len(),
            last == s@.len() - p@.len(),
            k <= last,
            find_from(s@, p@, 0) == find_from(s@, p@, k as int),
        decreases last - k,
    {
        if occurs_at_exec(s, p, k) {
            return Some(k);
        }
        if k == last {
            assert(find_from(s@, p@, k + 1) is None);
            return None;
        }
        k = k + 1;
    }
}

/// `s.contains(p)`.
pub fn contains_chars(s: &Vec<char>, p: &Vec<char>) -> (r: bool)
    ensures
        r == contains(s@, p@),
{
    proof {
        lemma_contains_find(s@, p@);
    }
    find_chars(s, p).is_some()
}

/// `s.starts_with(p)`.
pub fn starts_with_str(s: &str, p: &str) -> (r: bool)
    ensures
        r == starts_with(s@, p@),
{
    let sv = to_chars(s);
    let pv = to_chars(p);
    if pv.len() > sv.len() {
        return false;
    }
    let r = occurs_at_exec(&sv, &pv, 0);
    assert(sv@.subrange(0, pv@.len() as int) == sv@.take(pv@.len() as int));
    r
}

} // verus!
