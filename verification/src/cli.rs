//! Decisions of the command line: `key=value` parameters and the answers
//! of the interactive category picker.
use vstd::prelude::*;

use crate::text::{
    find_chars, find_from, from_chars, owned, parse_u64, parse_u64_spec, to_chars, trim, trim_str,
};

verus! {

/// `key=value` split at the first `=`, both sides trimmed; none without an `=`.
pub open spec fn key_value(input: Seq<char>) -> Option<(Seq<char>, Seq<char>)> {
    match find_from(input, seq!['='], 0) {
        Some(i) => Some((trim(input.take(i)), trim(input.skip(i + 1)))),
        None => None,
    }
}

/// A raw query parameter given as `key=value`; both sides are trimmed and
/// must not be empty.
pub fn parse_key_value(input: &str) -> (r: Result<(String, String), String>)
    ensures
        key_value(input@) is None ==> (r matches Err(e) && e@ == "expected key=value"@),
        key_value(input@) matches Some((k, v)) ==> if k.len() == 0 || v.len() == 0 {
            r matches Err(e) && e@ == "expected non-empty key=value"@
        } else {
            r matches Ok((rk, rv)) && rk@ == k && rv@ == v
        },
{
    let chars = to_chars(input);
    let mut eq: Vec<char> = Vec::new();
    eq.push('=');
    assert(eq@ =~= seq!['=']);
    let at = find_chars(&chars, &eq);
    proof {
        crate::text::lemma_find_from(chars@, eq@, 0);
    }
    let i = match at {
        Some(i) => i,
        None => return Err(owned("expected key=value")),
    };
    let mut before = chars.clone();
    let after_all = before.split_off(i);
    let mut after = after_all;
    after.remove(0);
    assert(before@ == chars@.take(i as int));
    assert(after@ =~= chars@.skip(i + 1));
    let key = trim_str(from_chars(before.as_slice()).as_str());
    let value = trim_str(from_chars(after.as_slice()).as_str());
    if key.as_str().is_empty() || value.as_str().is_empty() {
        return Err(owned("expected non-empty key=value"));
    }
    Ok((key, value))
}

/// A price range given on the command line is refused when its lowest
/// price is above its highest.
pub fn check_price_range(price_from: Option<u64>, price_to: Option<u64>) -> (r: Result<(), String>)
    ensures
        (match (price_from, price_to) {
            (Some(min), Some(max)) => min > max,
            _ => false,
        }) ==> (r matches Err(e) && e@ == "--price-from cannot be greater than --price-to"@),
        !(match (price_from, price_to) {
            (Some(min), Some(max)) => min > max,
            _ => false,
        }) ==> r is Ok,
{
    match (price_from, price_to) {
        (Some(min), Some(max)) => {
            if min > max {
                return Err(owned("--price-from cannot be greater than --price-to"));
            }
            Ok(())
        },
        _ => Ok(()),
    }
}

/// What an answer to the category picker asks for.
pub enum PickStep {
    /// Take the suggestion at this index.
    Choose(usize),
    /// A number outside the list.
    Invalid(usize),
    /// Show the suggestions for this filter text.
    NewFilter(String),
}

/// `s.parse::<usize>()`.
pub open spec fn parse_usize_spec(s: Seq<char>) -> Option<usize> {
    match parse_u64_spec(s) {
        Some(v) => if v <= usize::MAX {
            Some(v as usize)
        } else {
            None
        },
        None => None,
    }
}

/// The answer to the picker, given whether the current filter is empty and
/// how many suggestions were listed: Enter takes the first suggestion when
/// there is a filter; a number from 1 to `count` takes that suggestion;
/// another number is invalid; other text becomes the new filter.
pub fn pick_step(answer: &str, filter_is_empty: bool, count: usize) -> (r: PickStep)
    ensures
        ({
            let t = trim(answer@);
            if t.len() == 0 && !filter_is_empty {
                r matches PickStep::Choose(i) && i == 0
            } else {
                match parse_usize_spec(t) {
                    Some(n) => if 1 <= n <= count {
                        r matches PickStep::Choose(i) && i == n - 1
                    } else {
                        r matches PickStep::Invalid(m) && m == n
                    },
                    None => r matches PickStep::NewFilter(f) && f@ == t,
                }
            }
        }),
{
    let trimmed = trim_str(answer);
    if trimmed.as_str().is_empty() && !filter_is_empty {
        return PickStep::Choose(0);
    }
    match parse_u64(trimmed.as_str()) {
        Some(v) => {
            if v <= usize::MAX as u64 {
                let n = v as usize;
                if 1 <= n && n <= count {
                    PickStep::Choose(n - 1)
                } else {
                    PickStep::Invalid(n)
                }
            } else {
                PickStep::NewFilter(trimmed)
            }
        },
        None => PickStep::NewFilter(trimmed),
    }
}

} // verus!
