//! The decisions of a search before its first page is fetched.
use vstd::prelude::*;

use crate::error::FinnError;
use crate::ident::{id_chars, parse_category_id, id_query_param};
use crate::model::{CategoryEntry, CategoryView, SearchParams};
use crate::text::{blank, is_blank, trim, trim_str};

verus! {

/// A search needs search text.
pub fn check_query(params: &SearchParams) -> (r: Result<(), FinnError>)
    ensures
        blank(params.query@) ==> r matches Err(FinnError::EmptyQuery),
        !blank(params.query@) ==> r is Ok,
{
    if is_blank(params.query.as_str()) {
        Err(FinnError::EmptyQuery)
    } else {
        Ok(())
    }
}

/// What the category of a search asks for.
pub enum CategoryPlan {
    /// No category.
    NoCategory,
    /// A category given by id, used as it is.
    Direct(CategoryEntry),
    /// A category given by text (trimmed), to be looked up among FINN's categories.
    Lookup(String),
}

/// What to do with the category text of a search: nothing when there is
/// none or it is blank; use it directly when it is a category id; else
/// look it up.
pub fn plan_category(input: Option<&str>) -> (r: CategoryPlan)
    ensures
        match input {
            None => r is NoCategory,
            Some(text) => if trim(text@).len() == 0 {
                r is NoCategory
            } else if id_chars(trim(text@)) {
                r matches CategoryPlan::Direct(c) && c@ == (CategoryView {
                    label: trim(text@),
                    path: seq![trim(text@)],
                    query_param: id_query_param(trim(text@)),
                    value: trim(text@),
                })
            } else {
                r matches CategoryPlan::Lookup(t) && t@ == trim(text@)
            },
        },
{
    match input {
        None => CategoryPlan::NoCategory,
        Some(text) => {
            let trimmed = trim_str(text);
            if trimmed.as_str().is_empty() {
                return CategoryPlan::NoCategory;
            }
            proof {
                crate::text::lemma_trim_idempotent(text@);
            }
            match parse_category_id(trimmed.as_str()) {
                Some(c) => CategoryPlan::Direct(c),
                None => CategoryPlan::Lookup(trimmed),
            }
        },
    }
}

/// The page a search starts on: the one asked for, and at least 1.
pub fn first_page(params: &SearchParams) -> (r: u32)
    ensures
        r == (if params.page >= 1 { params.page } else { 1 }),
{
    if params.page >= 1 {
        params.page
    } else {
        1
    }
}

} // verus!
