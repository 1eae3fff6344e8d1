//! Fetching several pages of one search and combining them.
use vstd::prelude::*;

use crate::model::{SearchItem, SearchResult};

verus! {

/// How many pages to fetch at most: `max_pages`, or all, and at least one.
pub open spec fn page_limit(max_pages: Option<u32>) -> u32 {
    let limit = match max_pages {
        Some(m) => m,
        None => u32::MAX,
    };
    if limit >= 1 {
        limit
    } else {
        1
    }
}

/// The last page to fetch: `page_limit` pages from `start` on, but no
/// further than the last page there is.
pub open spec fn target_page(start: u32, last: u32, max_pages: Option<u32>) -> u32 {
    let reach = start + (page_limit(max_pages) - 1);
    let reach = if reach > u32::MAX {
        u32::MAX as int
    } else {
        reach
    };
    if reach < last {
        reach as u32
    } else {
        last
    }
}

/// Fetching all pages never goes past the last page there is nor fetches
/// more pages than `max_pages` allows, and fetches as many as both allow.
pub proof fn law_page_range_within_limits(start: u32, last: u32, max_pages: Option<u32>)
    ensures
        target_page(start, last, max_pages) <= last,
        target_page(start, last, max_pages) >= start ==> target_page(start, last, max_pages)
            - start + 1 <= page_limit(max_pages),
        start <= last && start + page_limit(max_pages) - 1 <= u32::MAX ==> target_page(
            start,
            last,
            max_pages,
        ) - start + 1 == if page_limit(max_pages) <= last - start + 1 {
            page_limit(max_pages) as int
        } else {
            last - start + 1
        },
{
}

/// The pages of a search still to fetch after the first one.
pub struct PageWalk {
    /// The page fetched first.
    pub start_page: u32,
    /// The last page to fetch.
    pub target_last_page: u32,
    /// The page fetched most recently.
    pub last_fetched: u32,
}

/// The walk over the pages of `first`'s search, for at most `max_pages`
/// pages in all, before any further page is fetched.
pub open spec fn walk_start(first: SearchResult, max_pages: Option<u32>) -> PageWalk {
    PageWalk {
        start_page: first.current_page,
        target_last_page: target_page(first.current_page, first.last_page, max_pages),
        last_fetched: first.current_page,
    }
}

/// The pages that the walk still asks for, in the order in which
/// `next_page` hands them out.
pub open spec fn requested_pages(w: PageWalk) -> Seq<u32>
    decreases w.target_last_page - w.last_fetched,
{
    if w.last_fetched < w.target_last_page {
        seq![(w.last_fetched + 1) as u32] + requested_pages(
            PageWalk { last_fetched: (w.last_fetched + 1) as u32, ..w },
        )
    } else {
        Seq::empty()
    }
}

/// The result of a walk once `finish` has set its paging fields.
pub open spec fn finished(w: PageWalk, combined: SearchResult) -> SearchResult {
    SearchResult {
        returned_items: combined.items@.len() as usize,
        fetched_pages: if w.target_last_page >= w.start_page {
            (w.target_last_page - w.start_page + 1) as u32
        } else {
            1
        },
        fetched_from_page: w.start_page,
        fetched_to_page: w.target_last_page,
        is_end_of_paging: w.target_last_page >= combined.last_page,
        ..combined
    }
}

/// The items of the pages, laid end to end.
pub open spec fn pages_items(pages: Seq<SearchResult>) -> Seq<SearchItem>
    decreases pages.len(),
{
    if pages.len() == 0 {
        Seq::empty()
    } else {
        pages_items(pages.drop_last()) + pages.last().items@
    }
}

proof fn lemma_requested_range(w: PageWalk)
    ensures
        requested_pages(w) == Seq::new(
            if w.last_fetched < w.target_last_page {
                (w.target_last_page - w.last_fetched) as nat
            } else {
                0
            },
            |i: int| (w.last_fetched + 1 + i) as u32,
        ),
    decreases w.target_last_page - w.last_fetched,
{
    if w.last_fetched < w.target_last_page {
        let w2 = PageWalk { last_fetched: (w.last_fetched + 1) as u32, ..w };
        lemma_requested_range(w2);
        assert(requested_pages(w) =~= Seq::new(
            (w.target_last_page - w.last_fetched) as nat,
            |i: int| (w.last_fetched + 1 + i) as u32,
        ));
    }
}

/// Fetching all pages of a search asks for the pages after the first one up
/// to the target page, each once and in order, none past the last page
/// there is; and the combined result holds the first page's items and then
/// those of each further page, the number of items, and the range and
/// number of the pages fetched (at most `max_pages`), and tells whether the
/// last page there is was reached.
pub proof fn law_search_all_walk(
    first: SearchResult,
    max_pages: Option<u32>,
    pages: Seq<SearchResult>,
    combined: SearchResult,
)
    requires
        pages.len() == requested_pages(walk_start(first, max_pages)).len(),
        combined == (SearchResult { items: combined.items, ..first }),
        combined.items@ == first.items@ + pages_items(pages),
        combined.items@.len() <= usize::MAX,
    ensures
        ({
            let s = first.current_page;
            let t = target_page(first.current_page, first.last_page, max_pages);
            let w = walk_start(first, max_pages);
            let r = finished(w, combined);
            &&& requested_pages(w) == Seq::new(
                if s < t {
                    (t - s) as nat
                } else {
                    0
                },
                |i: int| (s + 1 + i) as u32,
            )
            &&& forall|i: int|
                0 <= i < requested_pages(w).len() ==> #[trigger] requested_pages(w)[i]
                    <= first.last_page
            &&& r.items@ == first.items@ + pages_items(pages)
            &&& r.returned_items == r.items@.len()
            &&& r.fetched_from_page == s
            &&& r.fetched_to_page == t
            &&& t >= s ==> r.fetched_pages == t - s + 1 && r.fetched_pages == pages.len() + 1
                && r.fetched_pages <= page_limit(max_pages)
            &&& r.is_end_of_paging == (t >= first.last_page)
            &&& r == (SearchResult {
                items: r.items,
                returned_items: r.returned_items,
                fetched_pages: r.fetched_pages,
                fetched_from_page: r.fetched_from_page,
                fetched_to_page: r.fetched_to_page,
                is_end_of_paging: r.is_end_of_paging,
                ..first
            })
        }),
{
    let w = walk_start(first, max_pages);
    lemma_requested_range(w);
    law_page_range_within_limits(first.current_page, first.last_page, max_pages);
}

/// Without a page limit, fetching all pages of a search reaches the last
/// page there is: every page after the first one up to the last is asked
/// for, in order, and the combined result spans all of them and tells that
/// the last page was reached. A limit of 0 pages is taken as 1.
pub proof fn law_all_pages_without_limit(first: SearchResult, combined: SearchResult)
    requires
        first.current_page <= first.last_page,
        first.current_page >= 1 || first.last_page < u32::MAX,
        combined.last_page == first.last_page,
    ensures
        page_limit(None) == u32::MAX,
        page_limit(Some(0)) == 1,
        forall|m: u32| m >= 1 ==> #[trigger] page_limit(Some(m)) == m,
        target_page(first.current_page, first.last_page, None) == first.last_page,
        requested_pages(walk_start(first, None)) == Seq::new(
            (first.last_page - first.current_page) as nat,
            |i: int| (first.current_page + 1 + i) as u32,
        ),
        finished(walk_start(first, None), combined).fetched_from_page == first.current_page,
        finished(walk_start(first, None), combined).fetched_to_page == first.last_page,
        finished(walk_start(first, None), combined).fetched_pages == first.last_page
            - first.current_page + 1,
        finished(walk_start(first, None), combined).is_end_of_paging,
{
    let w = walk_start(first, None);
    assert(w.target_last_page == first.last_page);
    lemma_requested_range(w);
    if first.current_page == first.last_page {
        assert(requested_pages(w) =~= Seq::new(0, |i: int| (first.current_page + 1 + i) as u32));
    }
}

impl PageWalk {
    /// The walk spans fewer than `u32::MAX` pages after the first.
    pub open spec fn wf(self) -> bool {
        self.target_last_page - self.start_page < u32::MAX
    }

    /// The walk after the first page `first`, for at most `max_pages` pages.
    pub fn new(first: &SearchResult, max_pages: Option<u32>) -> (w: Self)
        ensures
            w.start_page == first.current_page,
            w.target_last_page == target_page(first.current_page, first.last_page, max_pages),
            w.last_fetched == first.current_page,
            w == walk_start(*first, max_pages),
            w.wf(),
    {
        let start = first.current_page;
        let limit = match max_pages {
            Some(m) => m,
            None => u32::MAX,
        };
        let limit = if limit >= 1 {
            limit
        } else {
            1
        };
        let reach = start.saturating_add(limit - 1);
        let target = if reach < first.last_page {
            reach
        } else {
            first.last_page
        };
        PageWalk { start_page: start, target_last_page: target, last_fetched: start }
    }

    /// The next page to fetch, or none when the target page is fetched.
    pub fn next_page(&mut self) -> (r: Option<u32>)
        ensures
            old(self).last_fetched < old(self).target_last_page ==> r == Some(
                (old(self).last_fetched + 1) as u32,
            ) && *final(self) == (PageWalk {
                last_fetched: (old(self).last_fetched + 1) as u32,
                ..*old(self)
            }),
            old(self).last_fetched >= old(self).target_last_page ==> r is None && *final(self)
                == *old(self),
            r matches Some(p) ==> requested_pages(*old(self)) == seq![p] + requested_pages(
                *final(self),
            ),
            r is None ==> requested_pages(*old(self)).len() == 0,
    {
        if self.last_fetched < self.target_last_page {
            self.last_fetched = self.last_fetched + 1;
            Some(self.last_fetched)
        } else {
            None
        }
    }

    /// Sets the paging fields of the combined result: the number of items,
    /// the number and range of the pages fetched, and whether the last page
    /// there is was reached.
    pub fn finish(&self, combined: &mut SearchResult)
        requires
            self.wf(),
        ensures
            *final(combined) == finished(*self, *old(combined)),
    {
        combined.returned_items = combined.items.len();
        combined.fetched_pages = if self.target_last_page >= self.start_page {
            self.target_last_page - self.start_page + 1
        } else {
            1
        };
        combined.fetched_from_page = self.start_page;
        combined.fetched_to_page = self.target_last_page;
        combined.is_end_of_paging = self.target_last_page >= combined.last_page;
    }
}

/// Adds the items of a further page to the combined result.
pub fn add_page(combined: &mut SearchResult, next: SearchResult)
    ensures
        final(combined).items@ == old(combined).items@ + next.items@,
        *final(combined) == (SearchResult { items: final(combined).items, ..*old(combined) }),
{
    let mut next = next;
    combined.items.append(&mut next.items);
}

} // verus!
