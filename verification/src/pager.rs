//! The "load more" state of the notes and activity streams: pages are fetched
//! one after another until a short page or an error says there are no more.

use vstd::prelude::*;

verus! {

/// What the stream shows below its items.
#[derive(Debug, Clone, Copy, PartialEq, Eq, Structural)]
pub enum PagerFooter {
    /// A page is being fetched.
    Loading,
    /// More pages can be asked for.
    LoadMore,
    /// Nothing was ever loaded and nothing more will be.
    Nothing,
    /// Everything has been loaded.
    End,
}

/// The items loaded so far and where the paging stands.
pub struct Pager<T> {
    /// The items of all pages loaded so far, in order.
    pub items: Vec<T>,
    /// The page last asked for.
    pub page: usize,
    /// A page has been asked for and has not arrived.
    pub is_loading: bool,
    /// The last page was full, so there may be more.
    pub has_more: bool,
    /// Number of items in a full page.
    pub per_page: usize,
}

/// The abstract state of a pager: everything but the items.
pub struct PagerState {
    pub page: nat,
    pub is_loading: bool,
    pub has_more: bool,
    pub per_page: nat,
}

impl<T> Pager<T> {
    pub open spec fn state(&self) -> PagerState {
        PagerState {
            page: self.page as nat,
            is_loading: self.is_loading,
            has_more: self.has_more,
            per_page: self.per_page as nat,
        }
    }
}

/// The state after a page of `count` items arrives: loading ends, and a short
/// page means there are no more.
pub open spec fn after_page(st: PagerState, count: nat) -> PagerState {
    PagerState { is_loading: false, has_more: st.has_more && count >= st.per_page, ..st }
}

/// The state after fetching a page failed: loading ends and no more pages are
/// asked for.
pub open spec fn after_failure(st: PagerState) -> PagerState {
    PagerState { is_loading: false, has_more: false, ..st }
}

/// Whether asking for more starts a fetch: only when nothing is loading and
/// there may be more.
pub open spec fn starts_fetch(st: PagerState) -> bool {
    !st.is_loading && st.has_more
}

/// The state after the reader asks for more.
pub open spec fn after_load_more(st: PagerState) -> PagerState {
    if starts_fetch(st) {
        PagerState { is_loading: true, page: st.page + 1, ..st }
    } else {
        st
    }
}

/// The footer shown in a state, with `empty` telling whether no item has been
/// loaded.
pub open spec fn footer_of(st: PagerState, empty: bool) -> PagerFooter {
    if st.is_loading {
        PagerFooter::Loading
    } else if st.has_more {
        PagerFooter::LoadMore
    } else if empty {
        PagerFooter::Nothing
    } else {
        PagerFooter::End
    }
}

impl<T> Pager<T> {
    /// A stream of pages of `per_page` items, before anything has arrived.
    pub fn new(per_page: usize) -> (p: Self)
        ensures
            p.items@.len() == 0,
            p.state() == (PagerState { page: 0, is_loading: false, has_more: true, per_page: per_page as nat }),
    {
        Pager { items: Vec::new(), page: 0, is_loading: false, has_more: true, per_page }
    }

    /// A page arrived with the items of `batch`.
    pub fn page_loaded(&mut self, batch: Vec<T>)
        ensures
            final(self).items@ == old(self).items@ + batch@,
            final(self).state() == after_page(old(self).state(), batch@.len()),
    {
        if batch.len() < self.per_page {
            self.has_more = false;
        }
        let mut batch = batch;
        self.items.append(&mut batch);
        self.is_loading = false;
    }

    /// Fetching a page failed.
    pub fn page_failed(&mut self)
        ensures
            final(self).items@ == old(self).items@,
            final(self).state() == after_failure(old(self).state()),
    {
        self.is_loading = false;
        self.has_more = false;
    }

    /// The reader asked for more; returns whether the next page is to be
    /// fetched.
    pub fn load_more(&mut self) -> (fetch: bool)
        requires
            old(self).page < usize::MAX,
        ensures
            fetch == starts_fetch(old(self).state()),
            final(self).items@ == old(self).items@,
            final(self).state() == after_load_more(old(self).state()),
    {
        if !self.is_loading && self.has_more {
            self.is_loading = true;
            self.page = self.page + 1;
            true
        } else {
            false
        }
    }

    /// What to show below the items.
    pub fn footer(&self) -> (f: PagerFooter)
        ensures
            f == footer_of(self.state(), self.items@.len() == 0),
    {
        if self.is_loading {
            PagerFooter::Loading
        } else if self.has_more {
            PagerFooter::LoadMore
        } else if self.items.len() == 0 {
            PagerFooter::Nothing
        } else {
            PagerFooter::End
        }
    }

    /// Whether the stream says it has nothing at all: no items, and no more
    /// to come.
    pub fn is_empty_for_good(&self) -> (b: bool)
        ensures
            b == (self.items@.len() == 0 && !self.has_more),
    {
        self.items.len() == 0 && !self.has_more
    }
}

/// Once a stream has no more pages, nothing brings them back: a short page or
/// a failure ends the paging for good, and asking for more then fetches
/// nothing.
pub proof fn law_paging_ends_for_good(st: PagerState, count: nat)
    requires
        !st.has_more,
    ensures
        !after_page(st, count).has_more,
        !after_failure(st).has_more,
        !starts_fetch(st),
        after_load_more(st) == st,
{
}

/// A page shorter than a full page ends the paging.
pub proof fn law_short_page_is_the_last(st: PagerState, count: nat)
    requires
        count < st.per_page,
    ensures
        !after_page(st, count).has_more,
        !starts_fetch(after_page(st, count)),
{
}

/// While a page is loading, asking for more again fetches nothing.
pub proof fn law_one_fetch_at_a_time(st: PagerState)
    requires
        starts_fetch(st),
    ensures
        !starts_fetch(after_load_more(st)),
        after_load_more(after_load_more(st)) == after_load_more(st),
{
}

} // verus!
