use vstd::prelude::*;

use crate::error::GitsError;
use crate::repo::Project;
use crate::time::{earlier, parse_timestamp, timestamp_of, Timestamp};

verus! {

/// How many projects a listing page is asked to hold.
pub const PAGE_SIZE: u64 = 100;

/// What a page of a newest-first listing means for the scan: `Some(true)` to
/// stop (the page is empty, or its newest item is older than the watermark),
/// `Some(false)` to keep the page and go on, `None` where the newest item's
/// timestamp is malformed.
pub open spec fn page_verdict(page: Seq<Project>, watermark: Timestamp) -> Option<bool> {
    if page.len() == 0 {
        Some(true)
    } else {
        match timestamp_of(page[0].created_at@) {
            Some(t) => Some(earlier(t, watermark)),
            None => None,
        }
    }
}

/// The state of one host's incremental discovery.
pub struct DiscoveryState {
    pub watermark: Timestamp,
    /// The page to request next, or the last one requested once finished.
    pub next_page: nat,
    pub projects: Seq<Project>,
    pub finished: bool,
}

/// The state before the first request.
pub open spec fn initial_state(watermark: Timestamp) -> DiscoveryState {
    DiscoveryState { watermark, next_page: 1, projects: seq![], finished: false }
}

/// The state after a non-empty page came back whose newest item was created at
/// `newest`: older than the watermark ends the scan and keeps nothing of the
/// page; otherwise the page is kept whole and the next one is due.
pub open spec fn after_newest(st: DiscoveryState, page: Seq<Project>, newest: Timestamp) -> DiscoveryState {
    if earlier(newest, st.watermark) {
        DiscoveryState { finished: true, ..st }
    } else {
        DiscoveryState { next_page: st.next_page + 1, projects: st.projects + page, ..st }
    }
}

/// The state after the page `next_page` came back as `page`.
pub open spec fn after_page(st: DiscoveryState, page: Seq<Project>) -> DiscoveryState {
    if page.len() == 0 {
        DiscoveryState { finished: true, ..st }
    } else {
        match timestamp_of(page[0].created_at@) {
            Some(t) => after_newest(st, page, t),
            None => st,
        }
    }
}

/// The state after the remote answered with `pages` in order: an answer that
/// comes after the scan finished changes nothing.
pub open spec fn run_discovery(watermark: Timestamp, pages: Seq<Seq<Project>>) -> DiscoveryState
    decreases pages.len(),
{
    if pages.len() == 0 {
        initial_state(watermark)
    } else {
        let st = run_discovery(watermark, pages.drop_last());
        if st.finished {
            st
        } else {
            after_page(st, pages.last())
        }
    }
}

/// All items of `pages`, page after page.
pub open spec fn joined(pages: Seq<Seq<Project>>) -> Seq<Project>
    decreases pages.len(),
{
    if pages.len() == 0 {
        seq![]
    } else {
        joined(pages.drop_last()) + pages.last()
    }
}

/// Paginated, newest-first discovery of one host's projects, stopping at a
/// recency watermark. The caller fetches the page that `next_request` names and
/// hands it to `on_page`, until `next_request` gives `None`.
pub struct Discovery {
    watermark: Timestamp,
    next_page: u64,
    projects: Vec<Project>,
    finished: bool,
}

impl View for Discovery {
    type V = DiscoveryState;

    closed spec fn view(&self) -> DiscoveryState {
        DiscoveryState {
            watermark: self.watermark,
            next_page: self.next_page as nat,
            projects: self.projects@,
            finished: self.finished,
        }
    }
}

impl Discovery {
    /// A scan that has requested nothing yet.
    pub fn new(watermark: Timestamp) -> (r: Discovery)
        ensures
            r@ == initial_state(watermark),
    {
        Discovery { watermark, next_page: 1, projects: Vec::new(), finished: false }
    }

    /// The page number to request next, or `None` once the scan is over.
    pub fn next_request(&self) -> (r: Option<u64>)
        ensures
            self@.finished ==> r is None,
            !self@.finished ==> r is Some && r->0 as nat == self@.next_page,
    {
        if self.finished {
            None
        } else {
            Some(self.next_page)
        }
    }

    pub fn is_finished(&self) -> (r: bool)
        ensures
            r == self@.finished,
    {
        self.finished
    }

    /// Takes the page that the last request returned, newest item first. An
    /// empty page, or one whose newest item is older than the watermark, ends
    /// the scan and adds nothing; any other page is kept whole. A newest item
    /// whose timestamp is malformed is a `ParseError` and changes nothing.
    pub fn on_page(&mut self, page: Vec<Project>) -> (r: Result<(), GitsError>)
        requires
            !old(self)@.finished,
            old(self)@.next_page < u64::MAX,
        ensures
            r is Ok <==> page_verdict(page@, old(self)@.watermark) is Some,
            final(self)@ == after_page(old(self)@, page@),
            r matches Err(e) ==> e matches GitsError::ParseError(input) && input@
                == page@[0].created_at@,
    {
        if page.len() == 0 {
            self.finished = true;
            return Ok(());
        }
        let newest = parse_timestamp(page[0].created_at.as_str())?;
        self.on_page_newest(page, newest);
        Ok(())
    }

    /// Takes a non-empty page that the last request returned, newest item
    /// first, with its newest item's creation time already read: older than
    /// the watermark ends the scan and adds nothing, otherwise the page is kept
    /// whole and the next page is due.
    pub fn on_page_newest(&mut self, page: Vec<Project>, newest: Timestamp)
        requires
            !old(self)@.finished,
            old(self)@.next_page < u64::MAX,
            page@.len() > 0,
        ensures
            final(self)@ == after_newest(old(self)@, page@, newest),
    {
        if newest.is_before(&self.watermark) {
            self.finished = true;
        } else {
            let mut page = page;
            self.projects.append(&mut page);
            self.next_page = self.next_page + 1;
        }
    }

    /// The projects collected so far.
    pub fn into_projects(self) -> (r: Vec<Project>)
        ensures
            r@ == self@.projects,
    {
        self.projects
    }
}

/// Discovery stops at the first page that is empty or whose newest item is
/// older than the watermark: the pages before it are kept whole, nothing of it
/// is kept, the last page requested is that page, and no answer offered after
/// it changes the outcome, so no later page is ever requested.
pub proof fn lemma_discovery_stops_at_watermark(
    watermark: Timestamp,
    pages: Seq<Seq<Project>>,
    k: int,
)
    requires
        0 <= k < pages.len(),
        page_verdict(pages[k], watermark) == Some(true),
        forall|i: int| 0 <= i < k ==> page_verdict(#[trigger] pages[i], watermark) == Some(false),
    ensures
        run_discovery(watermark, pages).finished,
        run_discovery(watermark, pages).next_page == k + 1,
        run_discovery(watermark, pages).projects == joined(pages.take(k)),
        run_discovery(watermark, pages) == run_discovery(watermark, pages.take(k + 1)),
{
    lemma_discovery_prefix(watermark, pages, k);
    lemma_discovery_after_stop(watermark, pages, k + 1);
}

/// Two pages, the first with its newest item not older than the watermark and
/// the second with its newest item older: the scan requests exactly pages 1
/// and 2, keeps the whole first page and nothing of the second, and whatever
/// the remote would answer after that is never asked for.
pub proof fn lemma_discovery_two_pages(
    watermark: Timestamp,
    first: Seq<Project>,
    second: Seq<Project>,
    later: Seq<Seq<Project>>,
    t1: Timestamp,
    t2: Timestamp,
)
    requires
        first.len() > 0,
        second.len() > 0,
        timestamp_of(first[0].created_at@) == Some(t1),
        timestamp_of(second[0].created_at@) == Some(t2),
        !earlier(t1, watermark),
        earlier(t2, watermark),
    ensures
        run_discovery(watermark, seq![first, second] + later).finished,
        run_discovery(watermark, seq![first, second] + later).next_page == 2,
        run_discovery(watermark, seq![first, second] + later).projects == first,
{
    let pages = seq![first, second] + later;
    assert(pages[0] == first);
    assert(pages[1] == second);
    lemma_discovery_stops_at_watermark(watermark, pages, 1);
    assert(pages.take(1) =~= seq![first]);
    let empty: Seq<Seq<Project>> = seq![];
    assert(seq![first].drop_last() =~= empty);
    assert(joined(empty) == Seq::<Project>::empty());
    assert(joined(seq![first]) == joined(empty) + first);
    assert(Seq::<Project>::empty() + first =~= first);
}

/// Before the stop page, every page is kept and the scan goes on.
proof fn lemma_discovery_prefix(watermark: Timestamp, pages: Seq<Seq<Project>>, j: int)
    requires
        0 <= j <= pages.len(),
        forall|i: int| 0 <= i < j ==> page_verdict(#[trigger] pages[i], watermark) == Some(false),
    ensures
        run_discovery(watermark, pages.take(j)) == (DiscoveryState {
            watermark,
            next_page: (j + 1) as nat,
            projects: joined(pages.take(j)),
            finished: false,
        }),
    decreases j,
{
    if j == 0 {
        assert(pages.take(0) =~= seq![]);
    } else {
        lemma_discovery_prefix(watermark, pages, j - 1);
        assert(pages.take(j).drop_last() =~= pages.take(j - 1));
        assert(pages[j - 1] == pages.take(j).last());
        assert(page_verdict(pages[j - 1], watermark) == Some(false));
    }
}

/// From the stop page on, later answers change nothing.
proof fn lemma_discovery_after_stop(watermark: Timestamp, pages: Seq<Seq<Project>>, j: int)
    requires
        1 <= j <= pages.len(),
        page_verdict(pages[j - 1], watermark) == Some(true),
        forall|i: int| 0 <= i < j - 1 ==> page_verdict(#[trigger] pages[i], watermark) == Some(false),
    ensures
        run_discovery(watermark, pages.take(j)).finished,
        run_discovery(watermark, pages.take(j)).next_page == j,
        run_discovery(watermark, pages.take(j)).projects == joined(pages.take(j - 1)),
        run_discovery(watermark, pages) == run_discovery(watermark, pages.take(j)),
    decreases pages.len() - j,
{
    lemma_discovery_prefix(watermark, pages, j - 1);
    assert(pages.take(j).drop_last() =~= pages.take(j - 1));
    assert(pages[j - 1] == pages.take(j).last());
    if j < pages.len() {
        let shorter = pages.drop_last();
        assert(forall|i: int| 0 <= i < j - 1 ==> shorter[i] == pages[i]);
        assert(shorter[j - 1] == pages[j - 1]);
        assert(shorter.take(j) =~= pages.take(j));
        assert(shorter.take(j - 1) =~= pages.take(j - 1));
        lemma_discovery_after_stop(watermark, shorter, j);
    } else {
        assert(pages.take(j) =~= pages);
    }
}

} // verus!
