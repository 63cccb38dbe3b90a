//! The decisions of a crawl: the round of a crawl worker, the links that a
//! crawled page adds to the queue, and the summary of a finished crawl.
use vstd::prelude::*;
use crate::crawler::{domain_of_url, extract_domain, normalize_url, normalized, CrawlResult};
use crate::text::{chars_eq, chars_of};

verus! {

/// The number of crawl workers that run together.
pub const NUM_WORKERS: usize = 6;

/// The pause, in milliseconds, after each crawled URL.
pub const REQUEST_DELAY_MS: u64 = 250;

/// The pause, in milliseconds, when the queue holds no pending URL.
pub const IDLE_DELAY_MS: u64 = 300;

/// The summary of a crawl.
#[derive(Debug, Clone)]
pub struct CrawlSummary {
    pub pages_ok: i64,
    pub pages_failed: i64,
    pub pending: i64,
    pub sites: usize,
    pub elapsed_secs: u64,
}

/// The clean URLs of the links of a page, in order: each link normalized
/// against the page, the links that are not to be followed left out.
pub open spec fn enqueue_candidates(page_url: Seq<char>, links: Seq<Seq<char>>) -> Seq<Seq<char>> {
    links.filter_map(|l: Seq<char>| normalized(page_url, l))
}

/// The URLs that the links of the page `page_url` propose for the queue.
pub fn links_to_enqueue(page_url: &str, links: &Vec<String>) -> (r: Vec<String>)
    ensures
        r.deep_view() == enqueue_candidates(page_url@, links.deep_view()),
{
    let mut r: Vec<String> = Vec::new();
    let mut i: usize = 0;
    while i < links.len()
        invariant
            i <= links@.len(),
            r.deep_view() == enqueue_candidates(page_url@, links.deep_view().take(i as int)),
        decreases links@.len() - i,
    {
        assert(links.deep_view().take(i + 1).drop_last() =~= links.deep_view().take(i as int));
        assert(links.deep_view()[i as int] == links@[i as int]@);
        let ghost before = r.deep_view();
        match normalize_url(page_url, links[i].as_str()) {
            Some(clean) => {
                let ghost c = clean@;
                r.push(clean);
                assert(r.deep_view() =~= before + seq![c]);
            },
            None => {},
        }
        i = i + 1;
    }
    assert(links.deep_view().take(i as int) =~= links.deep_view());
    r
}

/// The distinct non-empty domains of the URLs `urls`.
pub open spec fn sites_of(urls: Seq<Seq<char>>) -> Set<Seq<char>> {
    Set::new(
        |d: Seq<char>|
            d.len() > 0 && exists|i: int| 0 <= i < urls.len() && domain_of_url(urls[i]) == d,
    )
}

/// Whether `w` is one of the elements of `list`.
fn holds_chars(list: &Vec<Vec<char>>, w: &[char]) -> (r: bool)
    ensures
        r == list.deep_view().contains(w@),
{
    let mut i: usize = 0;
    while i < list.len()
        invariant
            i <= list@.len(),
            forall|k: int| 0 <= k < i ==> list.deep_view()[k] != w@,
        decreases list@.len() - i,
    {
        assert(list.deep_view()[i as int] =~= list@[i as int]@);
        if chars_eq(list[i].as_slice(), w) {
            assert(list.deep_view()[i as int] == w@);
            return true;
        }
        i = i + 1;
    }
    false
}

/// The number of distinct non-empty domains among `urls` (the number of
/// sites that a crawl reached).
pub fn count_sites(urls: &Vec<String>) -> (r: usize)
    ensures
        r == sites_of(urls.deep_view()).len(),
{
    let mut seen: Vec<Vec<char>> = Vec::new();
    let mut i: usize = 0;
    while i < urls.len()
        invariant
            i <= urls@.len(),
            seen.deep_view().no_duplicates(),
            seen.deep_view().to_set() == sites_of(urls.deep_view().take(i as int)),
        decreases urls@.len() - i,
    {
        let ghost prev = urls.deep_view().take(i as int);
        let ghost next = urls.deep_view().take(i + 1);
        assert(urls.deep_view()[i as int] == urls@[i as int]@);
        let d = chars_of(extract_domain(urls[i].as_str()).as_str());
        let ghost dv = d@;
        assert(dv == domain_of_url(next[i as int]));
        if d.len() > 0 && !holds_chars(&seen, d.as_slice()) {
            let ghost before = seen.deep_view();
            assert(d.deep_view() =~= dv);
            seen.push(d);
            assert(seen.deep_view() =~= before.push(dv));
            assert(seen.deep_view().to_set() =~= sites_of(next)) by {
                assert forall|x: Seq<char>| #[trigger] sites_of(next).contains(x) implies seen.deep_view().to_set().contains(x) by {
                    let k: int = choose|k: int| 0 <= k < next.len() && domain_of_url(next[k]) == x;
                    if k < i {
                        assert(prev[k] == next[k]);
                        assert(sites_of(prev).contains(x));
                        assert(before.contains(x));
                        let j: int = choose|j: int| 0 <= j < before.len() && before[j] == x;
                        assert(seen.deep_view()[j] == x);
                    } else {
                        assert(seen.deep_view()[before.len() as int] == x);
                    }
                }
                assert forall|x: Seq<char>| seen.deep_view().to_set().contains(x) implies #[trigger] sites_of(next).contains(x) by {
                    let j: int = choose|j: int| 0 <= j < seen.deep_view().len() && seen.deep_view()[j] == x;
                    if j < before.len() {
                        assert(before[j] == x);
                        assert(before.to_set().contains(x));
                        let k: int = choose|k: int| 0 <= k < prev.len() && domain_of_url(prev[k]) == x;
                        assert(next[k] == prev[k]);
                    } else {
                        assert(domain_of_url(next[i as int]) == x);
                    }
                }
            }
        } else {
            assert(seen.deep_view().to_set() =~= sites_of(next)) by {
                assert forall|x: Seq<char>| #[trigger] sites_of(next).contains(x) implies seen.deep_view().to_set().contains(x) by {
                    let k: int = choose|k: int| 0 <= k < next.len() && domain_of_url(next[k]) == x;
                    if k < i {
                        assert(prev[k] == next[k]);
                        assert(sites_of(prev).contains(x));
                    } else {
                        assert(seen.deep_view().contains(dv));
                    }
                }
                assert forall|x: Seq<char>| seen.deep_view().to_set().contains(x) implies #[trigger] sites_of(next).contains(x) by {
                    assert(sites_of(prev).contains(x));
                    let k: int = choose|k: int| 0 <= k < prev.len() && domain_of_url(prev[k]) == x;
                    assert(next[k] == prev[k]);
                }
            }
        }
        i = i + 1;
    }
    assert(urls.deep_view().take(i as int) =~= urls.deep_view());
    proof {
        seen.deep_view().unique_seq_to_set();
    }
    seen.len()
}

/// The summary of a crawl from the counts of the queue, all the URLs it holds
/// and the time the crawl took.
pub fn summarize(
    pages_ok: i64,
    pages_failed: i64,
    pending: i64,
    urls: &Vec<String>,
    elapsed_secs: u64,
) -> (r: CrawlSummary)
    ensures
        r.pages_ok == pages_ok,
        r.pages_failed == pages_failed,
        r.pending == pending,
        r.sites == sites_of(urls.deep_view()).len(),
        r.elapsed_secs == elapsed_secs,
{
    CrawlSummary { pages_ok, pages_failed, pending, sites: count_sites(urls), elapsed_secs }
}


/// Where a crawl worker stands between two rounds.
#[derive(Debug)]
pub enum WorkerState {
    /// About to start a round.
    Ready,
    /// Waiting for the next pending URL of the queue.
    Polling,
    /// Crawling this URL.
    Crawling(String),
    /// The time budget is spent.
    Stopped,
}

/// What the worker learnt from the outside.
#[derive(Debug)]
pub enum WorkerEvent {
    /// The seconds elapsed since the crawl started.
    Clock(u64),
    /// The next pending URL of the queue (`None` when there is none or the
    /// queue could not be read).
    Polled(Option<String>),
    /// The outcome of crawling the URL, or the message of its failure.
    Crawled(Result<CrawlResult, String>),
}

/// What the worker asks the outside to do.
#[derive(Debug)]
pub enum WorkerAction {
    /// Stop the worker.
    Stop,
    /// Take the next pending URL of the queue.
    Poll,
    /// Wait this many milliseconds, then report the clock.
    Sleep(u64),
    /// Mark the URL as being crawled, crawl it and report the outcome.
    Crawl(String),
    /// Save the page, mark the URL as crawled with the HTTP code, add each
    /// candidate that the queue does not know yet, wait `pause_ms`, then
    /// report the clock.
    Record { url: String, result: CrawlResult, candidates: Vec<String>, pause_ms: u64 },
    /// Mark the URL as failed with the message, wait `pause_ms`, then report
    /// the clock.
    Fail { url: String, message: String, pause_ms: u64 },
}

/// The worker stops and stays stopped.
pub open spec fn stops(r: (WorkerState, WorkerAction)) -> bool {
    r.0 is Stopped && r.1 is Stop
}

/// `r` is the next state and action of a worker with a budget of
/// `duration_secs` seconds, in the state `state`, after the event `event`.
pub open spec fn worker_transition(
    duration_secs: u64,
    state: WorkerState,
    event: WorkerEvent,
    r: (WorkerState, WorkerAction),
) -> bool {
    match state {
        WorkerState::Ready => match event {
            WorkerEvent::Clock(elapsed) => if elapsed >= duration_secs {
                stops(r)
            } else {
                r.0 is Polling && r.1 is Poll
            },
            _ => stops(r),
        },
        WorkerState::Polling => match event {
            WorkerEvent::Polled(Some(u)) => {
                &&& r.0 matches WorkerState::Crawling(v) && v@ == u@
                &&& r.1 matches WorkerAction::Crawl(w) && w@ == u@
            },
            WorkerEvent::Polled(None) => r.0 is Ready && r.1 == WorkerAction::Sleep(IDLE_DELAY_MS),
            _ => stops(r),
        },
        WorkerState::Crawling(u) => match event {
            WorkerEvent::Crawled(Ok(res)) => {
                &&& r.0 is Ready
                &&& r.1 matches WorkerAction::Record { url, result, candidates, pause_ms }
                &&& url@ == u@
                &&& result == res
                &&& candidates.deep_view() == enqueue_candidates(u@, res.page.links.deep_view())
                &&& pause_ms == REQUEST_DELAY_MS
            },
            WorkerEvent::Crawled(Err(m)) => {
                &&& r.0 is Ready
                &&& r.1 matches WorkerAction::Fail { url, message, pause_ms }
                &&& url@ == u@
                &&& message@ == m@
                &&& pause_ms == REQUEST_DELAY_MS
            },
            _ => stops(r),
        },
        WorkerState::Stopped => stops(r),
    }
}

/// One decision of a crawl worker. While its budget lasts, a ready worker
/// takes the next pending URL; with none it waits, otherwise it crawls it,
/// then records the page (and proposes the clean URLs of its links) or the
/// failure, and pauses before the next round. Once the budget is spent, or on
/// an event that does not fit its state, it stops for good.
pub fn worker_step(duration_secs: u64, state: WorkerState, event: WorkerEvent) -> (r: (
    WorkerState,
    WorkerAction,
))
    ensures
        worker_transition(duration_secs, state, event, r),
{
    match state {
        WorkerState::Ready => match event {
            WorkerEvent::Clock(elapsed) => {
                if elapsed >= duration_secs {
                    (WorkerState::Stopped, WorkerAction::Stop)
                } else {
                    (WorkerState::Polling, WorkerAction::Poll)
                }
            },
            _ => (WorkerState::Stopped, WorkerAction::Stop),
        },
        WorkerState::Polling => match event {
            WorkerEvent::Polled(Some(u)) => {
                let v = u.clone();
                (WorkerState::Crawling(u), WorkerAction::Crawl(v))
            },
            WorkerEvent::Polled(None) => (WorkerState::Ready, WorkerAction::Sleep(IDLE_DELAY_MS)),
            _ => (WorkerState::Stopped, WorkerAction::Stop),
        },
        WorkerState::Crawling(u) => match event {
            WorkerEvent::Crawled(Ok(res)) => {
                let candidates = links_to_enqueue(u.as_str(), &res.page.links);
                (
                    WorkerState::Ready,
                    WorkerAction::Record {
                        url: u,
                        result: res,
                        candidates,
                        pause_ms: REQUEST_DELAY_MS,
                    },
                )
            },
            WorkerEvent::Crawled(Err(m)) => (
                WorkerState::Ready,
                WorkerAction::Fail { url: u, message: m, pause_ms: REQUEST_DELAY_MS },
            ),
            _ => (WorkerState::Stopped, WorkerAction::Stop),
        },
        WorkerState::Stopped => (WorkerState::Stopped, WorkerAction::Stop),
    }
}


/// A stopped worker stays stopped, whatever it learns.
pub proof fn lemma_stopped_is_final(
    duration_secs: u64,
    event: WorkerEvent,
    r: (WorkerState, WorkerAction),
)
    requires
        worker_transition(duration_secs, WorkerState::Stopped, event, r),
    ensures
        stops(r),
{
}

/// A worker crawls a URL only right after the queue handed it out.
pub proof fn lemma_crawls_only_polled_urls(
    duration_secs: u64,
    state: WorkerState,
    event: WorkerEvent,
    r: (WorkerState, WorkerAction),
)
    requires
        worker_transition(duration_secs, state, event, r),
        r.1 is Crawl,
    ensures
        state is Polling,
        event matches WorkerEvent::Polled(Some(u)) && u@ == r.1->Crawl_0@,
{
}

/// The time budget is respected: a round that starts on a clock reading at
/// or past the budget stops the worker, and a URL is crawled only in a round
/// that started before the budget was spent.
pub proof fn lemma_budget_respected(
    duration_secs: u64,
    elapsed: u64,
    event: WorkerEvent,
    r1: (WorkerState, WorkerAction),
    r2: (WorkerState, WorkerAction),
)
    requires
        worker_transition(duration_secs, WorkerState::Ready, WorkerEvent::Clock(elapsed), r1),
        worker_transition(duration_secs, r1.0, event, r2),
    ensures
        elapsed >= duration_secs ==> stops(r1) && stops(r2),
        r2.1 is Crawl ==> elapsed < duration_secs,
{
}


/// A ready worker whose clock reads below its budget goes on: it asks the
/// queue for the next URL and does not stop; it stops exactly when the clock
/// reads at or past the budget.
pub proof fn lemma_ready_polls_within_budget(
    duration_secs: u64,
    elapsed: u64,
    r: (WorkerState, WorkerAction),
)
    requires
        worker_transition(duration_secs, WorkerState::Ready, WorkerEvent::Clock(elapsed), r),
    ensures
        elapsed < duration_secs ==> r.0 is Polling && r.1 is Poll,
        stops(r) <==> elapsed >= duration_secs,
{
}

/// A crawl reaches at most as many sites as it holds URLs.
pub proof fn lemma_sites_at_most_urls(urls: Seq<Seq<char>>)
    ensures
        sites_of(urls).finite(),
        sites_of(urls).len() <= urls.len(),
{
    let doms = urls.map_values(|u: Seq<char>| domain_of_url(u));
    assert(sites_of(urls).subset_of(doms.to_set())) by {
        assert forall|d: Seq<char>| #[trigger] sites_of(urls).contains(d) implies doms.to_set().contains(d) by {
            let i: int = choose|i: int| 0 <= i < urls.len() && domain_of_url(urls[i]) == d;
            assert(doms[i] == d);
        }
    }
    doms.lemma_cardinality_of_set();
    vstd::seq_lib::seq_to_set_is_finite(doms);
    vstd::set_lib::lemma_len_subset(sites_of(urls), doms.to_set());
}

} // verus!
