use vertex::crawler::process_body;
use vertex::runner::{
    count_sites, links_to_enqueue, summarize, worker_step, WorkerAction, WorkerEvent,
    WorkerState, IDLE_DELAY_MS, REQUEST_DELAY_MS,
};

fn urls(v: &[&str]) -> Vec<String> {
    v.iter().map(|s| s.to_string()).collect()
}

#[test]
fn proposes_the_clean_links_of_a_page() {
    let links = urls(&["/a/", "#top", "mailto:x@y.z", "https://other.org/b?utm_source=z", "/img.png"]);
    assert_eq!(
        links_to_enqueue("https://example.com/x", &links),
        urls(&["https://example.com/a", "https://other.org/b"])
    );
}

#[test]
fn counts_distinct_sites() {
    let all = urls(&[
        "https://a.org/1",
        "https://a.org/2",
        "https://b.org/",
        "http://8.8.8.8/",
        "garbage",
        "https://www.a.org/",
    ]);
    assert_eq!(count_sites(&all), 3);
    assert_eq!(count_sites(&Vec::new()), 0);
    let s = summarize(4, 1, 7, &all, 30);
    assert_eq!((s.pages_ok, s.pages_failed, s.pending, s.sites, s.elapsed_secs), (4, 1, 7, 3, 30));
}

#[test]
fn stops_when_the_budget_is_spent() {
    let (st, act) = worker_step(10, WorkerState::Ready, WorkerEvent::Clock(10));
    assert!(matches!(st, WorkerState::Stopped));
    assert!(matches!(act, WorkerAction::Stop));
    let (st, act) = worker_step(10, WorkerState::Stopped, WorkerEvent::Clock(0));
    assert!(matches!(st, WorkerState::Stopped));
    assert!(matches!(act, WorkerAction::Stop));
}

#[test]
fn runs_a_full_round() {
    let (st, act) = worker_step(10, WorkerState::Ready, WorkerEvent::Clock(3));
    assert!(matches!(st, WorkerState::Polling));
    assert!(matches!(act, WorkerAction::Poll));

    let (st, act) = worker_step(10, WorkerState::Polling, WorkerEvent::Polled(None));
    assert!(matches!(st, WorkerState::Ready));
    assert!(matches!(act, WorkerAction::Sleep(ms) if ms == IDLE_DELAY_MS));

    let url = "https://example.com/".to_string();
    let (st, act) = worker_step(10, WorkerState::Polling, WorkerEvent::Polled(Some(url.clone())));
    assert!(matches!(&st, WorkerState::Crawling(u) if *u == url));
    assert!(matches!(&act, WorkerAction::Crawl(u) if *u == url));

    let body = b"<body><a href=\"/next/\">n</a><a href=\"#x\">y</a></body>";
    let res = process_body(&url, 200, None, body, 5).unwrap();
    let (st2, act) = worker_step(10, st, WorkerEvent::Crawled(Ok(res)));
    assert!(matches!(st2, WorkerState::Ready));
    match act {
        WorkerAction::Record { url: u, result, candidates, pause_ms } => {
            assert_eq!(u, url);
            assert_eq!(result.http_code, 200);
            assert_eq!(candidates, urls(&["https://example.com/next"]));
            assert_eq!(pause_ms, REQUEST_DELAY_MS);
        }
        other => panic!("unexpected {other:?}"),
    }

    let (st3, act) = worker_step(
        10,
        WorkerState::Crawling(url.clone()),
        WorkerEvent::Crawled(Err("boom".to_string())),
    );
    assert!(matches!(st3, WorkerState::Ready));
    match act {
        WorkerAction::Fail { url: u, message, pause_ms } => {
            assert_eq!((u, message, pause_ms), (url, "boom".to_string(), REQUEST_DELAY_MS));
        }
        other => panic!("unexpected {other:?}"),
    }
}

#[test]
fn stops_on_an_unexpected_event() {
    let (st, act) = worker_step(10, WorkerState::Ready, WorkerEvent::Polled(None));
    assert!(matches!(st, WorkerState::Stopped));
    assert!(matches!(act, WorkerAction::Stop));
    let (st, act) = worker_step(10, WorkerState::Polling, WorkerEvent::Clock(1));
    assert!(matches!(st, WorkerState::Stopped));
    assert!(matches!(act, WorkerAction::Stop));
}
