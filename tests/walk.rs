use annorepo_search::error::ClientError;
use annorepo_search::iterate::{Action, Event, ResultIterator, ResultPage};

struct Outcome {
    delivered: Vec<u32>,
    requests: Vec<Option<u64>>,
    result: Result<(), ClientError>,
}

/// Serves `pages` in order, the handler failing on the record with the given
/// position (counted from 1), and the fetch of the page with the given
/// position (counted from 1) failing with `SessionNotFound`.
fn drive(pages: Vec<ResultPage<u32>>, handler_fails_at: Option<usize>, fetch_fails_at: Option<usize>) -> Outcome {
    let mut pages = pages.into_iter();
    let mut delivered = Vec::new();
    let mut requests = Vec::new();
    let (mut it, mut action) = ResultIterator::start(None);
    loop {
        match action {
            Action::Fetch(p) => {
                requests.push(p);
                let ev = if fetch_fails_at == Some(requests.len()) {
                    Event::FetchFailed(ClientError::SessionNotFound)
                } else {
                    Event::PageArrived(pages.next().expect("no page left to serve"))
                };
                action = it.step(ev);
            }
            Action::Deliver(r) => {
                delivered.push(r);
                let ev = if handler_fails_at == Some(delivered.len()) {
                    Event::HandlerFailed("rejected".to_string())
                } else {
                    Event::Handled
                };
                action = it.step(ev);
            }
            Action::Finished => {
                return Outcome { delivered, requests, result: Ok(()) };
            }
            Action::Failed(e) => {
                return Outcome { delivered, requests, result: Err(e) };
            }
        }
    }
}

fn split_pages(total: u32, size: u32) -> Vec<ResultPage<u32>> {
    let mut pages = Vec::new();
    let mut start = 0;
    let mut index: u64 = 0;
    while start < total {
        let end = std::cmp::min(start + size, total);
        index += 1;
        let next = if end < total { Some(index) } else { None };
        pages.push(ResultPage { items: (start..end).collect(), next });
        start = end;
    }
    pages
}

#[test]
fn letter_bodies_in_three_pages() {
    let out = drive(split_pages(230, 100), None, None);
    assert_eq!(out.result, Ok(()));
    assert_eq!(out.delivered.len(), 230);
    assert_eq!(out.delivered, (0..230).collect::<Vec<u32>>());
    assert_eq!(out.requests, vec![None, Some(1), Some(2)]);
}

#[test]
fn walk_yields_concatenation_of_pages() {
    let pages = vec![
        ResultPage { items: vec![7, 3], next: Some(4) },
        ResultPage { items: vec![9], next: Some(8) },
        ResultPage { items: vec![1, 1, 2], next: None },
    ];
    let out = drive(pages, None, None);
    assert_eq!(out.result, Ok(()));
    assert_eq!(out.delivered, vec![7, 3, 9, 1, 1, 2]);
    assert_eq!(out.requests, vec![None, Some(4), Some(8)]);
}

#[test]
fn empty_page_with_cursor_continues() {
    let pages = vec![
        ResultPage { items: vec![], next: Some(1) },
        ResultPage { items: vec![5], next: None },
    ];
    let out = drive(pages, None, None);
    assert_eq!(out.result, Ok(()));
    assert_eq!(out.delivered, vec![5]);
    assert_eq!(out.requests, vec![None, Some(1)]);
}

#[test]
fn empty_last_page_finishes() {
    let out = drive(vec![ResultPage { items: vec![], next: None }], None, None);
    assert_eq!(out.result, Ok(()));
    assert!(out.delivered.is_empty());
    assert_eq!(out.requests, vec![None]);
}

#[test]
fn handler_failure_stops_the_walk() {
    let out = drive(split_pages(230, 100), Some(150), None);
    assert_eq!(out.result, Err(ClientError::HandlerFailure { message: "rejected".to_string() }));
    assert_eq!(out.delivered, (0..150).collect::<Vec<u32>>());
    assert_eq!(out.requests, vec![None, Some(1)]);
}

#[test]
fn handler_failure_on_last_record_of_page_fetches_nothing_more() {
    let out = drive(split_pages(230, 100), Some(100), None);
    assert!(matches!(out.result, Err(ClientError::HandlerFailure { .. })));
    assert_eq!(out.delivered.len(), 100);
    assert_eq!(out.requests, vec![None]);
}

#[test]
fn expired_session_surfaces_without_retry() {
    let out = drive(split_pages(230, 100), None, Some(2));
    assert_eq!(out.result, Err(ClientError::SessionNotFound));
    assert_eq!(out.delivered, (0..100).collect::<Vec<u32>>());
    assert_eq!(out.requests, vec![None, Some(1)]);
}

#[test]
fn first_fetch_failure_delivers_nothing() {
    let out = drive(split_pages(10, 5), None, Some(1));
    assert_eq!(out.result, Err(ClientError::SessionNotFound));
    assert!(out.delivered.is_empty());
}

#[test]
fn out_of_turn_event_is_a_protocol_error() {
    let (mut it, first) = ResultIterator::<u32>::start(Some(3));
    assert!(matches!(first, Action::Fetch(Some(3))));
    assert!(matches!(it.step(Event::Handled), Action::Failed(ClientError::ProtocolError)));
    assert!(matches!(it.step(Event::PageArrived(ResultPage { items: vec![1], next: None })), Action::Failed(ClientError::ProtocolError)));
}

#[test]
fn finished_walk_stays_silent() {
    let (mut it, _) = ResultIterator::<u32>::start(None);
    assert!(matches!(it.step(Event::PageArrived(ResultPage { items: vec![], next: None })), Action::Finished));
    assert!(matches!(it.step(Event::Handled), Action::Failed(ClientError::ProtocolError)));
}
