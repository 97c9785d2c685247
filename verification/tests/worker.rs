use wexplorer_indexing::canonical::{default_url_processor, CanonicalProcessor};
use wexplorer_indexing::indexed_links_storage::Storage;
use wexplorer_indexing::indexer::Indexer;
use wexplorer_indexing::queue::{IndexingQueue, QueueItem, QueueItemStatus, QueueRow};
use wexplorer_indexing::text_extracting::TextExtractor;
use wexplorer_indexing::url::Url;
use wexplorer_indexing::worker::{
    action_of, advance, start, WorkerAction, WorkerEvent, WorkerState, FETCH_TIMEOUT_SECS,
    MAX_REDIRECTS, RETRY_DELAY_SECS,
};

fn url(text: &str) -> Url {
    Url::parse(text).unwrap()
}

fn new_indexer() -> Indexer<CanonicalProcessor> {
    Indexer::new(IndexingQueue::new(), Storage::new(), default_url_processor(), TextExtractor::new())
}

fn item(id: i64, text: &str) -> QueueItem {
    QueueItem { id, url: url(text) }
}

fn show(state: &WorkerState) -> String {
    format!("{:?}", state)
}

#[test]
fn limits_are_those_of_the_service() {
    assert_eq!(5, RETRY_DELAY_SECS);
    assert_eq!(60, FETCH_TIMEOUT_SECS);
    assert_eq!(20, MAX_REDIRECTS);
}

#[test]
fn a_worker_starts_by_connecting() {
    let (state, action) = start();
    assert!(matches!(state, WorkerState::Connecting));
    assert!(matches!(action, WorkerAction::Connect));
    let mut indexer = new_indexer();
    let workers = indexer.start_processing(3);
    assert_eq!(3, workers.len());
    assert!(workers.iter().all(|worker| matches!(worker, WorkerState::Connecting)));
    assert!(indexer.start_processing(0).is_empty());
}

#[test]
fn connecting_is_tried_again_after_a_wait() {
    let mut indexer = new_indexer();
    let (state, action) = indexer.step(WorkerState::Connecting, WorkerEvent::ConnectFailed, 0);
    assert!(matches!(state, WorkerState::ConnectBackoff));
    assert!(matches!(action, WorkerAction::Sleep(5)));
    let (state, action) = indexer.step(state, WorkerEvent::Slept, 0);
    assert!(matches!(state, WorkerState::Connecting));
    assert!(matches!(action, WorkerAction::Connect));
    let (state, action) = indexer.step(state, WorkerEvent::Connected, 0);
    assert!(matches!(state, WorkerState::Claiming));
    assert!(matches!(action, WorkerAction::Claim));
}

#[test]
fn a_claimed_item_is_fetched() {
    let mut indexer = new_indexer();
    let (state, action) = indexer.step(
        WorkerState::Claiming,
        WorkerEvent::Claimed(item(4, "https://site.test/a?x=1")),
        0,
    );
    assert_eq!(show(&WorkerState::Fetching(item(4, "https://site.test/a?x=1"))), show(&state));
    match action {
        WorkerAction::Fetch(target) => assert_eq!("https://site.test/a?x=1", target),
        other => panic!("unexpected action {:?}", other),
    }
}

#[test]
fn a_failed_fetch_leaves_the_item_claimed() {
    let mut indexer = new_indexer();
    indexer.index_page(url("https://site.test/a")).unwrap();
    let claimed = indexer.claim().unwrap();
    let (state, action) = indexer.step(WorkerState::Fetching(claimed), WorkerEvent::FetchFailed, 9);
    assert!(matches!(state, WorkerState::Claiming));
    assert!(matches!(action, WorkerAction::Claim));
    assert_eq!(None, indexer.claim());
    assert_eq!(Ok(false), indexer.index_page(url("https://site.test/a")));
}

#[test]
fn a_fetched_page_is_worked_on_and_published() {
    let mut indexer = new_indexer();
    indexer.index_page(url("https://site.test/")).unwrap();
    let claimed = indexer.claim().unwrap();
    let html = "<html><body>Hello <a href=\"/next\">next</a></body></html>".to_string();

    let (state, action) = indexer.step(WorkerState::Fetching(claimed), WorkerEvent::Fetched(html), 50);
    assert_eq!(
        show(&WorkerState::Publishing(item(1, "https://site.test/"), "Hello next".to_string())),
        show(&state)
    );
    match action {
        WorkerAction::Publish(target, text) => {
            assert_eq!("https://site.test/", target);
            assert_eq!("Hello next", text);
        }
        other => panic!("unexpected action {:?}", other),
    }

    let (state, action) = indexer.step(state, WorkerEvent::PublishFailed, 51);
    assert_eq!(
        show(&WorkerState::PublishBackoff(item(1, "https://site.test/"), "Hello next".to_string())),
        show(&state)
    );
    assert!(matches!(action, WorkerAction::Sleep(5)));

    let (state, action) = indexer.step(state, WorkerEvent::Slept, 56);
    match action {
        WorkerAction::Publish(target, text) => {
            assert_eq!("https://site.test/", target);
            assert_eq!("Hello next", text);
        }
        other => panic!("unexpected action {:?}", other),
    }

    let (state, action) = indexer.step(state, WorkerEvent::Published, 57);
    assert!(matches!(state, WorkerState::Claiming));
    assert!(matches!(action, WorkerAction::Claim));

    // The page has left the queue and is recorded; its link waits.
    let next = indexer.claim().unwrap();
    assert_eq!(item(2, "https://site.test/next"), next);
    assert_eq!(None, indexer.claim());
    assert_eq!(Ok(true), indexer.index_page(url("https://site.test/")));
    indexer
        .process_page(&url("https://site.test/next"), "<html><body><a href=\"/\">home</a></body></html>")
        .unwrap();
    let again = indexer.claim().unwrap();
    assert_eq!(item(3, "https://site.test/"), again);
    assert_eq!(None, indexer.claim());
}

#[test]
fn a_page_without_text_is_closed_without_publishing() {
    let mut indexer = new_indexer();
    indexer.index_page(url("https://site.test/")).unwrap();
    let claimed = indexer.claim().unwrap();
    let html = "<html><body><script>x()</script></body></html>".to_string();
    let (state, action) = indexer.step(WorkerState::Fetching(claimed), WorkerEvent::Fetched(html), 50);
    assert!(matches!(state, WorkerState::Claiming));
    assert!(matches!(action, WorkerAction::Claim));
    assert_eq!(Ok(true), indexer.index_page(url("https://site.test/")));
    assert_eq!(2, indexer.claim().unwrap().id);
}

#[test]
fn a_full_queue_makes_the_worker_give_up() {
    let stored = vec![QueueRow {
        id: 1,
        url: url("https://site.test/"),
        status: QueueItemStatus::Ready,
    }];
    let queue = IndexingQueue::restore(stored, i64::MAX).unwrap();
    let mut indexer =
        Indexer::new(queue, Storage::new(), default_url_processor(), TextExtractor::new());
    let claimed = indexer.claim().unwrap();
    let html = "<html><body><a href=\"/next\">next</a></body></html>".to_string();
    let (state, action) = indexer.step(WorkerState::Fetching(claimed), WorkerEvent::Fetched(html), 50);
    assert!(matches!(state, WorkerState::Failed));
    assert!(matches!(action, WorkerAction::Abort));
    let (state, action) = indexer.step(state, WorkerEvent::Slept, 51);
    assert!(matches!(state, WorkerState::Failed));
    assert!(matches!(action, WorkerAction::Abort));
}

#[test]
fn cancelling_stops_the_worker_wherever_it_stands() {
    let mut indexer = new_indexer();
    for state in [
        WorkerState::Connecting,
        WorkerState::ConnectBackoff,
        WorkerState::Claiming,
        WorkerState::Fetching(item(1, "https://site.test/")),
        WorkerState::Publishing(item(1, "https://site.test/"), "text".to_string()),
        WorkerState::PublishBackoff(item(1, "https://site.test/"), "text".to_string()),
        WorkerState::Stopped,
    ] {
        let (next, action) = indexer.step(state, WorkerEvent::Cancelled, 0);
        assert!(matches!(next, WorkerState::Stopped));
        assert!(matches!(action, WorkerAction::Stop));
    }
    let (next, _) = indexer.step(WorkerState::Stopped, WorkerEvent::Connected, 0);
    assert!(matches!(next, WorkerState::Stopped));
    let (next, _) = indexer.step(WorkerState::Failed, WorkerEvent::Cancelled, 0);
    assert!(matches!(next, WorkerState::Failed));
}

#[test]
fn an_event_that_is_not_awaited_changes_nothing() {
    assert!(matches!(advance(WorkerState::Claiming, WorkerEvent::Published), WorkerState::Claiming));
    assert!(matches!(advance(WorkerState::Connecting, WorkerEvent::Slept), WorkerState::Connecting));
    assert!(matches!(
        advance(WorkerState::Fetching(item(1, "https://site.test/")), WorkerEvent::Connected),
        WorkerState::Fetching(_)
    ));
    assert!(matches!(action_of(&WorkerState::Claiming), WorkerAction::Claim));
    assert!(matches!(action_of(&WorkerState::PublishBackoff(item(1, "https://a.test/"), String::new())), WorkerAction::Sleep(5)));
}
