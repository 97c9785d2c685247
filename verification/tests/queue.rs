use wexplorer_indexing::queue::{
    IndexingQueue, QueueError, QueueItem, QueueItemStatus, QueueRow,
};
use wexplorer_indexing::url::Url;

fn url(text: &str) -> Url {
    Url::parse(text).unwrap()
}

#[test]
fn queue_test() {
    let mut queue = IndexingQueue::new();
    queue.enqueue(Url::parse("http://localhost").unwrap()).unwrap();
    let item = queue.peek().unwrap();
    queue.mark_processed(item.id);
    println!("123");
    assert_eq!(0, queue.len());
}

#[test]
fn enqueue_twice_leaves_one_row() {
    let mut queue = IndexingQueue::new();
    assert_eq!(Ok(true), queue.enqueue(url("http://localhost/a")));
    assert_eq!(Ok(false), queue.enqueue(url("http://localhost/a")));
    assert_eq!(1, queue.len());
    assert_eq!(1, queue.rows().iter().filter(|row| row.url == url("http://localhost/a")).count());
    assert!(queue.contains(&url("http://localhost/a")));
    assert!(!queue.contains(&url("http://localhost/b")));
}

#[test]
fn items_are_numbered_from_one_in_the_order_of_arrival() {
    let mut queue = IndexingQueue::new();
    queue.enqueue(url("http://localhost/a")).unwrap();
    queue.enqueue(url("http://localhost/b")).unwrap();
    queue.enqueue(url("http://localhost/a")).unwrap();
    queue.enqueue(url("http://localhost/c")).unwrap();
    let ids: Vec<i64> = queue.rows().iter().map(|row| row.id).collect();
    assert_eq!(vec![1, 2, 3], ids);
    assert_eq!(4, queue.next_id());
}

#[test]
fn peek_claims_the_ready_item_with_the_lowest_number() {
    let mut queue = IndexingQueue::new();
    queue.enqueue(url("http://localhost/a")).unwrap();
    queue.enqueue(url("http://localhost/b")).unwrap();

    let first = queue.peek().unwrap();
    assert_eq!(QueueItem { id: 1, url: url("http://localhost/a") }, first);
    assert_eq!(QueueItemStatus::InProgress, queue.rows()[0].status);
    assert_eq!(QueueItemStatus::Ready, queue.rows()[1].status);

    let second = queue.peek().unwrap();
    assert_eq!(QueueItem { id: 2, url: url("http://localhost/b") }, second);
    assert_eq!(None, queue.peek());
}

#[test]
fn a_claimed_url_is_not_enqueued_again() {
    let mut queue = IndexingQueue::new();
    queue.enqueue(url("http://localhost/a")).unwrap();
    queue.peek().unwrap();
    assert_eq!(Ok(false), queue.enqueue(url("http://localhost/a")));
    assert_eq!(None, queue.peek());
}

#[test]
fn mark_processed_removes_the_row_and_ignores_unknown_numbers() {
    let mut queue = IndexingQueue::new();
    queue.enqueue(url("http://localhost/a")).unwrap();
    queue.enqueue(url("http://localhost/b")).unwrap();
    queue.mark_processed(7);
    assert_eq!(2, queue.len());
    queue.mark_processed(1);
    queue.mark_processed(1);
    assert_eq!(1, queue.len());
    assert_eq!(2, queue.rows()[0].id);
    assert_eq!(Ok(true), queue.enqueue(url("http://localhost/a")));
    assert_eq!(3, queue.rows()[1].id);
}

#[test]
fn reset_in_progress_makes_claimed_items_ready() {
    let mut queue = IndexingQueue::new();
    queue.enqueue(url("http://localhost/a")).unwrap();
    queue.enqueue(url("http://localhost/b")).unwrap();
    queue.peek().unwrap();
    queue.reset_in_progress();
    assert!(queue.rows().iter().all(|row| row.status == QueueItemStatus::Ready));
    assert_eq!(1, queue.peek().unwrap().id);
}

#[test]
fn crash_recovery_hands_out_the_claimed_items_again() {
    let mut queue = IndexingQueue::new();
    queue.enqueue(url("http://site.test/u1")).unwrap();
    queue.enqueue(url("http://site.test/u2")).unwrap();
    queue.enqueue(url("http://site.test/u3")).unwrap();
    queue.peek().unwrap();
    queue.peek().unwrap();

    let stored: Vec<QueueRow> = queue
        .rows()
        .iter()
        .map(|row| QueueRow { id: row.id, url: row.url.duplicate(), status: row.status })
        .collect();
    let next_id = queue.next_id();
    let mut restarted = IndexingQueue::restore(stored, next_id).unwrap();

    assert_eq!(url("http://site.test/u1"), restarted.peek().unwrap().url);
    assert_eq!(url("http://site.test/u2"), restarted.peek().unwrap().url);
    assert_eq!(url("http://site.test/u3"), restarted.peek().unwrap().url);
    assert_eq!(None, restarted.peek());
}

#[test]
fn restore_refuses_rows_that_make_no_queue() {
    let row = |id: i64, text: &str| QueueRow { id, url: url(text), status: QueueItemStatus::Ready };
    assert!(IndexingQueue::restore(vec![row(1, "http://a/"), row(2, "http://b/")], 3).is_some());
    assert!(IndexingQueue::restore(vec![], 1).is_some());
    assert!(IndexingQueue::restore(vec![], 0).is_none());
    assert!(IndexingQueue::restore(vec![row(2, "http://a/"), row(1, "http://b/")], 3).is_none());
    assert!(IndexingQueue::restore(vec![row(1, "http://a/"), row(1, "http://b/")], 3).is_none());
    assert!(IndexingQueue::restore(vec![row(1, "http://a/"), row(2, "http://a/")], 3).is_none());
    assert!(IndexingQueue::restore(vec![row(1, "http://a/"), row(3, "http://b/")], 3).is_none());
    assert!(IndexingQueue::restore(vec![row(0, "http://a/")], 3).is_none());
    assert!(!IndexingQueue::is_valid(&vec![row(0, "http://a/")], 3));
    assert!(IndexingQueue::is_valid(&vec![row(5, "http://a/")], 6));
}

#[test]
fn a_queue_without_numbers_left_refuses_new_urls() {
    let stored = vec![QueueRow {
        id: i64::MAX - 1,
        url: url("http://localhost/a"),
        status: QueueItemStatus::Ready,
    }];
    let mut queue = IndexingQueue::restore(stored, i64::MAX).unwrap();
    assert_eq!(Err(QueueError::OutOfIds), queue.enqueue(url("http://localhost/b")));
    assert_eq!(Ok(false), queue.enqueue(url("http://localhost/a")));
    assert_eq!(1, queue.len());
    assert_eq!(
        Err(QueueError::OutOfIds),
        queue.enqueue_all(&vec![url("http://localhost/a"), url("http://localhost/c")])
    );
    assert_eq!(Ok(0), queue.enqueue_all(&vec![url("http://localhost/a")]));
}

#[test]
fn enqueue_all_counts_the_new_rows_and_ignores_repeats() {
    let links = vec![
        url("http://localhost/a"),
        url("http://localhost/b"),
        url("http://localhost/a"),
        url("http://localhost/c"),
        url("http://localhost/b"),
    ];
    let without_repeats =
        vec![url("http://localhost/a"), url("http://localhost/b"), url("http://localhost/c")];

    let mut first = IndexingQueue::new();
    first.enqueue(url("http://localhost/b")).unwrap();
    let mut second = IndexingQueue::new();
    second.enqueue(url("http://localhost/b")).unwrap();

    assert_eq!(Ok(2), first.enqueue_all(&links));
    assert_eq!(Ok(2), second.enqueue_all(&without_repeats));
    assert_eq!(first.rows(), second.rows());
    assert_eq!(first.next_id(), second.next_id());
    let urls: Vec<String> = first.rows().iter().map(|row| row.url.to_text()).collect();
    assert_eq!(vec!["http://localhost/b", "http://localhost/a", "http://localhost/c"], urls);
}

#[test]
fn nothing_is_listed_as_being_indexed() {
    let mut queue = IndexingQueue::new();
    queue.enqueue(url("http://localhost/a")).unwrap();
    assert!(!queue.contains_authority("localhost"));
    assert!(queue.get_indexing_origins().is_empty());
    assert!(queue.get_indexing_pages().is_empty());
}

#[test]
fn statuses_are_stored_as_zero_and_one() {
    assert_eq!(0, QueueItemStatus::Ready.code());
    assert_eq!(1, QueueItemStatus::InProgress.code());
    assert_eq!(Some(QueueItemStatus::Ready), QueueItemStatus::from_code(0));
    assert_eq!(Some(QueueItemStatus::InProgress), QueueItemStatus::from_code(1));
    assert_eq!(None, QueueItemStatus::from_code(2));
    assert_eq!(None, QueueItemStatus::from_code(-1));
}
