use wexplorer_indexing::api::{ApiError, IndexingApiImpl};
use wexplorer_indexing::canonical::{default_url_processor, CanonicalProcessor};
use wexplorer_indexing::html::Document;
use wexplorer_indexing::indexed_links_storage::Storage;
use wexplorer_indexing::indexer::{discover_links, resolve_base, select_unindexed, Indexer};
use wexplorer_indexing::queue::{IndexingQueue, QueueError, QueueItemStatus, QueueRow};
use wexplorer_indexing::text_extracting::TextExtractor;
use wexplorer_indexing::url::Url;

fn url(text: &str) -> Url {
    Url::parse(text).unwrap()
}

fn indexer_over(queue: IndexingQueue, storage: Storage) -> Indexer<CanonicalProcessor> {
    Indexer::new(queue, storage, default_url_processor(), TextExtractor::new())
}

fn new_indexer() -> Indexer<CanonicalProcessor> {
    indexer_over(IndexingQueue::new(), Storage::new())
}

fn claimed_urls(indexer: &mut Indexer<CanonicalProcessor>) -> Vec<String> {
    let mut urls = Vec::new();
    while let Some(item) = indexer.claim() {
        urls.push(item.url.to_text());
    }
    urls
}

#[test]
fn relative_links_are_resolved_against_the_base_element() {
    let mut indexer = new_indexer();
    let text = indexer
        .process_page(
            &url("https://site.test/dir/page"),
            "<html><head><base href=\"/root/\"></head>\
             <body><a href=\"sub?q=1#f\">link</a></body></html>",
        )
        .unwrap();
    assert_eq!(Some("link".to_string()), text);
    assert_eq!(vec!["https://site.test/root/sub?q=1"], claimed_urls(&mut indexer));
}

#[test]
fn indexed_links_are_not_enqueued() {
    let mut storage = Storage::new();
    storage.add(&url("https://site.test/a"), 1000);
    let mut indexer = indexer_over(IndexingQueue::new(), storage);
    indexer
        .process_page(
            &url("https://site.test/"),
            "<html><body><a href=\"/a\">a</a><a href=\"/b#x\">b</a><a href=\"a?utm_x=1\">a</a>\
             </body></html>",
        )
        .unwrap();
    assert_eq!(vec!["https://site.test/b"], claimed_urls(&mut indexer));
}

#[test]
fn links_are_enqueued_once_and_in_the_order_of_the_page() {
    let mut indexer = new_indexer();
    let text = indexer
        .process_page(
            &url("https://site.test/dir/page"),
            "<html><body><a href=\"b\">1</a><a href=\"/a\">2</a><a href=\"b#again\">3</a>\
             <a href=\"mailto:x@site.test\">4</a><a>5</a><a href=\"http://[\">6</a>\
             <a href=\"HTTP://Other.test?utm_source=site\">7</a></body></html>",
        )
        .unwrap();
    assert_eq!(Some("1 2 3 4 5 6 7".to_string()), text);
    assert_eq!(
        vec!["https://site.test/dir/b", "https://site.test/a", "http://other.test/"],
        claimed_urls(&mut indexer)
    );
}

#[test]
fn base_is_the_page_where_the_base_element_does_not_resolve() {
    let page = url("https://site.test/dir/page?x#f");
    let plain = Document::parse_document("<html><body></body></html>");
    assert_eq!(page, resolve_base(&page, &plain));
    let without_href = Document::parse_document("<html><head><base target=\"x\"></head></html>");
    assert_eq!("https://site.test/dir/page?x", resolve_base(&page, &without_href).to_text());
    let broken = Document::parse_document("<html><head><base href=\"http://[\"></head></html>");
    assert_eq!(page, resolve_base(&page, &broken));
    let absolute =
        Document::parse_document("<html><head><base href=\"http://cdn.test/x/\"></head></html>");
    assert_eq!("http://cdn.test/x/", resolve_base(&page, &absolute).to_text());
}

#[test]
fn links_that_do_not_resolve_or_are_rejected_are_left_out() {
    let processor = default_url_processor();
    let links = discover_links(
        &processor,
        &url("https://site.test/dir/"),
        &vec!["a".to_string(), "ftp://site.test/b".to_string(), "http://[".to_string(), "../c#f".to_string()],
    );
    let texts: Vec<String> = links.iter().map(|link| link.to_text()).collect();
    assert_eq!(vec!["https://site.test/dir/a", "https://site.test/c"], texts);
}

#[test]
fn unindexed_links_are_selected_in_their_order() {
    let mut storage = Storage::new();
    storage.add(&url("https://site.test/b"), 5);
    let links = vec![url("https://site.test/a"), url("https://site.test/b"), url("https://site.test/c")];
    assert_eq!(
        vec![url("https://site.test/a"), url("https://site.test/c")],
        select_unindexed(&links, &storage)
    );
    assert_eq!(links, select_unindexed(&links, &Storage::new()));
}

#[test]
fn a_page_without_text_still_yields_its_links() {
    let mut indexer = new_indexer();
    let text = indexer
        .process_page(
            &url("https://site.test/"),
            "<html><body><a href=\"/a\"><img src=\"a.png\"></a></body></html>",
        )
        .unwrap();
    assert_eq!(None, text);
    assert_eq!(vec!["https://site.test/a"], claimed_urls(&mut indexer));
}

#[test]
fn a_full_queue_makes_the_work_on_a_page_fail() {
    let stored = vec![QueueRow {
        id: 1,
        url: url("https://site.test/a"),
        status: QueueItemStatus::Ready,
    }];
    let queue = IndexingQueue::restore(stored, i64::MAX).unwrap();
    let mut indexer = indexer_over(queue, Storage::new());
    let page = url("https://site.test/");
    assert_eq!(
        Ok(Some("a".to_string())),
        indexer.process_page(&page, "<html><body><a href=\"/a\">a</a></body></html>")
    );
    assert_eq!(
        Err(QueueError::OutOfIds),
        indexer.process_page(&page, "<html><body><a href=\"/b\">b</a></body></html>")
    );
    assert_eq!(Err(QueueError::OutOfIds), indexer.index_page(url("https://site.test/c")));
}

#[test]
fn index_page_enqueues_the_canonical_form() {
    let mut indexer = new_indexer();
    assert_eq!(Ok(true), indexer.index_page(url("HTTP://Example.COM/a?x=1&utm_source=z&b=2#frag")));
    assert_eq!(Ok(false), indexer.index_page(url("http://example.com/a?b=2&x=1")));
    assert_eq!(Ok(false), indexer.index_page(url("ftp://example.com/")));
    assert_eq!(vec!["http://example.com/a?b=2&x=1"], claimed_urls(&mut indexer));
}

#[test]
fn complete_removes_the_item_and_records_the_url() {
    let mut storage = Storage::new();
    storage.add(&url("https://site.test/a"), 7);
    let mut indexer = indexer_over(IndexingQueue::new(), storage);
    indexer.index_page(url("https://site.test/a")).unwrap();
    indexer.index_page(url("https://site.test/b")).unwrap();
    let item = indexer.claim().unwrap();
    indexer.complete(item.id, &item.url, 42);
    assert_eq!(vec!["https://site.test/b"], claimed_urls(&mut indexer));
    // The first page is recorded now, so a link to it is not enqueued.
    indexer
        .process_page(&url("https://site.test/b"), "<html><body><a href=\"/a\">a</a></body></html>")
        .unwrap();
    assert_eq!(None, indexer.claim());
}

#[test]
fn index_web_site_refuses_what_is_no_url() {
    let mut api = IndexingApiImpl { indexer: new_indexer() };
    assert_eq!(Err(ApiError::InvalidArgument), api.index_web_site("not a url"));
    assert_eq!(Err(ApiError::InvalidArgument), api.index_web_site(""));
    assert_eq!(Ok(true), api.index_web_site("HTTPS://Site.test/#top"));
    assert_eq!(Ok(false), api.index_web_site("https://site.test/"));
    assert_eq!(Ok(false), api.index_web_site("file:///etc/hosts"));
    assert_eq!(vec!["https://site.test/"], claimed_urls(&mut api.indexer));
    assert!(api.get_indexing_web_sites().is_empty());
    assert!(api.get_indexing_pages().is_empty());
}

#[test]
fn index_web_site_reports_a_full_queue() {
    let queue = IndexingQueue::restore(vec![], i64::MAX).unwrap();
    let mut api = IndexingApiImpl { indexer: indexer_over(queue, Storage::new()) };
    assert_eq!(Err(ApiError::QueueFull), api.index_web_site("https://site.test/"));
}
