use wexplorer_indexing::indexed_links_storage::Storage;
use wexplorer_indexing::url::Url;

fn url(text: &str) -> Url {
    Url::parse(text).unwrap()
}

#[test]
fn an_empty_record_holds_nothing() {
    let storage = Storage::new();
    assert_eq!(0, storage.len());
    assert_eq!(None, storage.get_last_indexed_time(&url("https://site.test/a")));
}

#[test]
fn add_records_the_time_of_a_url() {
    let mut storage = Storage::new();
    storage.add(&url("https://site.test/a"), 100);
    storage.add(&url("https://site.test/b"), -5);
    assert_eq!(Some(100), storage.get_last_indexed_time(&url("https://site.test/a")));
    assert_eq!(Some(-5), storage.get_last_indexed_time(&url("https://site.test/b")));
    assert_eq!(None, storage.get_last_indexed_time(&url("https://site.test/c")));
    assert_eq!(None, storage.get_last_indexed_time(&url("https://site.test/a#f")));
    assert_eq!(2, storage.len());
}

#[test]
fn add_replaces_what_was_recorded_before() {
    let mut storage = Storage::new();
    storage.add(&url("https://site.test/a"), 100);
    storage.add(&url("https://site.test/b"), 150);
    storage.add(&url("https://site.test/a"), 200);
    assert_eq!(Some(200), storage.get_last_indexed_time(&url("https://site.test/a")));
    assert_eq!(Some(150), storage.get_last_indexed_time(&url("https://site.test/b")));
    assert_eq!(2, storage.len());
}
