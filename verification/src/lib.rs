//! The core of a web indexing service: canonical URLs, the crawl queue, the
//! record of indexed links, text extraction and the steps of an indexing worker.

pub mod text;
pub mod url;
pub mod query;
pub mod url_processing;
pub mod canonical;
pub mod html;
pub mod text_extracting;
pub mod queue;
pub mod indexed_links_storage;
pub mod indexer;
pub mod worker;
pub mod api;
pub mod sql;
