//! What callers from outside can ask of the indexer: to index a web site, and
//! to list what is being indexed.

use crate::indexer::Indexer;
use crate::queue::{enqueued, has_url, QueueError};
use crate::url::{parsed_url, Url};
use crate::url_processing::UrlProcessor;
use vstd::prelude::*;

verus! {

/// Why a request was not carried out.
#[derive(Clone, Copy, Debug, PartialEq, Eq, Structural)]
pub enum ApiError {
    /// The origin is no absolute URL.
    InvalidArgument,
    /// The queue can take no more items.
    QueueFull,
}

/// The indexing service as callers see it.
pub struct IndexingApiImpl<U> {
    /// The indexer behind the service.
    pub indexer: Indexer<U>,
}

impl<U> IndexingApiImpl<U> where U: UrlProcessor {
    /// Takes `origin` as the seed of a crawl: it is parsed as a URL and offered
    /// to the queue in its canonical form, unless the processor rejects it.
    /// `Ok(true)` where a new item was added, in which case one waiting worker
    /// is to be woken. An origin that is no URL is refused as an invalid
    /// argument, and nothing changes.
    pub fn index_web_site(&mut self, origin: &str) -> (r: Result<bool, ApiError>)
        requires
            old(self).indexer.wf(),
        ensures
            final(self).indexer.wf(),
            final(self).indexer.storage() == old(self).indexer.storage(),
            final(self).indexer.processor() == old(self).indexer.processor(),
            match parsed_url(origin@) {
                Some(url) => match old(self).indexer.processor().processed(url) {
                    Some(c) => final(self).indexer.queue()@ == enqueued(
                        old(self).indexer.queue()@,
                        c,
                    ) && r == if has_url(old(self).indexer.queue()@.rows, c) {
                        Ok::<bool, ApiError>(false)
                    } else if old(self).indexer.queue()@.next_id < i64::MAX {
                        Ok::<bool, ApiError>(true)
                    } else {
                        Err::<bool, ApiError>(ApiError::QueueFull)
                    },
                    None => final(self).indexer.queue()@ == old(self).indexer.queue()@ && r == Ok::<
                        bool,
                        ApiError,
                    >(false),
                },
                None => final(self).indexer.queue()@ == old(self).indexer.queue()@ && r == Err::<
                    bool,
                    ApiError,
                >(ApiError::InvalidArgument),
            },
    {
        match Url::parse(origin) {
            Some(url) => match self.indexer.index_page(url) {
                Ok(added) => Ok(added),
                Err(QueueError::OutOfIds) => Err(ApiError::QueueFull),
            },
            None => Err(ApiError::InvalidArgument),
        }
    }

    /// The web sites that are being indexed, as far as they are listed: none
    /// is.
    pub fn get_indexing_web_sites(&self) -> (r: Vec<String>)
        ensures
            r@.len() == 0,
    {
        Vec::new()
    }

    /// The pages that are being indexed, as far as they are listed: none is.
    pub fn get_indexing_pages(&self) -> (r: Vec<String>)
        ensures
            r@.len() == 0,
    {
        Vec::new()
    }
}

} // verus!
