//! The indexer: the queue, the record of indexed links and the rules by which
//! a fetched page becomes new queue items and a text for the search backend.

use crate::html::{first_element, hrefs_of, parsed_walk, Document, EdgeView, NodeView, Walk};
use crate::indexed_links_storage::{Links, Storage};
use crate::queue::{
    enqueued, enqueued_all, has_url, lemma_enqueued_grows, removed, urls_view, IndexingQueue,
    QueueError, QueueView,
};
use crate::text::views_of;
use crate::text_extracting::{body_text, TextExtractor};
use crate::url::{joined_url, owned_text_of, url_text, Url, UrlView};
use crate::url_processing::{url_of, UrlProcessor};
use vstd::prelude::*;

verus! {

/// The URL against which the links of a page are resolved: the `href` of the
/// first `base` element, resolved against the URL of the page; the URL of the
/// page where there is no `base` element or its `href` cannot be resolved. A
/// `base` element without `href` counts as one with an empty `href`.
pub open spec fn base_of(page: UrlView, walk: Walk) -> UrlView {
    match first_element(walk, "base"@, walk.len() as int) {
        Some(at) => {
            let href = match walk[at] {
                EdgeView::Open(NodeView::Element(_, Some(h))) => h,
                _ => Seq::<char>::empty(),
            };
            match joined_url(url_text(page), href) {
                Some(base) => base,
                None => page,
            }
        },
        None => page,
    }
}

/// The canonical URLs of the links `hrefs`, resolved against `base`, in their
/// order; a link that cannot be resolved or that the processor rejects is
/// left out.
pub open spec fn resolved_links<U: UrlProcessor>(
    processor: U,
    base: UrlView,
    hrefs: Seq<Seq<char>>,
) -> Seq<UrlView>
    decreases hrefs.len(),
{
    if hrefs.len() == 0 {
        Seq::empty()
    } else {
        let front = resolved_links(processor, base, hrefs.drop_last());
        match joined_url(url_text(base), hrefs.last()) {
            Some(v) => match processor.processed(v) {
                Some(c) => front.push(c),
                None => front,
            },
            None => front,
        }
    }
}

/// The URLs of `links` that the record `indexed` does not hold, in their order.
pub open spec fn unindexed(links: Seq<UrlView>, indexed: Links) -> Seq<UrlView>
    decreases links.len(),
{
    if links.len() == 0 {
        links
    } else if indexed.contains_key(links.last()) {
        unindexed(links.drop_last(), indexed)
    } else {
        unindexed(links.drop_last(), indexed).push(links.last())
    }
}

/// The links of a page that are offered to the queue: the `href` values of
/// its `a` elements, resolved and made canonical, without those that were
/// indexed already.
pub open spec fn new_links<U: UrlProcessor>(
    processor: U,
    page: UrlView,
    walk: Walk,
    indexed: Links,
) -> Seq<UrlView> {
    unindexed(
        resolved_links(processor, base_of(page, walk), hrefs_of(walk, "a"@, walk.len() as int)),
        indexed,
    )
}

/// Whether every URL of `urls` stands in a row of `q`.
pub open spec fn all_held(q: QueueView, urls: Seq<UrlView>) -> bool {
    forall|k: int| 0 <= k < urls.len() ==> has_url(q.rows, #[trigger] urls[k])
}

/// The URL against which the links of `document`, a page fetched from `page`,
/// are resolved.
pub fn resolve_base(page: &Url, document: &Document) -> (r: Url)
    ensures
        r@ == base_of(page@, document@),
{
    proof {
        reveal_strlit("");
    }
    match document.first_href("base") {
        Some(href) => {
            let joined = match &href {
                Some(h) => page.join(h.as_str()),
                None => {
                    assert(""@ =~= Seq::<char>::empty());
                    page.join("")
                },
            };
            match joined {
                Some(base) => base,
                None => page.duplicate(),
            }
        },
        None => page.duplicate(),
    }
}

/// The canonical URLs of the links `hrefs`, resolved against `base`.
pub fn discover_links<U: UrlProcessor>(processor: &U, base: &Url, hrefs: &Vec<String>) -> (r: Vec<
    Url,
>)
    ensures
        urls_view(r@) == resolved_links(*processor, base@, views_of(hrefs@)),
{
    let ghost all = views_of(hrefs@);
    let mut links: Vec<Url> = Vec::new();
    let mut i: usize = 0;
    assert(urls_view(links@) =~= resolved_links(*processor, base@, all.take(0)));
    while i < hrefs.len()
        invariant
            i <= hrefs.len(),
            all == views_of(hrefs@),
            urls_view(links@) == resolved_links(*processor, base@, all.take(i as int)),
        decreases hrefs.len() - i,
    {
        let ghost before = urls_view(links@);
        proof {
            let next = all.take(i as int + 1);
            assert(next.drop_last() =~= all.take(i as int));
            assert(next.last() == hrefs@[i as int]@);
        }
        match processor.parse_url(base, hrefs[i].as_str()) {
            Some(link) => {
                links.push(link);
                assert(urls_view(links@) =~= before.push(link@));
            },
            None => {},
        }
        i = i + 1;
    }
    assert(all.take(i as int) =~= all);
    links
}

/// The URLs of `links` that `storage` does not hold.
pub fn select_unindexed(links: &Vec<Url>, storage: &Storage) -> (r: Vec<Url>)
    requires
        storage.wf(),
    ensures
        urls_view(r@) == unindexed(urls_view(links@), storage@),
{
    let ghost all = urls_view(links@);
    let mut out: Vec<Url> = Vec::new();
    let mut i: usize = 0;
    assert(urls_view(out@) =~= unindexed(all.take(0), storage@));
    while i < links.len()
        invariant
            i <= links.len(),
            storage.wf(),
            all == urls_view(links@),
            urls_view(out@) == unindexed(all.take(i as int), storage@),
        decreases links.len() - i,
    {
        let ghost before = urls_view(out@);
        proof {
            let next = all.take(i as int + 1);
            assert(next.drop_last() =~= all.take(i as int));
            assert(next.last() == links@[i as int]@);
        }
        if storage.get_last_indexed_time(&links[i]).is_none() {
            out.push(links[i].duplicate());
            assert(urls_view(out@) =~= before.push(links@[i as int]@));
        }
        i = i + 1;
    }
    assert(all.take(i as int) =~= all);
    out
}

/// No URL of `unindexed(links, indexed)` is held by `indexed`, and each stands
/// in `links`.
pub proof fn lemma_unindexed(links: Seq<UrlView>, indexed: Links)
    ensures
        forall|k: int|
            0 <= k < unindexed(links, indexed).len() ==> !indexed.contains_key(
                #[trigger] unindexed(links, indexed)[k],
            ) && links.contains(unindexed(links, indexed)[k]),
    decreases links.len(),
{
    if links.len() > 0 {
        let front = links.drop_last();
        lemma_unindexed(front, indexed);
        let out = unindexed(links, indexed);
        assert forall|k: int| 0 <= k < out.len() implies !indexed.contains_key(#[trigger] out[k])
            && links.contains(out[k]) by {
            if k < unindexed(front, indexed).len() {
                let u = unindexed(front, indexed)[k];
                assert(front.contains(u));
                let m = choose|m: int| 0 <= m < front.len() && front[m] == u;
                assert(links[m] == u);
            } else {
                assert(links[links.len() - 1] == out[k]);
            }
        }
    }
}

/// A URL that stands in the queue after a list was offered stood in it before
/// or stands in the list.
pub proof fn lemma_enqueued_all_adds_only(q: QueueView, urls: Seq<UrlView>, url: UrlView)
    requires
        has_url(enqueued_all(q, urls).rows, url),
    ensures
        has_url(q.rows, url) || urls.contains(url),
    decreases urls.len(),
{
    if urls.len() > 0 {
        let front = urls.drop_last();
        let before = enqueued_all(q, front);
        let after = enqueued(before, urls.last());
        let k = choose|k: int| 0 <= k < after.rows.len() && (#[trigger] after.rows[k]).url == url;
        if k < before.rows.len() {
            assert(before.rows[k].url == url);
            lemma_enqueued_all_adds_only(q, front, url);
            if front.contains(url) {
                let m = choose|m: int| 0 <= m < front.len() && front[m] == url;
                assert(urls[m] == url);
            }
        } else {
            assert(urls[urls.len() - 1] == url);
        }
    }
}

/// A URL that the record of indexed links holds is not offered to the queue
/// again: if it did not stand in the queue before the links of a page were
/// offered, it does not stand in it afterwards.
pub proof fn law_indexed_link_is_not_enqueued<U: UrlProcessor>(
    processor: U,
    page: UrlView,
    walk: Walk,
    indexed: Links,
    q: QueueView,
    url: UrlView,
)
    requires
        indexed.contains_key(url),
        !has_url(q.rows, url),
    ensures
        !new_links(processor, page, walk, indexed).contains(url),
        !has_url(enqueued_all(q, new_links(processor, page, walk, indexed)).rows, url),
{
    let links = resolved_links(
        processor,
        base_of(page, walk),
        hrefs_of(walk, "a"@, walk.len() as int),
    );
    let offered = unindexed(links, indexed);
    lemma_unindexed(links, indexed);
    if offered.contains(url) {
        let k = choose|k: int| 0 <= k < offered.len() && offered[k] == url;
        assert(!indexed.contains_key(offered[k]));
    }
    if has_url(enqueued_all(q, offered).rows, url) {
        lemma_enqueued_all_adds_only(q, offered, url);
    }
}

/// The queue, the record of indexed links, and the rules for links and text.
pub struct Indexer<U> {
    queue: IndexingQueue,
    indexed_links_storage: Storage,
    url_processor: U,
    text_extractor: TextExtractor,
}

impl<U> Indexer<U> where U: UrlProcessor {
    /// The queue of the indexer.
    pub closed spec fn queue(&self) -> IndexingQueue {
        self.queue
    }

    /// The record of indexed links of the indexer.
    pub closed spec fn storage(&self) -> Storage {
        self.indexed_links_storage
    }

    /// The URL processor of the indexer.
    pub closed spec fn processor(&self) -> U {
        self.url_processor
    }

    /// What the constructor asks for and every method keeps: the queue and the
    /// record are well formed.
    pub open spec fn wf(&self) -> bool {
        self.queue().wf() && self.storage().wf()
    }

    /// An indexer over `queue` and `indexed_links_storage`.
    pub fn new(
        queue: IndexingQueue,
        indexed_links_storage: Storage,
        url_processor: U,
        text_extractor: TextExtractor,
    ) -> (r: Self)
        requires
            queue.wf(),
            indexed_links_storage.wf(),
        ensures
            r.wf(),
            r.queue() == queue,
            r.storage() == indexed_links_storage,
            r.processor() == url_processor,
    {
        Self { queue, indexed_links_storage, url_processor, text_extractor }
    }

    /// The queue, to be read.
    pub fn queue_ref(&self) -> (r: &IndexingQueue)
        ensures
            *r == self.queue(),
    {
        &self.queue
    }

    /// The record of indexed links, to be read.
    pub fn storage_ref(&self) -> (r: &Storage)
        ensures
            *r == self.storage(),
    {
        &self.indexed_links_storage
    }

    /// Offers `url` to the queue in its canonical form, unless the processor
    /// rejects it. `Ok(true)` where a new item was added, in which case one
    /// waiting worker is to be woken.
    pub fn index_page(&mut self, url: Url) -> (r: Result<bool, QueueError>)
        requires
            old(self).wf(),
        ensures
            final(self).wf(),
            final(self).storage() == old(self).storage(),
            final(self).processor() == old(self).processor(),
            match old(self).processor().processed(url@) {
                Some(c) => final(self).queue()@ == enqueued(old(self).queue()@, c) && r == if has_url(
                    old(self).queue()@.rows,
                    c,
                ) {
                    Ok::<bool, QueueError>(false)
                } else if old(self).queue()@.next_id < i64::MAX {
                    Ok::<bool, QueueError>(true)
                } else {
                    Err::<bool, QueueError>(QueueError::OutOfIds)
                },
                None => final(self).queue()@ == old(self).queue()@ && r == Ok::<bool, QueueError>(
                    false,
                ),
            },
    {
        match self.url_processor.process_url(url) {
            Some(canonical) => self.queue.enqueue(canonical),
            None => Ok(false),
        }
    }

    /// Hands the ready item with the lowest number to a worker; `None` where
    /// no item is ready, in which case the worker waits to be woken.
    pub fn claim(&mut self) -> (r: Option<crate::queue::QueueItem>)
        requires
            old(self).wf(),
        ensures
            final(self).wf(),
            final(self).storage() == old(self).storage(),
            final(self).processor() == old(self).processor(),
            final(self).queue()@ == crate::queue::claimed(old(self).queue()@),
            match crate::queue::first_ready(
                old(self).queue()@.rows,
                old(self).queue()@.rows.len() as int,
            ) {
                Some(at) => crate::queue::item_of(r) == Some(
                    (old(self).queue()@.rows[at].id, old(self).queue()@.rows[at].url),
                ),
                None => r is None,
            },
    {
        self.queue.peek()
    }

    /// Works on `document`, the page that was fetched from `page`: the links
    /// that were not indexed yet are offered to the queue, and the visible
    /// text is handed out for publishing. An error where the numbers of the
    /// queue ran out before a link that the queue did not hold.
    pub fn process_document(&mut self, page: &Url, document: &Document) -> (r: Result<
        Option<String>,
        QueueError,
    >)
        requires
            old(self).wf(),
        ensures
            final(self).wf(),
            final(self).storage() == old(self).storage(),
            final(self).processor() == old(self).processor(),
            final(self).queue()@ == enqueued_all(
                old(self).queue()@,
                new_links(old(self).processor(), page@, document@, old(self).storage()@),
            ),
            match r {
                Ok(text) => owned_text_of(text) == body_text(document@) && all_held(
                    final(self).queue()@,
                    new_links(old(self).processor(), page@, document@, old(self).storage()@),
                ),
                Err(e) => e == QueueError::OutOfIds && !all_held(
                    final(self).queue()@,
                    new_links(old(self).processor(), page@, document@, old(self).storage()@),
                ),
            },
    {
        let base = resolve_base(page, document);
        let hrefs = document.hrefs("a");
        let links = discover_links(&self.url_processor, &base, &hrefs);
        let text = self.text_extractor.extract_text(document);
        let fresh = select_unindexed(&links, &self.indexed_links_storage);
        let ghost offered = urls_view(fresh@);
        match self.queue.enqueue_all(&fresh) {
            Ok(_) => {
                assert forall|k: int| 0 <= k < offered.len() implies has_url(
                    self.queue@.rows,
                    #[trigger] offered[k],
                ) by {
                    assert(offered[k] == fresh@[k]@);
                }
                Ok(text)
            },
            Err(e) => {
                proof {
                    let k = choose|k: int|
                        0 <= k < fresh@.len() && !has_url(self.queue@.rows, (#[trigger] fresh@[k])@);
                    assert(offered[k] == fresh@[k]@);
                }
                Err(e)
            },
        }
    }

    /// Works on the page `html` that was fetched from `page`.
    pub fn process_page(&mut self, page: &Url, html: &str) -> (r: Result<Option<String>, QueueError>)
        requires
            old(self).wf(),
        ensures
            final(self).wf(),
            final(self).storage() == old(self).storage(),
            final(self).processor() == old(self).processor(),
            final(self).queue()@ == enqueued_all(
                old(self).queue()@,
                new_links(old(self).processor(), page@, parsed_walk(html@), old(self).storage()@),
            ),
            match r {
                Ok(text) => owned_text_of(text) == body_text(parsed_walk(html@)) && all_held(
                    final(self).queue()@,
                    new_links(
                        old(self).processor(),
                        page@,
                        parsed_walk(html@),
                        old(self).storage()@,
                    ),
                ),
                Err(e) => e == QueueError::OutOfIds && !all_held(
                    final(self).queue()@,
                    new_links(
                        old(self).processor(),
                        page@,
                        parsed_walk(html@),
                        old(self).storage()@,
                    ),
                ),
            },
    {
        let document = Document::parse_document(html);
        self.process_document(page, &document)
    }

    /// Closes the work on an item: the item leaves the queue, and its URL is
    /// recorded as indexed at `now`.
    pub fn complete(&mut self, id: i64, url: &Url, now: i64)
        requires
            old(self).wf(),
        ensures
            final(self).wf(),
            final(self).processor() == old(self).processor(),
            final(self).queue()@ == removed(old(self).queue()@, id as int),
            final(self).storage()@ == old(self).storage()@.insert(url@, now),
    {
        self.queue.mark_processed(id);
        self.indexed_links_storage.add(url, now);
    }
}

} // verus!
