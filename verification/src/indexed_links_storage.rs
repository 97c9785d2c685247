//! The record of indexed links: for each URL whose text was published, the
//! time at which it was published last.

use crate::url::{Url, UrlView};
use vstd::prelude::*;

verus! {

/// A URL and the time at which it was indexed last, in seconds since the epoch.
#[derive(Debug, PartialEq)]
pub struct IndexedLink {
    /// The URL.
    pub url: Url,
    /// The time of the last indexing.
    pub last_indexed: i64,
}

/// The record as the contracts see it: a map from URLs to times.
pub type Links = Map<UrlView, i64>;

/// The map that a list of entries stands for; of two entries with one URL the
/// later counts.
pub open spec fn links_of(entries: Seq<IndexedLink>) -> Links
    decreases entries.len(),
{
    if entries.len() == 0 {
        Map::empty()
    } else {
        links_of(entries.drop_last()).insert(entries.last().url@, entries.last().last_indexed)
    }
}

/// Whether no URL stands in two entries.
pub open spec fn distinct_urls(entries: Seq<IndexedLink>) -> bool {
    forall|i: int, j: int|
        0 <= i < j < entries.len() ==> (#[trigger] entries[i]).url@ != (#[trigger] entries[j]).url@
}

/// The map of a list of entries holds the URLs of the entries and no others,
/// and for a list without repeated URLs each URL with the time of its entry.
pub proof fn lemma_links_of(entries: Seq<IndexedLink>)
    ensures
        forall|u: UrlView|
            links_of(entries).contains_key(u) <==> exists|i: int|
                0 <= i < entries.len() && (#[trigger] entries[i]).url@ == u,
        distinct_urls(entries) ==> forall|i: int|
            0 <= i < entries.len() ==> links_of(entries)[(#[trigger] entries[i]).url@]
                == entries[i].last_indexed,
    decreases entries.len(),
{
    if entries.len() > 0 {
        let front = entries.drop_last();
        lemma_links_of(front);
        assert forall|u: UrlView|
            links_of(entries).contains_key(u) <==> exists|i: int|
                0 <= i < entries.len() && (#[trigger] entries[i]).url@ == u by {
            if links_of(entries).contains_key(u) {
                if u == entries.last().url@ {
                    assert(entries[entries.len() - 1].url@ == u);
                } else {
                    assert(links_of(front).contains_key(u));
                    let i = choose|i: int| 0 <= i < front.len() && (#[trigger] front[i]).url@ == u;
                    assert(entries[i].url@ == u);
                }
            }
            if exists|i: int| 0 <= i < entries.len() && (#[trigger] entries[i]).url@ == u {
                let i = choose|i: int| 0 <= i < entries.len() && (#[trigger] entries[i]).url@ == u;
                if i < front.len() {
                    assert(front[i].url@ == u);
                    assert(links_of(front).contains_key(u));
                }
            }
        }
        if distinct_urls(entries) {
            assert(distinct_urls(front)) by {
                assert forall|i: int, j: int| 0 <= i < j < front.len() implies (#[trigger] front[i]).url@
                    != (#[trigger] front[j]).url@ by {
                    assert(front[i] == entries[i] && front[j] == entries[j]);
                }
            }
            assert forall|i: int| 0 <= i < entries.len() implies links_of(
                entries,
            )[(#[trigger] entries[i]).url@] == entries[i].last_indexed by {
                if i < front.len() {
                    assert(front[i] == entries[i]);
                    assert(entries[i].url@ != entries[entries.len() - 1].url@);
                }
            }
        }
    }
}

/// The record of indexed links.
#[derive(Debug)]
pub struct Storage {
    entries: Vec<IndexedLink>,
}

impl View for Storage {
    type V = Links;

    closed spec fn view(&self) -> Links {
        links_of(self.entries@)
    }
}

impl Storage {
    /// What the constructor establishes and every method keeps: no URL stands
    /// in two entries.
    pub closed spec fn wf(&self) -> bool {
        distinct_urls(self.entries@)
    }

    /// An empty record.
    pub fn new() -> (r: Self)
        ensures
            r.wf(),
            r@ == Links::empty(),
    {
        Storage { entries: Vec::new() }
    }

    /// The number of URLs in the record.
    pub fn len(&self) -> (r: usize)
        requires
            self.wf(),
        ensures
            r == self@.dom().len(),
            self@.dom().finite(),
    {
        proof {
            lemma_links_len(self.entries@);
        }
        self.entries.len()
    }

    /// The position of the entry of `url`, if it has one.
    fn find(&self, url: &Url) -> (r: Option<usize>)
        ensures
            match r {
                Some(at) => at < self.entries@.len() && self.entries@[at as int].url@ == url@,
                None => forall|k: int|
                    0 <= k < self.entries@.len() ==> (#[trigger] self.entries@[k]).url@ != url@,
            },
    {
        let mut i: usize = 0;
        while i < self.entries.len()
            invariant
                i <= self.entries.len(),
                forall|k: int| 0 <= k < i ==> (#[trigger] self.entries@[k]).url@ != url@,
            decreases self.entries.len() - i,
        {
            if self.entries[i].url.same_as(url) {
                return Some(i);
            }
            i = i + 1;
        }
        None
    }

    /// The time at which `url` was indexed last, if it was indexed.
    pub fn get_last_indexed_time(&self, url: &Url) -> (r: Option<i64>)
        requires
            self.wf(),
        ensures
            r == if self@.contains_key(url@) {
                Some(self@[url@])
            } else {
                None
            },
    {
        proof {
            lemma_links_of(self.entries@);
        }
        match self.find(url) {
            Some(at) => Some(self.entries[at].last_indexed),
            None => None,
        }
    }

    /// Records that `url` was indexed at `indexed_time`, in place of what was
    /// recorded of it before.
    pub fn add(&mut self, url: &Url, indexed_time: i64)
        requires
            old(self).wf(),
        ensures
            final(self).wf(),
            final(self)@ == old(self)@.insert(url@, indexed_time),
    {
        let ghost before = self.entries@;
        let entry = IndexedLink { url: url.duplicate(), last_indexed: indexed_time };
        match self.find(url) {
            Some(at) => {
                self.entries.set(at, entry);
                proof {
                    let after = self.entries@;
                    assert forall|i: int, j: int| 0 <= i < j < after.len() implies (#[trigger] after[i]).url@
                        != (#[trigger] after[j]).url@ by {
                        assert(after[i].url@ == before[i].url@);
                        assert(after[j].url@ == before[j].url@);
                    }
                    lemma_links_of(before);
                    lemma_links_of(after);
                    assert forall|u: UrlView|
                        links_of(after).contains_key(u) <==> links_of(before).insert(
                            url@,
                            indexed_time,
                        ).contains_key(u) by {
                        if links_of(after).contains_key(u) {
                            let i = choose|i: int|
                                0 <= i < after.len() && (#[trigger] after[i]).url@ == u;
                            assert(before[i].url@ == u);
                        }
                        if links_of(before).contains_key(u) {
                            let i = choose|i: int|
                                0 <= i < before.len() && (#[trigger] before[i]).url@ == u;
                            assert(after[i].url@ == u);
                        }
                        if u == url@ {
                            assert(after[at as int].url@ == u);
                        }
                    }
                    assert forall|u: UrlView| links_of(after).contains_key(u) implies links_of(
                        after,
                    )[u] == links_of(before).insert(url@, indexed_time)[u] by {
                        let i = choose|i: int|
                            0 <= i < after.len() && (#[trigger] after[i]).url@ == u;
                        assert(links_of(after)[after[i].url@] == after[i].last_indexed);
                        if i != at {
                            assert(after[i] == before[i]);
                            assert(before[i].url@ != before[at as int].url@);
                            assert(links_of(before)[before[i].url@] == before[i].last_indexed);
                        }
                    }
                    assert(links_of(after) =~= links_of(before).insert(url@, indexed_time));
                }
            },
            None => {
                self.entries.push(entry);
                proof {
                    let after = self.entries@;
                    assert(after.drop_last() =~= before);
                    assert forall|i: int, j: int| 0 <= i < j < after.len() implies (#[trigger] after[i]).url@
                        != (#[trigger] after[j]).url@ by {
                        assert(after[i] == before[i]);
                        if j < before.len() {
                            assert(after[j] == before[j]);
                        }
                    }
                }
            },
        }
    }
}

/// A list of entries without repeated URLs stands for a map with as many keys
/// as the list has entries.
pub proof fn lemma_links_len(entries: Seq<IndexedLink>)
    requires
        distinct_urls(entries),
    ensures
        links_of(entries).dom().finite(),
        links_of(entries).dom().len() == entries.len(),
    decreases entries.len(),
{
    if entries.len() > 0 {
        let front = entries.drop_last();
        assert(distinct_urls(front)) by {
            assert forall|i: int, j: int| 0 <= i < j < front.len() implies (#[trigger] front[i]).url@
                != (#[trigger] front[j]).url@ by {
                assert(front[i] == entries[i] && front[j] == entries[j]);
            }
        }
        lemma_links_len(front);
        lemma_links_of(front);
        let u = entries.last().url@;
        if links_of(front).contains_key(u) {
            let i = choose|i: int| 0 <= i < front.len() && (#[trigger] front[i]).url@ == u;
            assert(entries[i].url@ != entries[entries.len() - 1].url@);
        }
        assert(links_of(entries).dom() =~= links_of(front).dom().insert(u));
    }
}

} // verus!
