//! The crawl queue: pending URLs in the order in which they came, each URL at
//! most once, each item ready or claimed by a worker.

use crate::url::{Url, UrlView};
use vstd::prelude::*;

verus! {

/// Whether an item waits for a worker or is being worked on.
#[derive(Clone, Copy, Debug, PartialEq, Eq, Structural)]
pub enum QueueItemStatus {
    /// The item waits for a worker.
    Ready,
    /// A worker has claimed the item.
    InProgress,
}

/// The number under which a status is stored: 0 for ready, 1 for in progress.
pub open spec fn status_code(status: QueueItemStatus) -> int {
    match status {
        QueueItemStatus::Ready => 0,
        QueueItemStatus::InProgress => 1,
    }
}

impl QueueItemStatus {
    /// The number under which the status is stored.
    pub fn code(self) -> (r: i32)
        ensures
            r == status_code(self),
    {
        match self {
            QueueItemStatus::Ready => 0,
            QueueItemStatus::InProgress => 1,
        }
    }

    /// The status that is stored under `code`, if there is one.
    pub fn from_code(code: i32) -> (r: Option<Self>)
        ensures
            match r {
                Some(status) => status_code(status) == code,
                None => code != 0 && code != 1,
            },
    {
        if code == 0 {
            Some(QueueItemStatus::Ready)
        } else if code == 1 {
            Some(QueueItemStatus::InProgress)
        } else {
            None
        }
    }
}

/// An item as a worker gets it.
#[derive(Debug, PartialEq)]
pub struct QueueItem {
    /// The number of the item; later items have higher numbers.
    pub id: i64,
    /// The URL to be indexed.
    pub url: Url,
}

/// A row of the queue.
#[derive(Debug, PartialEq)]
pub struct QueueRow {
    /// The number of the item.
    pub id: i64,
    /// The URL to be indexed.
    pub url: Url,
    /// Whether the item is ready or claimed.
    pub status: QueueItemStatus,
}

/// Why the queue could not take an item.
#[derive(Clone, Copy, Debug, PartialEq, Eq, Structural)]
pub enum QueueError {
    /// Every item number has been given out.
    OutOfIds,
}

/// What a row stands for in the contracts.
pub struct RowView {
    pub id: int,
    pub url: UrlView,
    pub status: QueueItemStatus,
}

/// What a queue stands for in the contracts: its rows in the order in which
/// they were added, and the number that the next item gets.
pub struct QueueView {
    pub rows: Seq<RowView>,
    pub next_id: int,
}

impl View for QueueRow {
    type V = RowView;

    open spec fn view(&self) -> RowView {
        RowView { id: self.id as int, url: self.url@, status: self.status }
    }
}

/// The views of the rows of `rows`.
pub open spec fn rows_view(rows: Seq<QueueRow>) -> Seq<RowView> {
    Seq::new(rows.len(), |i: int| rows[i]@)
}

/// What holds of every queue: the numbers of the rows are positive, go up and
/// lie below the next number, and no URL stands in two rows.
pub open spec fn queue_wf(q: QueueView) -> bool {
    &&& 1 <= q.next_id <= i64::MAX
    &&& forall|i: int| 0 <= i < q.rows.len() ==> 1 <= (#[trigger] q.rows[i]).id < q.next_id
    &&& forall|i: int, j: int|
        0 <= i < j < q.rows.len() ==> (#[trigger] q.rows[i]).id < (#[trigger] q.rows[j]).id
    &&& forall|i: int, j: int|
        0 <= i < j < q.rows.len() ==> (#[trigger] q.rows[i]).url != (#[trigger] q.rows[j]).url
}

/// Whether a row of `rows` holds `url`.
pub open spec fn has_url(rows: Seq<RowView>, url: UrlView) -> bool {
    exists|i: int| 0 <= i < rows.len() && (#[trigger] rows[i]).url == url
}

/// How many rows of `rows` hold `url`.
pub open spec fn count_url(rows: Seq<RowView>, url: UrlView) -> nat
    decreases rows.len(),
{
    if rows.len() == 0 {
        0
    } else {
        count_url(rows.drop_last(), url) + if rows.last().url == url {
            1nat
        } else {
            0nat
        }
    }
}

/// Whether the queue takes `url` as a new item: no row holds it, and a number
/// is left for it.
pub open spec fn accepts(q: QueueView, url: UrlView) -> bool {
    !has_url(q.rows, url) && q.next_id < i64::MAX
}

/// The queue after `url` was offered to it: with a new ready row at the end if
/// the queue accepts the URL, unchanged if not.
pub open spec fn enqueued(q: QueueView, url: UrlView) -> QueueView {
    if accepts(q, url) {
        QueueView {
            rows: q.rows.push(RowView { id: q.next_id, url: url, status: QueueItemStatus::Ready }),
            next_id: q.next_id + 1,
        }
    } else {
        q
    }
}

/// The position of the first ready row among the first `n` rows.
pub open spec fn first_ready(rows: Seq<RowView>, n: int) -> Option<int>
    decreases n,
{
    if n <= 0 {
        None
    } else {
        match first_ready(rows, n - 1) {
            Some(found) => Some(found),
            None => if rows[n - 1].status == QueueItemStatus::Ready {
                Some(n - 1)
            } else {
                None
            },
        }
    }
}

/// The queue after a worker asked for an item: the first ready row, which is
/// the ready row with the lowest number, is in progress.
pub open spec fn claimed(q: QueueView) -> QueueView {
    match first_ready(q.rows, q.rows.len() as int) {
        Some(at) => QueueView {
            rows: q.rows.update(
                at,
                RowView { status: QueueItemStatus::InProgress, ..q.rows[at] },
            ),
            ..q
        },
        None => q,
    }
}

/// The position of the row with the number `id` among the first `n` rows.
pub open spec fn position_of(rows: Seq<RowView>, id: int, n: int) -> Option<int>
    decreases n,
{
    if n <= 0 {
        None
    } else {
        match position_of(rows, id, n - 1) {
            Some(found) => Some(found),
            None => if rows[n - 1].id == id {
                Some(n - 1)
            } else {
                None
            },
        }
    }
}

/// The queue without the row with the number `id`.
pub open spec fn removed(q: QueueView, id: int) -> QueueView {
    match position_of(q.rows, id, q.rows.len() as int) {
        Some(at) => QueueView { rows: q.rows.remove(at), ..q },
        None => q,
    }
}

/// The queue with every row ready.
pub open spec fn recovered(q: QueueView) -> QueueView {
    QueueView {
        rows: Seq::new(
            q.rows.len(),
            |i: int| RowView { status: QueueItemStatus::Ready, ..q.rows[i] },
        ),
        ..q
    }
}

/// The view of an optional item.
pub open spec fn item_of(o: Option<QueueItem>) -> Option<(int, UrlView)> {
    match o {
        Some(item) => Some((item.id as int, item.url@)),
        None => None,
    }
}

/// The crawl queue.
#[derive(Debug)]
pub struct IndexingQueue {
    rows: Vec<QueueRow>,
    next_id: i64,
}

impl View for IndexingQueue {
    type V = QueueView;

    closed spec fn view(&self) -> QueueView {
        QueueView { rows: rows_view(self.rows@), next_id: self.next_id as int }
    }
}

impl IndexingQueue {
    /// What the constructor establishes and every method keeps.
    pub open spec fn wf(&self) -> bool {
        queue_wf(self@)
    }

    /// An empty queue, whose first item gets the number 1.
    pub fn new() -> (r: Self)
        ensures
            r@ == (QueueView { rows: Seq::empty(), next_id: 1 }),
            r.wf(),
    {
        let r = IndexingQueue { rows: Vec::new(), next_id: 1 };
        assert(r@.rows =~= Seq::empty());
        r
    }

    /// The position of the row that holds `url`, if there is one.
    fn find_url(&self, url: &Url) -> (r: Option<usize>)
        ensures
            match r {
                Some(at) => at < self@.rows.len() && self@.rows[at as int].url == url@,
                None => !has_url(self@.rows, url@),
            },
    {
        let mut i: usize = 0;
        while i < self.rows.len()
            invariant
                i <= self.rows.len(),
                forall|k: int| 0 <= k < i ==> (#[trigger] self@.rows[k]).url != url@,
            decreases self.rows.len() - i,
        {
            if self.rows[i].url.same_as(url) {
                return Some(i);
            }
            i = i + 1;
        }
        None
    }

    /// Whether a row holds `url`.
    pub fn contains(&self, url: &Url) -> (r: bool)
        ensures
            r == has_url(self@.rows, url@),
    {
        self.find_url(url).is_some()
    }

    /// The number of rows.
    pub fn len(&self) -> (r: usize)
        ensures
            r == self@.rows.len(),
    {
        self.rows.len()
    }

    /// Offers `url` to the queue. `Ok(true)` where a new ready row was added, in
    /// which case one waiting worker is to be woken; `Ok(false)` where a row
    /// holds the URL already; an error where no number is left.
    pub fn enqueue(&mut self, url: Url) -> (r: Result<bool, QueueError>)
        requires
            old(self).wf(),
        ensures
            final(self).wf(),
            final(self)@ == enqueued(old(self)@, url@),
            r == if has_url(old(self)@.rows, url@) {
                Ok::<bool, QueueError>(false)
            } else if old(self)@.next_id < i64::MAX {
                Ok::<bool, QueueError>(true)
            } else {
                Err::<bool, QueueError>(QueueError::OutOfIds)
            },
    {
        if self.find_url(&url).is_some() {
            return Ok(false);
        }
        if self.next_id == i64::MAX {
            return Err(QueueError::OutOfIds);
        }
        let id = self.next_id;
        let ghost before = self@;
        self.next_id = id + 1;
        self.rows.push(QueueRow { id, url, status: QueueItemStatus::Ready });
        assert(self@.rows =~= before.rows.push(
            RowView { id: id as int, url: url@, status: QueueItemStatus::Ready },
        ));
        Ok(true)
    }

    /// Claims the ready item with the lowest number for a worker: the row is in
    /// progress from now on. `None` where no row is ready, in which case the
    /// worker is to wait until it is woken, and ask again.
    pub fn peek(&mut self) -> (r: Option<QueueItem>)
        requires
            old(self).wf(),
        ensures
            final(self).wf(),
            final(self)@ == claimed(old(self)@),
            match first_ready(old(self)@.rows, old(self)@.rows.len() as int) {
                Some(at) => item_of(r) == Some((old(self)@.rows[at].id, old(self)@.rows[at].url)),
                None => r is None,
            },
    {
        let ghost before = self@;
        let ghost rows0 = self.rows@;
        let mut i: usize = 0;
        while i < self.rows.len()
            invariant
                i <= self.rows.len(),
                self@ == before,
                before == old(self)@,
                self.rows@ == rows0,
                queue_wf(before),
                first_ready(before.rows, i as int) is None,
            decreases self.rows.len() - i,
        {
            assert(before.rows[i as int] == self.rows@[i as int]@);
            if self.rows[i].status == QueueItemStatus::Ready {
                proof {
                    assert(first_ready(before.rows, i as int + 1) == Some(i as int));
                    lemma_first_ready_stays(before.rows, i as int + 1, before.rows.len() as int);
                }
                let id = self.rows[i].id;
                let url = self.rows[i].url.duplicate();
                let claimed_url = self.rows[i].url.duplicate();
                self.rows.set(i, QueueRow { id, url, status: QueueItemStatus::InProgress });
                proof {
                    let after = before.rows.update(
                        i as int,
                        RowView { status: QueueItemStatus::InProgress, ..before.rows[i as int] },
                    );
                    assert forall|k: int| 0 <= k < after.len() implies #[trigger] self@.rows[k]
                        == after[k] by {
                        assert(self@.rows[k] == self.rows@[k]@);
                        if k != i {
                            assert(before.rows[k] == rows0[k]@);
                        }
                    }
                    assert(self@.rows =~= after);
                    assert forall|k: int| 0 <= k < after.len() implies (#[trigger] after[k]).id
                        == before.rows[k].id && after[k].url == before.rows[k].url by {}
                }
                return Some(QueueItem { id, url: claimed_url });
            }
            i = i + 1;
        }
        None
    }

    /// Takes the row with the number `id` out of the queue; a number that no
    /// row has changes nothing.
    pub fn mark_processed(&mut self, id: i64)
        requires
            old(self).wf(),
        ensures
            final(self).wf(),
            final(self)@ == removed(old(self)@, id as int),
    {
        let ghost before = self@;
        let ghost rows0 = self.rows@;
        let mut i: usize = 0;
        while i < self.rows.len()
            invariant
                i <= self.rows.len(),
                self@ == before,
                before == old(self)@,
                self.rows@ == rows0,
                queue_wf(before),
                position_of(before.rows, id as int, i as int) is None,
            decreases self.rows.len() - i,
        {
            assert(before.rows[i as int] == self.rows@[i as int]@);
            if self.rows[i].id == id {
                proof {
                    assert(position_of(before.rows, id as int, i as int + 1) == Some(i as int));
                    lemma_position_of_stays(
                        before.rows,
                        id as int,
                        i as int + 1,
                        before.rows.len() as int,
                    );
                }
                self.rows.remove(i);
                proof {
                    let after = before.rows.remove(i as int);
                    assert forall|k: int| 0 <= k < after.len() implies #[trigger] self@.rows[k]
                        == after[k] by {
                        assert(self@.rows[k] == self.rows@[k]@);
                        if k < i {
                            assert(before.rows[k] == rows0[k]@);
                        } else {
                            assert(before.rows[k + 1] == rows0[k + 1]@);
                        }
                    }
                    assert(self@.rows =~= after);
                    assert forall|k: int| 0 <= k < after.len() implies (#[trigger] after[k])
                        == before.rows[if k < i {
                        k
                    } else {
                        k + 1
                    }] by {}
                }
                return ;
            }
            i = i + 1;
        }
    }

    /// Makes every row ready again: what was claimed when the service stopped
    /// is handed out anew.
    pub fn reset_in_progress(&mut self)
        requires
            old(self).wf(),
        ensures
            final(self).wf(),
            final(self)@ == recovered(old(self)@),
    {
        let ghost before = self@;
        let ghost rows0 = self.rows@;
        let mut i: usize = 0;
        while i < self.rows.len()
            invariant
                i <= self.rows.len(),
                queue_wf(before),
                self@.next_id == before.next_id,
                self@.rows.len() == before.rows.len(),
                forall|k: int|
                    0 <= k < i ==> #[trigger] self@.rows[k] == (RowView {
                        status: QueueItemStatus::Ready,
                        ..before.rows[k]
                    }),
                forall|k: int|
                    i <= k < before.rows.len() ==> #[trigger] self@.rows[k] == before.rows[k],
            decreases self.rows.len() - i,
        {
            let ghost mid = self.rows@;
            assert(self@.rows[i as int] == mid[i as int]@);
            if self.rows[i].status != QueueItemStatus::Ready {
                let id = self.rows[i].id;
                let url = self.rows[i].url.duplicate();
                self.rows.set(i, QueueRow { id, url, status: QueueItemStatus::Ready });
            }
            proof {
                assert forall|k: int| 0 <= k < before.rows.len() && k != i implies #[trigger] self@.rows[k]
                    == rows_view(mid)[k] by {
                    assert(self@.rows[k] == self.rows@[k]@);
                }
            }
            i = i + 1;
        }
        proof {
            let after = recovered(before);
            assert(self@.rows =~= after.rows);
            assert forall|k: int| 0 <= k < after.rows.len() implies (#[trigger] after.rows[k]).id
                == before.rows[k].id && after.rows[k].url == before.rows[k].url by {}
        }
    }

    /// Whether the queue holds a page of `authority`. Nothing is recorded by
    /// authority, so the answer is always no.
    pub fn contains_authority(&self, authority: &str) -> (r: bool)
        ensures
            !r,
    {
        false
    }

    /// The origins that are being indexed. Nothing is recorded by origin, so
    /// the list is always empty.
    pub fn get_indexing_origins(&self) -> (r: Vec<String>)
        ensures
            r@.len() == 0,
    {
        Vec::new()
    }

    /// The pages that are being indexed, as far as they are listed: none is.
    pub fn get_indexing_pages(&self) -> (r: Vec<String>)
        ensures
            r@.len() == 0,
    {
        Vec::new()
    }
}

/// Once a ready row is found, the first one stays the first.
pub proof fn lemma_first_ready_stays(rows: Seq<RowView>, n: int, m: int)
    requires
        first_ready(rows, n) is Some,
        n <= m,
    ensures
        first_ready(rows, m) == first_ready(rows, n),
    decreases m - n,
{
    if n < m {
        lemma_first_ready_stays(rows, n, m - 1);
    }
}

/// Once the row with a number is found, its position stays what it is.
pub proof fn lemma_position_of_stays(rows: Seq<RowView>, id: int, n: int, m: int)
    requires
        position_of(rows, id, n) is Some,
        n <= m,
    ensures
        position_of(rows, id, m) == position_of(rows, id, n),
    decreases m - n,
{
    if n < m {
        lemma_position_of_stays(rows, id, n, m - 1);
    }
}

/// In a well-formed queue a URL stands in one row or in none.
pub proof fn lemma_count_url(q: QueueView, url: UrlView)
    requires
        queue_wf(q),
    ensures
        count_url(q.rows, url) == if has_url(q.rows, url) {
            1nat
        } else {
            0nat
        },
    decreases q.rows.len(),
{
    if q.rows.len() > 0 {
        let front = QueueView { rows: q.rows.drop_last(), ..q };
        assert forall|i: int| 0 <= i < front.rows.len() implies front.rows[i] == q.rows[i] by {}
        lemma_count_url(front, url);
        if has_url(front.rows, url) {
            let k = choose|k: int| 0 <= k < front.rows.len() && (#[trigger] front.rows[k]).url == url;
            assert(q.rows[k].url == url);
            assert(q.rows[k].url != q.rows[q.rows.len() - 1].url);
        } else if has_url(q.rows, url) {
            let k = choose|k: int| 0 <= k < q.rows.len() && (#[trigger] q.rows[k]).url == url;
            if k < front.rows.len() {
                assert(front.rows[k].url == url);
            }
        } else {
            assert(q.rows[q.rows.len() - 1].url != url);
        }
    }
}

/// Offering a URL keeps the queue well formed.
pub proof fn lemma_enqueued_is_wf(q: QueueView, url: UrlView)
    requires
        queue_wf(q),
    ensures
        queue_wf(enqueued(q, url)),
{
    if accepts(q, url) {
        let after = enqueued(q, url);
        assert forall|i: int, j: int| 0 <= i < j < after.rows.len() implies (#[trigger] after.rows[i]).url
            != (#[trigger] after.rows[j]).url by {
            assert(after.rows[i] == q.rows[i]);
            if j < q.rows.len() {
                assert(after.rows[j] == q.rows[j]);
            }
        }
        assert forall|i: int, j: int| 0 <= i < j < after.rows.len() implies (#[trigger] after.rows[i]).id
            < (#[trigger] after.rows[j]).id by {
            assert(after.rows[i] == q.rows[i]);
            if j < q.rows.len() {
                assert(after.rows[j] == q.rows[j]);
            }
        }
    }
}

/// A URL that is offered twice stands in the queue once: the second offer
/// changes nothing, and exactly one row holds the URL. This holds of every
/// queue that has a number left or holds the URL already.
pub proof fn law_enqueue_twice_leaves_one_row(q: QueueView, url: UrlView)
    requires
        queue_wf(q),
        q.next_id < i64::MAX || has_url(q.rows, url),
    ensures
        enqueued(enqueued(q, url), url) == enqueued(q, url),
        count_url(enqueued(enqueued(q, url), url).rows, url) == 1,
{
    let once = enqueued(q, url);
    lemma_enqueued_is_wf(q, url);
    if accepts(q, url) {
        assert(once.rows[once.rows.len() - 1].url == url);
    }
    assert(has_url(once.rows, url));
    lemma_count_url(once, url);
}

/// Whether the row with the number `id` is in progress.
pub open spec fn is_in_progress(q: QueueView, id: int) -> bool {
    exists|i: int|
        0 <= i < q.rows.len() && (#[trigger] q.rows[i]).id == id && q.rows[i].status
            == QueueItemStatus::InProgress
}

/// The number of the item that a worker gets from the queue, if one is ready.
pub open spec fn claimed_id(q: QueueView) -> Option<int> {
    match first_ready(q.rows, q.rows.len() as int) {
        Some(at) => Some(q.rows[at].id),
        None => None,
    }
}

/// What `first_ready` finds is a ready row, and no row before it is ready.
pub proof fn lemma_first_ready(rows: Seq<RowView>, n: int)
    requires
        0 <= n <= rows.len(),
    ensures
        match first_ready(rows, n) {
            Some(at) => 0 <= at < n && rows[at].status == QueueItemStatus::Ready && forall|k: int|
                0 <= k < at ==> (#[trigger] rows[k]).status != QueueItemStatus::Ready,
            None => forall|k: int| 0 <= k < n ==> (#[trigger] rows[k]).status != QueueItemStatus::Ready,
        },
    decreases n,
{
    if n > 0 {
        lemma_first_ready(rows, n - 1);
    }
}

/// The first ready row of `rows` is at `at` if that row is ready and none
/// before it is.
pub proof fn lemma_first_ready_is(rows: Seq<RowView>, at: int)
    requires
        0 <= at < rows.len(),
        rows[at].status == QueueItemStatus::Ready,
        forall|k: int| 0 <= k < at ==> (#[trigger] rows[k]).status != QueueItemStatus::Ready,
    ensures
        first_ready(rows, rows.len() as int) == Some(at),
{
    lemma_first_ready(rows, at);
    assert(first_ready(rows, at + 1) == Some(at));
    lemma_first_ready_stays(rows, at + 1, rows.len() as int);
}

/// The item that a worker gets is in progress from then on, and the next
/// claim gives another item, with a higher number.
pub proof fn law_claimed_item_is_in_progress(q: QueueView)
    requires
        queue_wf(q),
        claimed_id(q) is Some,
    ensures
        is_in_progress(claimed(q), claimed_id(q)->0),
        claimed_id(claimed(q)) matches Some(next) ==> next > claimed_id(q)->0,
{
    lemma_first_ready(q.rows, q.rows.len() as int);
    let at = first_ready(q.rows, q.rows.len() as int)->0;
    let after = claimed(q);
    assert(after.rows[at].id == q.rows[at].id);
    lemma_first_ready(after.rows, after.rows.len() as int);
    match first_ready(after.rows, after.rows.len() as int) {
        Some(next) => {
            if next < at {
                assert(after.rows[next] == q.rows[next]);
            }
            assert(q.rows[at].id < q.rows[next].id);
        },
        None => {},
    }
}

/// The item that a worker gets has the lowest number among the ready items.
pub proof fn law_claim_takes_lowest_ready(q: QueueView, i: int)
    requires
        queue_wf(q),
        0 <= i < q.rows.len(),
        q.rows[i].status == QueueItemStatus::Ready,
    ensures
        claimed_id(q) matches Some(id) && id <= q.rows[i].id,
{
    lemma_first_ready(q.rows, q.rows.len() as int);
    let at = first_ready(q.rows, q.rows.len() as int)->0;
    if at < i {
        assert(q.rows[at].id < q.rows[i].id);
    }
}

/// Taking an item out a second time changes nothing, and a well-formed queue
/// stays well formed when an item is taken out.
pub proof fn law_mark_processed_twice(q: QueueView, id: int)
    requires
        queue_wf(q),
    ensures
        queue_wf(removed(q, id)),
        removed(removed(q, id), id) == removed(q, id),
{
    lemma_position_of(q.rows, id, q.rows.len() as int);
    let after = removed(q, id);
    match position_of(q.rows, id, q.rows.len() as int) {
        Some(at) => {
            assert forall|k: int| 0 <= k < after.rows.len() implies (#[trigger] after.rows[k])
                == q.rows[if k < at {
                k
            } else {
                k + 1
            }] by {}
            assert forall|k: int| 0 <= k < after.rows.len() implies (#[trigger] after.rows[k]).id
                != id by {
                if k < at {
                    assert(q.rows[k].id < q.rows[at].id);
                } else {
                    assert(q.rows[at].id < q.rows[k + 1].id);
                }
            }
            lemma_position_of(after.rows, id, after.rows.len() as int);
        },
        None => {},
    }
}

/// An item that is in progress is handed to no worker: a claim gives another
/// item, and the item stays in progress under every offer, under every claim,
/// and when another item is taken out.
pub proof fn law_item_in_progress_is_not_claimed(q: QueueView, id: int, url: UrlView, other: int)
    requires
        queue_wf(q),
        is_in_progress(q, id),
        other != id,
    ensures
        claimed_id(q) != Some(id),
        is_in_progress(enqueued(q, url), id),
        is_in_progress(claimed(q), id),
        is_in_progress(removed(q, other), id),
{
    let held = choose|i: int|
        0 <= i < q.rows.len() && (#[trigger] q.rows[i]).id == id && q.rows[i].status
            == QueueItemStatus::InProgress;
    lemma_first_ready(q.rows, q.rows.len() as int);
    match first_ready(q.rows, q.rows.len() as int) {
        Some(at) => {
            if at < held {
                assert(q.rows[at].id < q.rows[held].id);
            } else if held < at {
                assert(q.rows[held].id < q.rows[at].id);
            }
            assert(claimed(q).rows[held] == q.rows[held]);
        },
        None => {},
    }
    assert(enqueued(q, url).rows[held] == q.rows[held]);
    lemma_position_of(q.rows, other, q.rows.len() as int);
    match position_of(q.rows, other, q.rows.len() as int) {
        Some(at) => {
            let after = removed(q, other);
            if held < at {
                assert(after.rows[held] == q.rows[held]);
            } else {
                assert(after.rows[held - 1] == q.rows[held]);
            }
        },
        None => {},
    }
}

/// What `position_of` finds is a row with the number, and no row before it has
/// the number.
pub proof fn lemma_position_of(rows: Seq<RowView>, id: int, n: int)
    requires
        0 <= n <= rows.len(),
    ensures
        match position_of(rows, id, n) {
            Some(at) => 0 <= at < n && rows[at].id == id,
            None => forall|k: int| 0 <= k < n ==> (#[trigger] rows[k]).id != id,
        },
    decreases n,
{
    if n > 0 {
        lemma_position_of(rows, id, n - 1);
    }
}

/// The queue after `times` claims.
pub open spec fn claimed_times(q: QueueView, times: nat) -> QueueView
    decreases times,
{
    if times == 0 {
        q
    } else {
        claimed(claimed_times(q, (times - 1) as nat))
    }
}

/// After a recovery every row is ready, with the number and the URL that it
/// had, and the rows are handed out again in their order: the claim number
/// `k` gives the row number `k`.
pub proof fn law_recovered_items_are_reclaimable(q: QueueView, k: nat)
    requires
        queue_wf(q),
        k < q.rows.len(),
    ensures
        queue_wf(recovered(q)),
        recovered(q).rows.len() == q.rows.len(),
        forall|i: int|
            0 <= i < q.rows.len() ==> (#[trigger] recovered(q).rows[i]) == (RowView {
                status: QueueItemStatus::Ready,
                ..q.rows[i]
            }),
        claimed_id(claimed_times(recovered(q), k)) == Some(q.rows[k as int].id),
{
    lemma_claimed_times_of_ready(recovered(q), k);
}

/// In a queue of ready rows, `times` claims put the first `times` rows in
/// progress and leave the others ready.
proof fn lemma_claimed_times_of_ready(q: QueueView, times: nat)
    requires
        forall|i: int| 0 <= i < q.rows.len() ==> (#[trigger] q.rows[i]).status == QueueItemStatus::Ready,
        times <= q.rows.len(),
    ensures
        claimed_times(q, times).next_id == q.next_id,
        claimed_times(q, times).rows.len() == q.rows.len(),
        forall|i: int|
            0 <= i < q.rows.len() ==> (#[trigger] claimed_times(q, times).rows[i]) == (RowView {
                status: if i < times {
                    QueueItemStatus::InProgress
                } else {
                    QueueItemStatus::Ready
                },
                ..q.rows[i]
            }),
        times < q.rows.len() ==> first_ready(
            claimed_times(q, times).rows,
            q.rows.len() as int,
        ) == Some(times as int),
    decreases times,
{
    if times > 0 {
        lemma_claimed_times_of_ready(q, (times - 1) as nat);
        let before = claimed_times(q, (times - 1) as nat);
        let after = claimed_times(q, times);
        assert(after == claimed(before));
        assert(first_ready(before.rows, before.rows.len() as int) == Some(times - 1));
        assert forall|i: int| 0 <= i < q.rows.len() implies (#[trigger] after.rows[i]) == (RowView {
            status: if i < times {
                QueueItemStatus::InProgress
            } else {
                QueueItemStatus::Ready
            },
            ..q.rows[i]
        }) by {
            assert(before.rows[i].id == q.rows[i].id);
        }
    }
    let now = claimed_times(q, times);
    if times < q.rows.len() {
        assert forall|k: int| 0 <= k < times implies (#[trigger] now.rows[k]).status
            != QueueItemStatus::Ready by {}
        lemma_first_ready_is(now.rows, times as int);
    }
}

/// The views of the URLs of `urls`.
pub open spec fn urls_view(urls: Seq<Url>) -> Seq<UrlView> {
    Seq::new(urls.len(), |i: int| urls[i]@)
}

/// The queue after the URLs of `urls` were offered to it one after the other.
pub open spec fn enqueued_all(q: QueueView, urls: Seq<UrlView>) -> QueueView
    decreases urls.len(),
{
    if urls.len() == 0 {
        q
    } else {
        enqueued(enqueued_all(q, urls.drop_last()), urls.last())
    }
}

/// `urls` without the URLs that stand in it a second time.
pub open spec fn without_repeats(urls: Seq<UrlView>) -> Seq<UrlView>
    decreases urls.len(),
{
    if urls.len() == 0 {
        urls
    } else if urls.drop_last().contains(urls.last()) {
        without_repeats(urls.drop_last())
    } else {
        without_repeats(urls.drop_last()).push(urls.last())
    }
}

/// An offer takes no row away, and gives out no number twice.
pub proof fn lemma_enqueued_grows(q: QueueView, url: UrlView, other: UrlView)
    ensures
        has_url(q.rows, other) ==> has_url(enqueued(q, url).rows, other),
        q.next_id <= enqueued(q, url).next_id,
        q.rows.len() <= enqueued(q, url).rows.len(),
        q.next_id <= i64::MAX ==> has_url(enqueued(q, url).rows, url) || enqueued(q, url).next_id
            == i64::MAX,
        accepts(q, url) ==> has_url(enqueued(q, url).rows, url),
{
    let after = enqueued(q, url);
    if has_url(q.rows, other) {
        let k = choose|k: int| 0 <= k < q.rows.len() && (#[trigger] q.rows[k]).url == other;
        assert(after.rows[k].url == other);
    }
    if accepts(q, url) {
        assert(after.rows[after.rows.len() - 1].url == url);
    }
}

/// After the URLs of a list were offered, each of them stands in the queue,
/// unless the numbers have run out.
pub proof fn lemma_enqueued_all_holds(q: QueueView, urls: Seq<UrlView>, k: int)
    requires
        q.next_id <= i64::MAX,
        0 <= k < urls.len(),
    ensures
        enqueued_all(q, urls).next_id <= i64::MAX,
        has_url(enqueued_all(q, urls).rows, urls[k]) || enqueued_all(q, urls).next_id == i64::MAX,
    decreases urls.len(),
{
    let front = urls.drop_last();
    let before = enqueued_all(q, front);
    lemma_enqueued_all_bounded(q, front);
    if k < front.len() {
        lemma_enqueued_all_holds(q, front, k);
        lemma_enqueued_grows(before, urls.last(), urls[k]);
    } else {
        lemma_enqueued_grows(before, urls.last(), urls[k]);
    }
}

/// Offers never take the next number beyond the last number.
pub proof fn lemma_enqueued_all_bounded(q: QueueView, urls: Seq<UrlView>)
    requires
        q.next_id <= i64::MAX,
    ensures
        q.next_id <= enqueued_all(q, urls).next_id <= i64::MAX,
        q.rows.len() <= enqueued_all(q, urls).rows.len(),
    decreases urls.len(),
{
    if urls.len() > 0 {
        lemma_enqueued_all_bounded(q, urls.drop_last());
    }
}

/// Offering a list in two parts is offering the whole list.
pub proof fn lemma_enqueued_all_concat(q: QueueView, first: Seq<UrlView>, second: Seq<UrlView>)
    ensures
        enqueued_all(q, first + second) == enqueued_all(enqueued_all(q, first), second),
    decreases second.len(),
{
    if second.len() == 0 {
        assert(first + second =~= first);
    } else {
        lemma_enqueued_all_concat(q, first, second.drop_last());
        assert((first + second).drop_last() =~= first + second.drop_last());
        assert((first + second).last() == second.last());
    }
}

/// A queue whose numbers have run out stays as it is, whatever is offered.
pub proof fn lemma_enqueued_all_when_full(q: QueueView, urls: Seq<UrlView>)
    requires
        q.next_id >= i64::MAX,
    ensures
        enqueued_all(q, urls) == q,
    decreases urls.len(),
{
    if urls.len() > 0 {
        lemma_enqueued_all_when_full(q, urls.drop_last());
    }
}

/// Offering the links of a page is the same as offering them without the
/// repeated ones: a URL that stands in the list a second time changes nothing.
pub proof fn law_enqueue_all_ignores_repeats(q: QueueView, urls: Seq<UrlView>)
    requires
        q.next_id <= i64::MAX,
    ensures
        enqueued_all(q, urls) == enqueued_all(q, without_repeats(urls)),
    decreases urls.len(),
{
    if urls.len() > 0 {
        let front = urls.drop_last();
        law_enqueue_all_ignores_repeats(q, front);
        if front.contains(urls.last()) {
            let k = choose|k: int| 0 <= k < front.len() && front[k] == urls.last();
            lemma_enqueued_all_holds(q, front, k);
        } else {
            assert(without_repeats(front).push(urls.last()).drop_last() =~= without_repeats(front));
        }
    }
}

impl IndexingQueue {
    /// Offers the URLs of `urls` to the queue one after the other. `Ok` with
    /// the number of new rows, as many waiting workers are to be woken, where
    /// every URL stands in the queue afterwards; an error where the numbers
    /// ran out before a URL that the queue did not hold.
    pub fn enqueue_all(&mut self, urls: &Vec<Url>) -> (r: Result<usize, QueueError>)
        requires
            old(self).wf(),
        ensures
            final(self).wf(),
            final(self)@ == enqueued_all(old(self)@, urls_view(urls@)),
            match r {
                Ok(added) => added == final(self)@.rows.len() - old(self)@.rows.len() && forall|
                    k: int,
                |
                    0 <= k < urls@.len() ==> has_url(final(self)@.rows, (#[trigger] urls@[k])@),
                Err(e) => e == QueueError::OutOfIds && exists|k: int|
                    0 <= k < urls@.len() && !has_url(final(self)@.rows, (#[trigger] urls@[k])@),
            },
    {
        let ghost all = urls_view(urls@);
        let ghost start = self@;
        let mut added: usize = 0;
        let mut i: usize = 0;
        while i < urls.len()
            invariant
                i <= urls.len(),
                self.wf(),
                start == old(self)@,
                all == urls_view(urls@),
                self@ == enqueued_all(start, all.take(i as int)),
                added <= i,
                added == self@.rows.len() - start.rows.len(),
                forall|k: int| 0 <= k < i ==> has_url(self@.rows, (#[trigger] urls@[k])@),
            decreases urls.len() - i,
        {
            let ghost before = self@;
            let ghost next = all.take(i as int + 1);
            proof {
                assert(next.drop_last() =~= all.take(i as int));
                assert(next.last() == urls@[i as int]@);
                assert forall|k: int| 0 <= k < i implies has_url(
                    enqueued(before, urls@[i as int]@).rows,
                    (#[trigger] urls@[k])@,
                ) by {
                    lemma_enqueued_grows(before, urls@[i as int]@, urls@[k]@);
                }
                lemma_enqueued_grows(before, urls@[i as int]@, urls@[i as int]@);
            }
            match self.enqueue(urls[i].duplicate()) {
                Ok(inserted) => {
                    if inserted {
                        added = added + 1;
                    }
                },
                Err(e) => {
                    proof {
                        let rest = all.skip(i as int + 1);
                        assert(next + rest =~= all);
                        lemma_enqueued_all_concat(start, next, rest);
                        lemma_enqueued_all_when_full(self@, rest);
                    }
                    return Err(e);
                },
            }
            i = i + 1;
        }
        assert(all.take(i as int) =~= all);
        Ok(added)
    }

    /// Whether `rows` and `next_id` make a well-formed queue.
    pub fn is_valid(rows: &Vec<QueueRow>, next_id: i64) -> (r: bool)
        ensures
            r == queue_wf(QueueView { rows: rows_view(rows@), next_id: next_id as int }),
    {
        let ghost q = QueueView { rows: rows_view(rows@), next_id: next_id as int };
        if next_id < 1 {
            return false;
        }
        let mut i: usize = 0;
        while i < rows.len()
            invariant
                i <= rows.len(),
                1 <= next_id,
                q == (QueueView { rows: rows_view(rows@), next_id: next_id as int }),
                forall|k: int| 0 <= k < i ==> 1 <= (#[trigger] q.rows[k]).id < q.next_id,
                forall|k: int, l: int|
                    0 <= k < l < i ==> (#[trigger] q.rows[k]).id < (#[trigger] q.rows[l]).id,
                forall|k: int, l: int|
                    0 <= k < l < i ==> (#[trigger] q.rows[k]).url != (#[trigger] q.rows[l]).url,
            decreases rows.len() - i,
        {
            assert(q.rows[i as int] == rows@[i as int]@);
            if rows[i].id < 1 || rows[i].id >= next_id {
                return false;
            }
            if i > 0 {
                assert(q.rows[i as int - 1] == rows@[i as int - 1]@);
                if rows[i - 1].id >= rows[i].id {
                    return false;
                }
            }
            let mut j: usize = 0;
            while j < i
                invariant
                    j <= i,
                    i < rows.len(),
                    q == (QueueView { rows: rows_view(rows@), next_id: next_id as int }),
                    forall|k: int|
                        0 <= k < j ==> (#[trigger] q.rows[k]).url != q.rows[i as int].url,
                decreases i - j,
            {
                assert(q.rows[j as int] == rows@[j as int]@);
                assert(q.rows[i as int] == rows@[i as int]@);
                if rows[j].url.same_as(&rows[i].url) {
                    return false;
                }
                j = j + 1;
            }
            proof {
                assert forall|k: int, l: int| 0 <= k < l < i + 1 implies (#[trigger] q.rows[k]).id < (
                #[trigger] q.rows[l]).id by {
                    if l == i && k < i - 1 {
                        assert(q.rows[k].id < q.rows[i as int - 1].id);
                    }
                }
            }
            i = i + 1;
        }
        true
    }

    /// The queue that was stored as `rows`, with `next_id` as the number of the
    /// next item, after a recovery: every row is ready. `None` where the rows
    /// and the number make no well-formed queue.
    pub fn restore(rows: Vec<QueueRow>, next_id: i64) -> (r: Option<Self>)
        ensures
            match r {
                Some(q) => q.wf() && q@ == recovered(
                    QueueView { rows: rows_view(rows@), next_id: next_id as int },
                ),
                None => !queue_wf(QueueView { rows: rows_view(rows@), next_id: next_id as int }),
            },
    {
        if !Self::is_valid(&rows, next_id) {
            return None;
        }
        let mut queue = IndexingQueue { rows, next_id };
        queue.reset_in_progress();
        Some(queue)
    }

    /// The rows of the queue, in the order of their numbers.
    pub fn rows(&self) -> (r: &Vec<QueueRow>)
        ensures
            rows_view(r@) == self@.rows,
    {
        &self.rows
    }

    /// The number that the next item gets.
    pub fn next_id(&self) -> (r: i64)
        ensures
            r == self@.next_id,
    {
        self.next_id
    }
}

} // verus!
