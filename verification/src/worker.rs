//! The steps of an indexing worker. A worker connects to the search backend,
//! then claims an item, fetches its page, works on the page, publishes the
//! text and closes the item, again and again. What needs the network or the
//! clock is done by the caller: it carries out the action that a step names
//! and reports what came of it as the event of the next step.

use crate::html::parsed_walk;
use crate::indexer::{all_held, new_links, Indexer};
use crate::queue::{enqueued_all, removed, QueueItem};
use crate::text_extracting::body_text;
use crate::url::{url_text, UrlView};
use crate::url_processing::UrlProcessor;
use vstd::prelude::*;

verus! {

/// The seconds that a worker waits before it tries again to connect to the
/// search backend or to publish a page.
pub const RETRY_DELAY_SECS: u64 = 5;

/// The seconds after which the fetch of a page is given up.
pub const FETCH_TIMEOUT_SECS: u64 = 60;

/// The number of redirects that a fetch follows.
pub const MAX_REDIRECTS: usize = 20;

/// Where a worker stands.
#[derive(Debug)]
pub enum WorkerState {
    /// It connects to the search backend.
    Connecting,
    /// It waits after a failed attempt to connect.
    ConnectBackoff,
    /// It waits for an item of the queue.
    Claiming,
    /// It fetches the page of an item.
    Fetching(QueueItem),
    /// It publishes the text of the page of an item.
    Publishing(QueueItem, String),
    /// It waits after a failed attempt to publish.
    PublishBackoff(QueueItem, String),
    /// It was cancelled.
    Stopped,
    /// It gave up because the queue could take no more items.
    Failed,
}

/// What came of the action of a worker.
#[derive(Debug)]
pub enum WorkerEvent {
    /// The connection to the search backend stands.
    Connected,
    /// The search backend could not be reached.
    ConnectFailed,
    /// The wait is over.
    Slept,
    /// The queue handed out an item.
    Claimed(QueueItem),
    /// The page was fetched: its HTML text.
    Fetched(String),
    /// The page could not be fetched.
    FetchFailed,
    /// The search backend took the text.
    Published,
    /// The search backend did not take the text.
    PublishFailed,
    /// The worker is to stop.
    Cancelled,
}

/// What a worker is to do next.
#[derive(Debug)]
pub enum WorkerAction {
    /// Connect to the search backend.
    Connect,
    /// Wait for so many seconds.
    Sleep(u64),
    /// Claim an item of the queue, waiting until one is ready.
    Claim,
    /// Fetch the page of the URL.
    Fetch(String),
    /// Publish a page: its URL and its text.
    Publish(String, String),
    /// Stop.
    Stop,
    /// Stop, and report that the queue is full.
    Abort,
}

/// What an item stands for in the contracts.
pub struct ItemView {
    pub id: int,
    pub url: UrlView,
}

/// What a state stands for in the contracts.
pub enum StateView {
    Connecting,
    ConnectBackoff,
    Claiming,
    Fetching(ItemView),
    Publishing(ItemView, Seq<char>),
    PublishBackoff(ItemView, Seq<char>),
    Stopped,
    Failed,
}

/// What an event stands for in the contracts.
pub enum EventView {
    Connected,
    ConnectFailed,
    Slept,
    Claimed(ItemView),
    Fetched(Seq<char>),
    FetchFailed,
    Published,
    PublishFailed,
    Cancelled,
}

/// What an action stands for in the contracts.
pub enum ActionView {
    Connect,
    Sleep(int),
    Claim,
    Fetch(Seq<char>),
    Publish(Seq<char>, Seq<char>),
    Stop,
    Abort,
}

/// The view of an item.
pub open spec fn item_view(item: QueueItem) -> ItemView {
    ItemView { id: item.id as int, url: item.url@ }
}

impl View for WorkerState {
    type V = StateView;

    open spec fn view(&self) -> StateView {
        match self {
            WorkerState::Connecting => StateView::Connecting,
            WorkerState::ConnectBackoff => StateView::ConnectBackoff,
            WorkerState::Claiming => StateView::Claiming,
            WorkerState::Fetching(item) => StateView::Fetching(item_view(*item)),
            WorkerState::Publishing(item, text) => StateView::Publishing(item_view(*item), text@),
            WorkerState::PublishBackoff(item, text) => StateView::PublishBackoff(
                item_view(*item),
                text@,
            ),
            WorkerState::Stopped => StateView::Stopped,
            WorkerState::Failed => StateView::Failed,
        }
    }
}

impl View for WorkerEvent {
    type V = EventView;

    open spec fn view(&self) -> EventView {
        match self {
            WorkerEvent::Connected => EventView::Connected,
            WorkerEvent::ConnectFailed => EventView::ConnectFailed,
            WorkerEvent::Slept => EventView::Slept,
            WorkerEvent::Claimed(item) => EventView::Claimed(item_view(*item)),
            WorkerEvent::Fetched(html) => EventView::Fetched(html@),
            WorkerEvent::FetchFailed => EventView::FetchFailed,
            WorkerEvent::Published => EventView::Published,
            WorkerEvent::PublishFailed => EventView::PublishFailed,
            WorkerEvent::Cancelled => EventView::Cancelled,
        }
    }
}

impl View for WorkerAction {
    type V = ActionView;

    open spec fn view(&self) -> ActionView {
        match self {
            WorkerAction::Connect => ActionView::Connect,
            WorkerAction::Sleep(seconds) => ActionView::Sleep(*seconds as int),
            WorkerAction::Claim => ActionView::Claim,
            WorkerAction::Fetch(url) => ActionView::Fetch(url@),
            WorkerAction::Publish(url, text) => ActionView::Publish(url@, text@),
            WorkerAction::Stop => ActionView::Stop,
            WorkerAction::Abort => ActionView::Abort,
        }
    }
}

/// The action that a worker in `state` has asked for and waits on.
pub open spec fn awaited(state: StateView) -> ActionView {
    match state {
        StateView::Connecting => ActionView::Connect,
        StateView::ConnectBackoff => ActionView::Sleep(RETRY_DELAY_SECS as int),
        StateView::Claiming => ActionView::Claim,
        StateView::Fetching(item) => ActionView::Fetch(url_text(item.url)),
        StateView::Publishing(item, text) => ActionView::Publish(url_text(item.url), text),
        StateView::PublishBackoff(_, _) => ActionView::Sleep(RETRY_DELAY_SECS as int),
        StateView::Stopped => ActionView::Stop,
        StateView::Failed => ActionView::Abort,
    }
}

/// Whether `event` in `state` makes the worker work on a page or close an
/// item, which changes the queue or the record of indexed links.
pub open spec fn is_work(state: StateView, event: EventView) -> bool {
    ||| state is Fetching && event is Fetched
    ||| state is Publishing && event is Published
}

/// The state that a worker in `state` goes to on `event`, where the event
/// brings no work. A worker that was cancelled, has stopped or has failed
/// stays where it is; a failed fetch leaves the item claimed and takes the
/// worker to the next item; a failed publishing is tried again with the same
/// page after a wait; an event that the state does not wait for changes
/// nothing.
pub open spec fn moved(state: StateView, event: EventView) -> StateView {
    if state is Stopped || state is Failed {
        state
    } else if event is Cancelled {
        StateView::Stopped
    } else {
        match (state, event) {
            (StateView::Connecting, EventView::Connected) => StateView::Claiming,
            (StateView::Connecting, EventView::ConnectFailed) => StateView::ConnectBackoff,
            (StateView::ConnectBackoff, EventView::Slept) => StateView::Connecting,
            (StateView::Claiming, EventView::Claimed(item)) => StateView::Fetching(item),
            (StateView::Fetching(_), EventView::FetchFailed) => StateView::Claiming,
            (StateView::Publishing(item, text), EventView::PublishFailed) => StateView::PublishBackoff(
                item,
                text,
            ),
            (StateView::PublishBackoff(item, text), EventView::Slept) => StateView::Publishing(
                item,
                text,
            ),
            _ => state,
        }
    }
}

/// The state in which a worker starts.
pub fn start() -> (r: (WorkerState, WorkerAction))
    ensures
        r.0@ == StateView::Connecting,
        r.1@ == awaited(r.0@),
{
    (WorkerState::Connecting, WorkerAction::Connect)
}

/// The action that a worker in `state` waits on.
pub fn action_of(state: &WorkerState) -> (r: WorkerAction)
    ensures
        r@ == awaited(state@),
{
    match state {
        WorkerState::Connecting => WorkerAction::Connect,
        WorkerState::ConnectBackoff => WorkerAction::Sleep(RETRY_DELAY_SECS),
        WorkerState::Claiming => WorkerAction::Claim,
        WorkerState::Fetching(item) => WorkerAction::Fetch(item.url.to_text()),
        WorkerState::Publishing(item, text) => WorkerAction::Publish(
            item.url.to_text(),
            text.clone(),
        ),
        WorkerState::PublishBackoff(_, _) => WorkerAction::Sleep(RETRY_DELAY_SECS),
        WorkerState::Stopped => WorkerAction::Stop,
        WorkerState::Failed => WorkerAction::Abort,
    }
}

/// The state after an event that brings no work.
pub fn advance(state: WorkerState, event: WorkerEvent) -> (r: WorkerState)
    requires
        !is_work(state@, event@),
    ensures
        r@ == moved(state@, event@),
{
    match state {
        WorkerState::Stopped => WorkerState::Stopped,
        WorkerState::Failed => WorkerState::Failed,
        other => match event {
            WorkerEvent::Cancelled => WorkerState::Stopped,
            event => match (other, event) {
                (WorkerState::Connecting, WorkerEvent::Connected) => WorkerState::Claiming,
                (WorkerState::Connecting, WorkerEvent::ConnectFailed) => WorkerState::ConnectBackoff,
                (WorkerState::ConnectBackoff, WorkerEvent::Slept) => WorkerState::Connecting,
                (WorkerState::Claiming, WorkerEvent::Claimed(item)) => WorkerState::Fetching(item),
                (WorkerState::Fetching(_), WorkerEvent::FetchFailed) => WorkerState::Claiming,
                (
                    WorkerState::Publishing(item, text),
                    WorkerEvent::PublishFailed,
                ) => WorkerState::PublishBackoff(item, text),
                (WorkerState::PublishBackoff(item, text), WorkerEvent::Slept) => WorkerState::Publishing(
                    item,
                    text,
                ),
                (state, _) => state,
            },
        },
    }
}

impl<U> Indexer<U> where U: UrlProcessor {
    /// The states in which `worker_count` workers start, one for each worker.
    pub fn start_processing(&mut self, worker_count: u32) -> (r: Vec<WorkerState>)
        ensures
            *final(self) == *old(self),
            r@.len() == worker_count,
            forall|i: int| 0 <= i < r@.len() ==> (#[trigger] r@[i])@ == StateView::Connecting,
    {
        let mut workers: Vec<WorkerState> = Vec::new();
        let mut i: u32 = 0;
        while i < worker_count
            invariant
                i <= worker_count,
                workers@.len() == i,
                forall|k: int|
                    0 <= k < workers@.len() ==> (#[trigger] workers@[k])@ == StateView::Connecting,
            decreases worker_count - i,
        {
            workers.push(WorkerState::Connecting);
            i = i + 1;
        }
        workers
    }

    /// One step of a worker: from its state and the event that its last
    /// action brought, to its next state and its next action. `now` is the
    /// time in seconds since the epoch, under which a closed item is recorded.
    ///
    /// A fetched page is worked on: its new links are offered to the queue;
    /// if the page has a visible text the worker goes on to publish it, and
    /// if not the item is closed at once. A published page closes its item.
    /// Where the queue can take no more links the worker gives up and leaves
    /// its item claimed.
    pub fn step(&mut self, state: WorkerState, event: WorkerEvent, now: i64) -> (r: (
        WorkerState,
        WorkerAction,
    ))
        requires
            old(self).wf(),
        ensures
            final(self).wf(),
            final(self).processor() == old(self).processor(),
            r.1@ == awaited(r.0@),
            match (state@, event@) {
                (StateView::Fetching(item), EventView::Fetched(html)) => {
                    let walk = parsed_walk(html);
                    let links = new_links(
                        old(self).processor(),
                        item.url,
                        walk,
                        old(self).storage()@,
                    );
                    let offered = enqueued_all(old(self).queue()@, links);
                    if !all_held(offered, links) {
                        &&& r.0@ == StateView::Failed
                        &&& final(self).queue()@ == offered
                        &&& final(self).storage()@ == old(self).storage()@
                    } else {
                        match body_text(walk) {
                            Some(text) => {
                                &&& r.0@ == StateView::Publishing(item, text)
                                &&& final(self).queue()@ == offered
                                &&& final(self).storage()@ == old(self).storage()@
                            },
                            None => {
                                &&& r.0@ == StateView::Claiming
                                &&& final(self).queue()@ == removed(offered, item.id)
                                &&& final(self).storage()@ == old(self).storage()@.insert(
                                    item.url,
                                    now,
                                )
                            },
                        }
                    }
                },
                (StateView::Publishing(item, _), EventView::Published) => {
                    &&& r.0@ == StateView::Claiming
                    &&& final(self).queue()@ == removed(old(self).queue()@, item.id)
                    &&& final(self).storage()@ == old(self).storage()@.insert(item.url, now)
                },
                _ => {
                    &&& r.0@ == moved(state@, event@)
                    &&& final(self).queue()@ == old(self).queue()@
                    &&& final(self).storage()@ == old(self).storage()@
                },
            },
    {
        match (state, event) {
            (WorkerState::Fetching(item), WorkerEvent::Fetched(html)) => {
                match self.process_page(&item.url, html.as_str()) {
                    Ok(Some(text)) => {
                        let next = WorkerState::Publishing(item, text);
                        let action = action_of(&next);
                        (next, action)
                    },
                    Ok(None) => {
                        self.complete(item.id, &item.url, now);
                        (WorkerState::Claiming, WorkerAction::Claim)
                    },
                    Err(_) => (WorkerState::Failed, WorkerAction::Abort),
                }
            },
            (WorkerState::Publishing(item, _), WorkerEvent::Published) => {
                self.complete(item.id, &item.url, now);
                (WorkerState::Claiming, WorkerAction::Claim)
            },
            (state, event) => {
                let next = advance(state, event);
                let action = action_of(&next);
                (next, action)
            },
        }
    }
}

} // verus!
