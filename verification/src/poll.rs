//! The polling cycle as a state machine. The machine decides what is to be
//! done next: fetch a source, post an entry, or sleep until the next cycle.
//! Its host does it and reports back what came of it.

use crate::date_time::DateTime;
use crate::dedup::{newer_than, select};
use crate::rss::{
    advanced, is_oldest_first_of, newest_date, newest_of, views, watermark_of, Error, Item,
    ItemView, Rss,
};
use crate::text::text_views;
use vstd::prelude::*;

verus! {

/// What the host reports to the machine.
#[derive(Debug)]
pub enum Event {
    /// The sleep is over, or the machine was just started.
    Wake,
    /// The fetch of the source asked for has ended, with its entries or with
    /// an error.
    Fetched(Result<Vec<Item>, Error>),
    /// The post of the entry asked for has been attempted; `true` where the
    /// sink took it.
    Posted(bool),
}

/// An `Event` with its entries by their views.
pub enum EventView {
    Wake,
    Fetched(Result<Seq<ItemView>, Error>),
    Posted(bool),
}

impl View for Event {
    type V = EventView;

    open spec fn view(&self) -> EventView {
        match *self {
            Event::Wake => EventView::Wake,
            Event::Fetched(Ok(entries)) => EventView::Fetched(Ok(views(entries@))),
            Event::Fetched(Err(error)) => EventView::Fetched(Err(error)),
            Event::Posted(taken) => EventView::Posted(taken),
        }
    }
}

/// What the machine asks of its host.
#[derive(Debug)]
pub enum Action {
    /// Fetch the feed of this source and report `Event::Fetched`.
    Fetch(String),
    /// Post this entry to the sink and report `Event::Posted`.
    Post(Item),
    /// Sleep for this many seconds and report `Event::Wake`.
    Sleep(u64),
}

/// An `Action` with its texts as sequences of characters.
pub enum ActionView {
    Fetch(Seq<char>),
    Post(ItemView),
    Sleep(u64),
}

impl View for Action {
    type V = ActionView;

    open spec fn view(&self) -> ActionView {
        match *self {
            Action::Fetch(source) => ActionView::Fetch(source@),
            Action::Post(entry) => ActionView::Post(entry@),
            Action::Sleep(seconds) => ActionView::Sleep(seconds),
        }
    }
}

/// Where in the cycle the machine stands.
pub enum PhaseView {
    /// Between two cycles.
    Idle,
    /// The fetch of source number `source` is under way.
    Fetching { source: nat },
    /// Entry number `next` of `batch`, selected from source number `source`,
    /// is being posted; `newest` is the newest date of what was fetched.
    Delivering { source: nat, batch: Seq<ItemView>, next: nat, newest: DateTime },
}

enum Phase {
    Idle,
    Fetching { source: usize },
    Delivering { source: usize, batch: Vec<Item>, next: usize, newest: DateTime },
}

impl View for Phase {
    type V = PhaseView;

    closed spec fn view(&self) -> PhaseView {
        match *self {
            Phase::Idle => PhaseView::Idle,
            Phase::Fetching { source } => PhaseView::Fetching { source: source as nat },
            Phase::Delivering { source, batch, next, newest } => PhaseView::Delivering {
                source: source as nat,
                batch: views(batch@),
                next: next as nat,
                newest,
            },
        }
    }
}

/// No entry of `batch` was published before one that precedes it.
pub open spec fn ascends(batch: Seq<ItemView>) -> bool {
    forall|i: int, j: int|
        0 <= i < j < batch.len() ==> !(#[trigger] batch[j]).date.before((#[trigger] batch[i]).date)
}

/// The state of the machine: the sources in the order they are polled, the
/// length of the sleep between two cycles, the watermark of each source, and
/// the phase.
pub struct SchedulerView {
    pub sources: Seq<Seq<char>>,
    pub refresh_seconds: u64,
    pub store: Map<Seq<char>, DateTime>,
    pub phase: PhaseView,
}

impl SchedulerView {
    /// The sleep between two cycles is not 0, and the phase names a source
    /// that exists, and an entry of a batch that runs oldest first.
    pub open spec fn wf(self) -> bool {
        &&& self.refresh_seconds > 0
        &&& match self.phase {
            PhaseView::Idle => true,
            PhaseView::Fetching { source } => source < self.sources.len(),
            PhaseView::Delivering { source, batch, next, newest } => {
                &&& source < self.sources.len()
                &&& next < batch.len()
                &&& ascends(batch)
            },
        }
    }

    /// What the machine is waiting for its host to do.
    pub open spec fn pending(self) -> ActionView {
        match self.phase {
            PhaseView::Idle => ActionView::Sleep(self.refresh_seconds),
            PhaseView::Fetching { source } => ActionView::Fetch(self.sources[source as int]),
            PhaseView::Delivering { source, batch, next, newest } => ActionView::Post(batch[next as int]),
        }
    }

    /// The same state with another store.
    pub open spec fn with_store(self, store: Map<Seq<char>, DateTime>) -> SchedulerView {
        SchedulerView { store, ..self }
    }

    /// The state in which source number `source` is fetched next; past the
    /// last source the cycle is over.
    pub open spec fn turn_to(self, source: nat) -> SchedulerView {
        SchedulerView {
            phase: if source < self.sources.len() {
                PhaseView::Fetching { source }
            } else {
                PhaseView::Idle
            },
            ..self
        }
    }

    /// The state once `batch` has been selected from what source number
    /// `source` gave: with nothing to post the watermark is advanced at once
    /// and the next source has its turn, else the first post is due.
    pub open spec fn deliver(self, source: nat, batch: Seq<ItemView>, newest: DateTime) -> SchedulerView {
        if batch.len() == 0 {
            self.with_store(advanced(self.store, self.sources[source as int], newest)).turn_to(
                source + 1,
            )
        } else {
            SchedulerView { phase: PhaseView::Delivering { source, batch, next: 0, newest }, ..self }
        }
    }

    /// `post` is the state after source number `source` was fetched with
    /// `entries`. Nothing fetched changes nothing. A source without a
    /// watermark gets the newest date as its watermark and nothing is
    /// posted. Otherwise the entries newer than the watermark are to be
    /// posted, oldest first.
    pub open spec fn fetched(self, source: nat, entries: Seq<ItemView>, post: SchedulerView) -> bool {
        let key = self.sources[source as int];
        match newest_of(entries) {
            None => post == self.turn_to(source + 1),
            Some(newest) => match watermark_of(self.store, key) {
                None => post == self.with_store(self.store.insert(key, newest)).turn_to(source + 1),
                Some(watermark) => exists|batch: Seq<ItemView>| #[trigger]
                    is_oldest_first_of(batch, newer_than(entries, watermark)) && post == self.deliver(
                        source,
                        batch,
                        newest,
                    ),
            },
        }
    }

    /// `post` is the state after an attempt to post entry number `next` of
    /// `batch`, whatever came of it: the next entry is due, or, after the
    /// last one, the watermark is advanced and the next source has its turn.
    pub open spec fn posted(
        self,
        source: nat,
        batch: Seq<ItemView>,
        next: nat,
        newest: DateTime,
        post: SchedulerView,
    ) -> bool {
        if next + 1 < batch.len() {
            post == (SchedulerView {
                phase: PhaseView::Delivering { source, batch, next: next + 1, newest },
                ..self
            })
        } else {
            post == self.with_store(advanced(self.store, self.sources[source as int], newest)).turn_to(
                source + 1,
            )
        }
    }

    /// One step of the machine: from this state, on `event`, to `post`, with
    /// `action` asked of the host. An event that does not answer what the
    /// machine is waiting for changes nothing, and the machine asks again.
    pub open spec fn steps_to(self, event: EventView, post: SchedulerView, action: ActionView) -> bool {
        &&& action == post.pending()
        &&& match (self.phase, event) {
            (PhaseView::Idle, EventView::Wake) => post == self.turn_to(0),
            (PhaseView::Fetching { source }, EventView::Fetched(Err(_))) => post == self.turn_to(
                source + 1,
            ),
            (PhaseView::Fetching { source }, EventView::Fetched(Ok(entries))) => self.fetched(
                source,
                entries,
                post,
            ),
            (PhaseView::Delivering { source, batch, next, newest }, EventView::Posted(_)) => self.posted(
                source,
                batch,
                next,
                newest,
                post,
            ),
            _ => post == self,
        }
    }
}

/// The polling machine.
pub struct Scheduler {
    sources: Vec<String>,
    refresh_seconds: u64,
    store: Rss,
    phase: Phase,
}

impl View for Scheduler {
    type V = SchedulerView;

    closed spec fn view(&self) -> SchedulerView {
        SchedulerView {
            sources: text_views(self.sources@),
            refresh_seconds: self.refresh_seconds,
            store: self.store@,
            phase: self.phase@,
        }
    }
}

impl Scheduler {
    #[verifier::type_invariant]
    spec fn inv(self) -> bool {
        self@.wf()
    }

    /// A machine between two cycles that has fetched no source yet. The
    /// sleep between two cycles is to be longer than nothing.
    pub fn new(sources: Vec<String>, refresh_seconds: u64) -> (r: Scheduler)
        requires
            refresh_seconds > 0,
        ensures
            r@ == (SchedulerView {
                sources: text_views(sources@),
                refresh_seconds,
                store: Map::<Seq<char>, DateTime>::empty(),
                phase: PhaseView::Idle,
            }),
            r@.wf(),
    {
        Scheduler { sources, refresh_seconds, store: Rss::new(), phase: Phase::Idle }
    }

    /// The watermark of a source; `None` for one that was never fetched
    /// with an entry.
    pub fn watermark(&self, source: &str) -> (r: Option<DateTime>)
        ensures
            r == watermark_of(self@.store, source@),
    {
        self.store.watermark(source)
    }

    /// What the machine is waiting for its host to do.
    pub fn pending(&self) -> (r: Action)
        ensures
            r@ == self@.pending(),
            self@.wf(),
    {
        proof {
            use_type_invariant(self);
        }
        match &self.phase {
            Phase::Idle => Action::Sleep(self.refresh_seconds),
            Phase::Fetching { source } => Action::Fetch(self.sources[*source].clone()),
            Phase::Delivering { source, batch, next, newest } => Action::Post(batch[*next].clone()),
        }
    }

    fn turn_to(sources: Vec<String>, refresh_seconds: u64, store: Rss, source: usize) -> (r: Scheduler)
        requires
            refresh_seconds > 0,
        ensures
            r@ == (SchedulerView {
                sources: text_views(sources@),
                refresh_seconds,
                store: store@,
                phase: PhaseView::Idle,
            }).turn_to(source as nat),
    {
        if source < sources.len() {
            Scheduler { sources, refresh_seconds, store, phase: Phase::Fetching { source } }
        } else {
            Scheduler { sources, refresh_seconds, store, phase: Phase::Idle }
        }
    }

    /// Takes what the host reports and says what it is to do next. A sleep
    /// that it asks for is never one of 0 seconds.
    pub fn step(self, event: Event) -> (r: (Scheduler, Action))
        ensures
            self@.wf(),
            self@.steps_to(event@, r.0@, r.1@),
            r.0@.wf(),
            r.1@ is Sleep ==> r.1@->Sleep_0 > 0,
    {
        proof {
            use_type_invariant(&self);
        }
        let ghost pre = self@;
        let Scheduler { sources, refresh_seconds, store, phase } = self;
        let mut store = store;
        assert(pre.sources.len() == sources.len() <= usize::MAX);
        let next: Scheduler = match phase {
            Phase::Idle => match event {
                Event::Wake => Scheduler::turn_to(sources, refresh_seconds, store, 0),
                _ => Scheduler { sources, refresh_seconds, store, phase: Phase::Idle },
            },
            Phase::Fetching { source } => match event {
                Event::Fetched(Err(_)) => Scheduler::turn_to(sources, refresh_seconds, store, source + 1),
                Event::Fetched(Ok(entries)) => match newest_date(&entries) {
                    None => Scheduler::turn_to(sources, refresh_seconds, store, source + 1),
                    Some(newest) => {
                        let (previous, watermark) = store.get_or_init(sources[source].as_str(), newest);
                        match previous {
                            None => Scheduler::turn_to(sources, refresh_seconds, store, source + 1),
                            Some(_) => {
                                let batch = select(&entries, watermark);
                                assert(ascends(views(batch@)));
                                assert(pre.fetched(source as nat, views(entries@), pre.deliver(source as nat, views(batch@), newest)));
                                if batch.len() == 0 {
                                    store.advance(sources[source].as_str(), newest);
                                    Scheduler::turn_to(sources, refresh_seconds, store, source + 1)
                                } else {
                                    Scheduler {
                                        sources,
                                        refresh_seconds,
                                        store,
                                        phase: Phase::Delivering { source, batch, next: 0, newest },
                                    }
                                }
                            },
                        }
                    },
                },
                _ => Scheduler { sources, refresh_seconds, store, phase: Phase::Fetching { source } },
            },
            Phase::Delivering { source, batch, next, newest } => match event {
                Event::Posted(_) => if next < batch.len() - 1 {
                    Scheduler {
                        sources,
                        refresh_seconds,
                        store,
                        phase: Phase::Delivering { source, batch, next: next + 1, newest },
                    }
                } else {
                    store.advance(sources[source].as_str(), newest);
                    Scheduler::turn_to(sources, refresh_seconds, store, source + 1)
                },
                _ => Scheduler {
                    sources,
                    refresh_seconds,
                    store,
                    phase: Phase::Delivering { source, batch, next, newest },
                },
            },
        };
        let action = next.pending();
        (next, action)
    }
}

} // verus!
