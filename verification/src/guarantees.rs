//! What holds of every step and of every run of the polling machine.

use crate::date_time::DateTime;
use crate::dedup::{
    lemma_distinct_dates_strictly_ascend, lemma_newer_than_keeps_later, lemma_oldest_first_ascends,
    newer_than,
};
use crate::poll::{ActionView, EventView, PhaseView, SchedulerView};
use crate::rss::{
    advanced, dates_of, initialized, is_oldest_first_of, lemma_newest_is_latest,
    lemma_oldest_first_of_is_unique, newest_of, watermark_of, Error, ItemView,
};
use vstd::prelude::*;

verus! {

/// Every source that has a watermark in `before` has one in `after` that is
/// not older.
pub open spec fn never_regresses(before: Map<Seq<char>, DateTime>, after: Map<Seq<char>, DateTime>) -> bool {
    forall|source: Seq<char>| #[trigger]
        before.contains_key(source) ==> after.contains_key(source) && !after[source].before(
            before[source],
        )
}

/// Some event leads from `pre` to `post` in one step.
pub open spec fn follows(pre: SchedulerView, post: SchedulerView) -> bool {
    exists|event: EventView, action: ActionView| #[trigger] pre.steps_to(event, post, action)
}

/// Each state of the sequence but the first follows from the one before it.
pub open spec fn is_run(states: Seq<SchedulerView>) -> bool {
    forall|i: int, j: int|
        0 <= i && j == i + 1 && j < states.len() ==> follows(#[trigger] states[i], #[trigger] states[j])
}

/// The source that the machine is busy with, if any.
pub open spec fn source_at_hand(state: SchedulerView) -> Option<Seq<char>> {
    match state.phase {
        PhaseView::Idle => None,
        PhaseView::Fetching { source } => Some(state.sources[source as int]),
        PhaseView::Delivering { source, batch, next, newest } => Some(state.sources[source as int]),
    }
}

/// Setting a watermark where there is none, and advancing one, never moves
/// a watermark back.
pub proof fn lemma_store_never_regresses(
    store: Map<Seq<char>, DateTime>,
    source: Seq<char>,
    date: DateTime,
)
    ensures
        never_regresses(store, initialized(store, source, date)),
        never_regresses(store, advanced(store, source, date)),
        advanced(store, source, date).contains_key(source),
        !advanced(store, source, date)[source].before(date),
{
}

/// A step leads from a well-formed state to a well-formed state.
pub proof fn lemma_step_keeps_wf(
    pre: SchedulerView,
    event: EventView,
    post: SchedulerView,
    action: ActionView,
)
    requires
        pre.wf(),
        pre.steps_to(event, post, action),
    ensures
        post.wf(),
{
    match (pre.phase, event) {
        (PhaseView::Fetching { source }, EventView::Fetched(Ok(entries))) => {
            let key = pre.sources[source as int];
            if newest_of(entries) is Some && watermark_of(pre.store, key) is Some {
                let watermark = pre.store[key];
                let batch = choose|batch: Seq<ItemView>| #[trigger]
                    is_oldest_first_of(batch, newer_than(entries, watermark)) && post == pre.deliver(
                        source,
                        batch,
                        newest_of(entries).unwrap(),
                    );
                lemma_oldest_first_ascends(batch, newer_than(entries, watermark));
            }
        },
        _ => {},
    }
}

/// Whatever sleep the machine asks for, from whatever state and on whatever
/// event, it is longer than nothing.
pub proof fn lemma_sleep_is_never_zero(
    pre: SchedulerView,
    event: EventView,
    post: SchedulerView,
    action: ActionView,
)
    requires
        pre.wf(),
        pre.steps_to(event, post, action),
        action is Sleep,
    ensures
        action->Sleep_0 > 0,
{
    lemma_step_keeps_wf(pre, event, post, action);
}

/// No step moves a watermark back or drops one, and the sources and the
/// length of the sleep stay as they are.
pub proof fn lemma_step_never_regresses(
    pre: SchedulerView,
    event: EventView,
    post: SchedulerView,
    action: ActionView,
)
    requires
        pre.steps_to(event, post, action),
    ensures
        never_regresses(pre.store, post.store),
        post.sources == pre.sources,
        post.refresh_seconds == pre.refresh_seconds,
{
}

/// Over any run of the machine, however long, the watermark of a source
/// never moves back.
pub proof fn lemma_run_never_regresses(states: Seq<SchedulerView>, i: int, j: int)
    requires
        is_run(states),
        0 <= i <= j < states.len(),
    ensures
        never_regresses(states[i].store, states[j].store),
    decreases j - i,
{
    if i < j {
        lemma_run_never_regresses(states, i, j - 1);
        assert(follows(states[j - 1], states[j]));
        let (event, action) = choose|event: EventView, action: ActionView| #[trigger]
            states[j - 1].steps_to(event, states[j], action);
        lemma_step_never_regresses(states[j - 1], event, states[j], action);
    }
}

/// A step changes no watermark but that of the source at hand.
pub proof fn lemma_step_touches_one_source(
    pre: SchedulerView,
    event: EventView,
    post: SchedulerView,
    action: ActionView,
    other: Seq<char>,
)
    requires
        pre.steps_to(event, post, action),
        source_at_hand(pre) != Some(other),
    ensures
        watermark_of(post.store, other) == watermark_of(pre.store, other),
{
}

/// The first fetch of a source posts nothing, however many entries it
/// brings: the newest of their dates becomes the watermark, and the next
/// source has its turn.
pub proof fn lemma_first_fetch_posts_nothing(
    pre: SchedulerView,
    source: nat,
    entries: Seq<ItemView>,
    post: SchedulerView,
    action: ActionView,
)
    requires
        pre.wf(),
        pre.phase == (PhaseView::Fetching { source }),
        !pre.store.contains_key(pre.sources[source as int]),
        entries.len() > 0,
        pre.steps_to(EventView::Fetched(Ok(entries)), post, action),
    ensures
        !(action is Post),
        newest_of(entries) is Some,
        post == pre.with_store(
            pre.store.insert(pre.sources[source as int], newest_of(entries).unwrap()),
        ).turn_to(source + 1),
        dates_of(entries).contains(newest_of(entries).unwrap()),
        forall|i: int|
            0 <= i < entries.len() ==> !newest_of(entries).unwrap().before((#[trigger] entries[i]).date),
{
    lemma_newest_is_latest(entries);
}

/// A fetch that fails changes no watermark and posts nothing: the next
/// source has its turn as if the failed one had not been asked.
pub proof fn lemma_failed_fetch_changes_nothing(
    pre: SchedulerView,
    source: nat,
    error: Error,
    post: SchedulerView,
    action: ActionView,
)
    requires
        pre.phase == (PhaseView::Fetching { source }),
        pre.steps_to(EventView::Fetched(Err(error)), post, action),
    ensures
        !(action is Post),
        post == pre.turn_to(source + 1),
        post.store == pre.store,
{
}

/// What a fetch with entries leaves to be posted: the entries published
/// strictly after the watermark, oldest first, starting with the first, and
/// none where the source had no watermark.
pub proof fn lemma_batch_is_selection(
    pre: SchedulerView,
    source: nat,
    entries: Seq<ItemView>,
    post: SchedulerView,
    action: ActionView,
)
    requires
        pre.wf(),
        pre.phase == (PhaseView::Fetching { source }),
        pre.steps_to(EventView::Fetched(Ok(entries)), post, action),
        post.phase is Delivering,
    ensures
        pre.store.contains_key(pre.sources[source as int]),
        newest_of(entries) is Some,
        post.store == pre.store,
        is_oldest_first_of(
            post.phase->Delivering_batch,
            newer_than(entries, pre.store[pre.sources[source as int]]),
        ),
        post.phase == (PhaseView::Delivering {
            source,
            batch: post.phase->Delivering_batch,
            next: 0,
            newest: newest_of(entries).unwrap(),
        }),
        action == ActionView::Post(post.phase->Delivering_batch[0]),
        forall|k: int|
            0 <= k < post.phase->Delivering_batch.len() ==> pre.store[pre.sources[source as int]].before(
                (#[trigger] post.phase->Delivering_batch[k]).date,
            ),
{
    let key = pre.sources[source as int];
    let watermark = pre.store[key];
    let fresh = newer_than(entries, watermark);
    lemma_newer_than_keeps_later(entries, watermark);
    let batch = post.phase->Delivering_batch;
    lemma_oldest_first_ascends(batch, fresh);
    assert forall|k: int| 0 <= k < batch.len() implies watermark.before((#[trigger] batch[k]).date) by {
        assert(fresh.contains(batch[k]));
    }
}

/// The entries of a batch are posted one after the other in the batch's
/// order, whatever comes of each post, and none is older than the one
/// posted before it.
pub proof fn lemma_posts_in_order(
    pre: SchedulerView,
    taken: bool,
    post: SchedulerView,
    action: ActionView,
)
    requires
        pre.wf(),
        pre.phase is Delivering,
        pre.steps_to(EventView::Posted(taken), post, action),
        pre.phase->Delivering_next + 1 < pre.phase->Delivering_batch.len(),
    ensures
        post == (SchedulerView {
            phase: PhaseView::Delivering {
                source: pre.phase->Delivering_source,
                batch: pre.phase->Delivering_batch,
                next: pre.phase->Delivering_next + 1,
                newest: pre.phase->Delivering_newest,
            },
            ..pre
        }),
        action == ActionView::Post(pre.phase->Delivering_batch[pre.phase->Delivering_next as int + 1]),
        pre.pending() == ActionView::Post(pre.phase->Delivering_batch[pre.phase->Delivering_next as int]),
        !pre.phase->Delivering_batch[pre.phase->Delivering_next as int + 1].date.before(
            pre.phase->Delivering_batch[pre.phase->Delivering_next as int].date,
        ),
{
}

/// After the last post of a batch, whatever came of the posts, the
/// watermark of the source is not older than the newest date fetched.
pub proof fn lemma_last_post_advances(
    pre: SchedulerView,
    taken: bool,
    post: SchedulerView,
    action: ActionView,
)
    requires
        pre.wf(),
        pre.phase is Delivering,
        pre.steps_to(EventView::Posted(taken), post, action),
        pre.phase->Delivering_next + 1 == pre.phase->Delivering_batch.len(),
    ensures
        !(action is Post),
        post.store == advanced(
            pre.store,
            pre.sources[pre.phase->Delivering_source as int],
            pre.phase->Delivering_newest,
        ),
        post.store.contains_key(pre.sources[pre.phase->Delivering_source as int]),
        !post.store[pre.sources[pre.phase->Delivering_source as int]].before(
            pre.phase->Delivering_newest,
        ),
{
}

/// A fetch that is not followed by posts leaves the source with a watermark
/// that is not older than the newest date fetched.
pub proof fn lemma_fetch_without_posts_covers_newest(
    pre: SchedulerView,
    source: nat,
    entries: Seq<ItemView>,
    post: SchedulerView,
    action: ActionView,
)
    requires
        pre.wf(),
        pre.phase == (PhaseView::Fetching { source }),
        entries.len() > 0,
        pre.steps_to(EventView::Fetched(Ok(entries)), post, action),
        !(post.phase is Delivering),
    ensures
        newest_of(entries) is Some,
        post.store.contains_key(pre.sources[source as int]),
        !post.store[pre.sources[source as int]].before(newest_of(entries).unwrap()),
{
    lemma_newest_is_latest(entries);
}

/// Fetching a source again when the feed holds nothing newer than its
/// watermark posts nothing and changes no watermark.
pub proof fn lemma_repoll_posts_nothing(
    pre: SchedulerView,
    source: nat,
    entries: Seq<ItemView>,
    post: SchedulerView,
    action: ActionView,
)
    requires
        pre.wf(),
        pre.phase == (PhaseView::Fetching { source }),
        pre.store.contains_key(pre.sources[source as int]),
        newest_of(entries) is Some,
        !pre.store[pre.sources[source as int]].before(newest_of(entries).unwrap()),
        pre.steps_to(EventView::Fetched(Ok(entries)), post, action),
    ensures
        !(action is Post),
        post == pre.turn_to(source + 1),
        post.store == pre.store,
{
    let key = pre.sources[source as int];
    let watermark = pre.store[key];
    let newest = newest_of(entries).unwrap();
    lemma_newest_is_latest(entries);
    lemma_newer_than_keeps_later(entries, watermark);
    let fresh = newer_than(entries, watermark);
    assert(fresh.len() == 0) by {
        if fresh.len() > 0 {
            assert(entries.contains(fresh[0]));
            let i = choose|i: int| 0 <= i < entries.len() && entries[i] == fresh[0];
            assert(!newest.before(entries[i].date));
        }
    }
    let batch = choose|batch: Seq<ItemView>| #[trigger]
        is_oldest_first_of(batch, fresh) && post == pre.deliver(source, batch, newest);
    lemma_oldest_first_ascends(batch, fresh);
    assert(post.store == pre.store);
    assert(post.phase == pre.turn_to(source + 1).phase);
}

/// The watermark of source number `source` is not older than `newest`, or
/// a batch of that source, fetched with `newest` as its newest date, is
/// still being posted.
pub open spec fn covers(state: SchedulerView, source: nat, newest: DateTime) -> bool {
    ||| {
        &&& state.store.contains_key(state.sources[source as int])
        &&& !state.store[state.sources[source as int]].before(newest)
    }
    ||| {
        &&& state.phase is Delivering
        &&& state.phase->Delivering_source == source
        &&& state.phase->Delivering_newest == newest
    }
}

/// Once a fetch is covered it stays covered, whatever happens next.
pub proof fn lemma_step_keeps_cover(
    pre: SchedulerView,
    event: EventView,
    post: SchedulerView,
    action: ActionView,
    source: nat,
    newest: DateTime,
)
    requires
        pre.wf(),
        covers(pre, source, newest),
        pre.steps_to(event, post, action),
    ensures
        post.wf(),
        post.sources == pre.sources,
        covers(post, source, newest),
{
    lemma_step_keeps_wf(pre, event, post, action);
    lemma_step_never_regresses(pre, event, post, action);
    let key = pre.sources[source as int];
    if pre.store.contains_key(key) && !pre.store[key].before(newest) {
        assert(post.store.contains_key(key) && !post.store[key].before(pre.store[key]));
    }
}

/// Along a run, a fetch that is covered stays covered.
pub proof fn lemma_run_keeps_cover(
    states: Seq<SchedulerView>,
    i: int,
    j: int,
    source: nat,
    newest: DateTime,
)
    requires
        is_run(states),
        0 <= i <= j < states.len(),
        states[i].wf(),
        covers(states[i], source, newest),
    ensures
        states[j].wf(),
        states[j].sources == states[i].sources,
        covers(states[j], source, newest),
    decreases j - i,
{
    if i < j {
        lemma_run_keeps_cover(states, i, j - 1, source, newest);
        assert(follows(states[j - 1], states[j]));
        let (event, action) = choose|event: EventView, action: ActionView| #[trigger]
            states[j - 1].steps_to(event, states[j], action);
        lemma_step_keeps_cover(states[j - 1], event, states[j], action, source, newest);
    }
}

/// Polling a source twice with the same entries posts nothing the second
/// time and leaves every watermark as it is: if state `i` of a run takes a
/// fetch of source number `source` with `entries`, and a later state `j`
/// takes a fetch of the same source with the same entries, whatever
/// happened in between, then the step from state `j` asks for no post.
pub proof fn lemma_second_poll_posts_nothing(
    states: Seq<SchedulerView>,
    i: int,
    j: int,
    source: nat,
    entries: Seq<ItemView>,
    first_action: ActionView,
    post: SchedulerView,
    action: ActionView,
)
    requires
        is_run(states),
        0 <= i < j < states.len(),
        states[i].wf(),
        entries.len() > 0,
        states[i].phase == (PhaseView::Fetching { source }),
        states[i].steps_to(EventView::Fetched(Ok(entries)), states[i + 1], first_action),
        states[j].phase == (PhaseView::Fetching { source }),
        states[j].steps_to(EventView::Fetched(Ok(entries)), post, action),
    ensures
        !(action is Post),
        post.store == states[j].store,
{
    lemma_newest_is_latest(entries);
    let newest = newest_of(entries).unwrap();
    let after = states[i + 1];
    lemma_step_keeps_wf(states[i], EventView::Fetched(Ok(entries)), after, first_action);
    lemma_step_never_regresses(states[i], EventView::Fetched(Ok(entries)), after, first_action);
    if after.phase is Delivering {
        lemma_batch_is_selection(states[i], source, entries, after, first_action);
    } else {
        lemma_fetch_without_posts_covers_newest(states[i], source, entries, after, first_action);
    }
    assert(covers(after, source, newest));
    lemma_run_keeps_cover(states, i + 1, j, source, newest);
    lemma_repoll_posts_nothing(states[j], source, entries, post, action);
}

/// The machine has no choice: a state and an event leave one state and one
/// action only.
pub proof fn lemma_step_is_deterministic(
    pre: SchedulerView,
    event: EventView,
    post: SchedulerView,
    action: ActionView,
    other_post: SchedulerView,
    other_action: ActionView,
)
    requires
        pre.steps_to(event, post, action),
        pre.steps_to(event, other_post, other_action),
    ensures
        post == other_post,
        action == other_action,
{
    match (pre.phase, event) {
        (PhaseView::Fetching { source }, EventView::Fetched(Ok(entries))) => {
            let key = pre.sources[source as int];
            if newest_of(entries) is Some && watermark_of(pre.store, key) is Some {
                let newest = newest_of(entries).unwrap();
                let fresh = newer_than(entries, pre.store[key]);
                let batch = choose|batch: Seq<ItemView>| #[trigger]
                    is_oldest_first_of(batch, fresh) && post == pre.deliver(source, batch, newest);
                let other_batch = choose|batch: Seq<ItemView>| #[trigger]
                    is_oldest_first_of(batch, fresh) && other_post == pre.deliver(
                        source,
                        batch,
                        newest,
                    );
                lemma_oldest_first_of_is_unique(batch, other_batch, fresh);
            }
        },
        _ => {},
    }
}

/// What a fetch of a source leads to depends on the watermark of that
/// source alone, whatever the watermarks of the other sources are and
/// whatever became of their fetches: two machines that agree on the sources,
/// on the source being fetched and on its watermark ask for the same thing
/// next, post the same batch, and agree on that watermark afterwards.
pub proof fn lemma_fetch_depends_on_own_watermark(
    one: SchedulerView,
    two: SchedulerView,
    source: nat,
    outcome: Result<Seq<ItemView>, Error>,
    post_one: SchedulerView,
    action_one: ActionView,
    post_two: SchedulerView,
    action_two: ActionView,
)
    requires
        one.phase == (PhaseView::Fetching { source }),
        two.phase == one.phase,
        two.sources == one.sources,
        two.refresh_seconds == one.refresh_seconds,
        watermark_of(two.store, one.sources[source as int]) == watermark_of(
            one.store,
            one.sources[source as int],
        ),
        one.steps_to(EventView::Fetched(outcome), post_one, action_one),
        two.steps_to(EventView::Fetched(outcome), post_two, action_two),
    ensures
        action_two == action_one,
        post_two.phase == post_one.phase,
        watermark_of(post_two.store, one.sources[source as int]) == watermark_of(
            post_one.store,
            one.sources[source as int],
        ),
{
    let key = one.sources[source as int];
    match outcome {
        Ok(entries) => {
            if newest_of(entries) is Some && watermark_of(one.store, key) is Some {
                let newest = newest_of(entries).unwrap();
                let fresh = newer_than(entries, one.store[key]);
                let batch_one = choose|batch: Seq<ItemView>| #[trigger]
                    is_oldest_first_of(batch, fresh) && post_one == one.deliver(source, batch, newest);
                let batch_two = choose|batch: Seq<ItemView>| #[trigger]
                    is_oldest_first_of(batch, fresh) && post_two == two.deliver(source, batch, newest);
                lemma_oldest_first_of_is_unique(batch_one, batch_two, fresh);
            }
        },
        Err(_) => {},
    }
}

/// Where the entries that are newer than the watermark all differ in date,
/// the batch to be posted runs in strictly increasing order of date.
pub proof fn lemma_batch_strictly_ascends(
    pre: SchedulerView,
    source: nat,
    entries: Seq<ItemView>,
    post: SchedulerView,
    action: ActionView,
)
    requires
        pre.wf(),
        pre.phase == (PhaseView::Fetching { source }),
        pre.steps_to(EventView::Fetched(Ok(entries)), post, action),
        post.phase is Delivering,
        forall|a: int, b: int|
            0 <= a < b < newer_than(entries, pre.store[pre.sources[source as int]]).len() ==> (
            #[trigger] newer_than(entries, pre.store[pre.sources[source as int]])[a]).date != (
            #[trigger] newer_than(entries, pre.store[pre.sources[source as int]])[b]).date,
    ensures
        forall|i: int, j: int|
            0 <= i < j < post.phase->Delivering_batch.len() ==> (
            #[trigger] post.phase->Delivering_batch[i]).date.before(
                (#[trigger] post.phase->Delivering_batch[j]).date,
            ),
{
    lemma_batch_is_selection(pre, source, entries, post, action);
    lemma_distinct_dates_strictly_ascend(
        post.phase->Delivering_batch,
        newer_than(entries, pre.store[pre.sources[source as int]]),
    );
}

} // verus!
