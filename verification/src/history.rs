//! What the machines come to over a row of events, whatever these are.
use crate::cli::Options;
use crate::config::Settings;
use crate::herdr::RequestView;
use crate::outcome::ids_differ;
use crate::sync::{
    counts, current, enter, go_on, is_end, law_given_labels_are_counted, named, renamed, started,
    step, tab_ids, visit, with_source, ActionView, EnvironmentView, EventView, Outcome, StageView,
    SyncView,
};
use crate::tab::grouped;
use crate::watcher::{
    after_event, requested, start, start_lock, stop, sync_lock, watch, Action, Event, EventStage,
    LockStage, RequestedStage, Stamp, StartStage, StopStage, WatchStage, WatcherStart, WatcherStop,
};
use vstd::prelude::*;

verus! {

// ------------------------------------------------------------------ rows of events

/// What a machine waits for after a row of events.
pub open spec fn stage_after<S, E, A>(
    machine: spec_fn(S, E) -> (S, A),
    first: S,
    events: Seq<E>,
) -> S
    decreases events.len(),
{
    if events.len() == 0 {
        first
    } else {
        machine(stage_after(machine, first, events.drop_last()), events.last()).0
    }
}

/// What a machine waits for when it has seen the first `i` events of a row.
pub open spec fn stage_at<S, E, A>(
    machine: spec_fn(S, E) -> (S, A),
    first: S,
    events: Seq<E>,
    i: int,
) -> S {
    stage_after(machine, first, events.take(i))
}

/// What a machine asks for, after every event of a row.
pub open spec fn actions<S, E, A>(
    machine: spec_fn(S, E) -> (S, A),
    first: S,
    events: Seq<E>,
) -> Seq<A> {
    Seq::new(
        events.len(),
        |i: int| machine(stage_at(machine, first, events, i), events[i]).1,
    )
}

proof fn lemma_step<S, E, A>(
    machine: spec_fn(S, E) -> (S, A),
    first: S,
    events: Seq<E>,
    i: int,
)
    requires
        0 <= i < events.len(),
    ensures
        machine(stage_at(machine, first, events, i), events[i]) == (
            stage_at(machine, first, events, i + 1),
            actions(machine, first, events)[i],
        ),
{
    assert(events.take(i + 1).drop_last() =~= events.take(i));
    assert(events.take(i + 1).last() == events[i]);
}

/// What no step of a machine lowers is not lowered by a row of steps.
proof fn lemma_rank_grows<S, E, A>(
    machine: spec_fn(S, E) -> (S, A),
    first: S,
    events: Seq<E>,
    rank: spec_fn(S) -> nat,
    i: int,
    j: int,
)
    requires
        0 <= i <= j <= events.len(),
        forall|s: S, e: E| rank(s) <= rank((#[trigger] machine(s, e)).0),
    ensures
        rank(stage_at(machine, first, events, i)) <= rank(stage_at(machine, first, events, j)),
    decreases j - i,
{
    if i < j {
        lemma_rank_grows(machine, first, events, rank, i, j - 1);
        lemma_step(machine, first, events, j - 1);
    }
}

// --------------------------------------------------------------- starting a watcher

/// The start of a watcher as a machine.
pub open spec fn starting(options: Options) -> spec_fn(StartStage, Event) -> (StartStage, Action) {
    |stage: StartStage, event: Event| start(stage, event, options)
}

/// How far a start is: nothing was started, the watcher was asked for, it runs, or
/// the start is over.
spec fn start_rank(stage: StartStage) -> nat {
    match stage {
        StartStage::Spawn => 1,
        StartStage::Write(_) => 2,
        StartStage::Over => 3,
        _ => 0,
    }
}

/// A start asks for a watcher at most once. One that ends as started has asked for
/// it, and has written the pid of that very watcher; one that ends because another
/// watcher runs or starts has asked for none. No other pid is ever written.
pub proof fn law_start_makes_one_watcher_or_none(events: Seq<Event>, options: Options)
    ensures
        ({
            let asked = actions(starting(options), StartStage::Start, events);
            &&& forall|i: int, j: int|
                0 <= i < j < asked.len() && (#[trigger] asked[i]) is Spawn ==> (#[trigger] asked[j])
                    !is Spawn
            &&& forall|i: int| #![trigger asked[i]]
                0 <= i < asked.len() ==> (asked[i] matches Action::WritePidFile(pid) ==> i >= 1
                    && asked[i - 1] is Spawn && events[i] == Event::Spawned(pid))
            &&& forall|i: int| #![trigger asked[i]]
                0 <= i < asked.len() ==> (asked[i] matches Action::Start {
                    outcome: WatcherStart::Started(pid),
                    ..
                } ==> i >= 2 && asked[i - 2] is Spawn && asked[i - 1] == Action::WritePidFile(pid)
                    && events[i] == Event::Done)
            &&& forall|i: int, j: int|
                0 <= j <= i < asked.len() && ((#[trigger] asked[i]) matches Action::Start {
                    outcome,
                    ..
                } && outcome !is Started) ==> (#[trigger] asked[j]) !is Spawn
        }),
{
    let machine = starting(options);
    let first = StartStage::Start;
    let asked = actions(machine, first, events);
    let rank = |stage: StartStage| start_rank(stage);
    assert forall|i: int, j: int|
        0 <= i < j < asked.len() && (#[trigger] asked[i]) is Spawn implies (#[trigger] asked[j])
        !is Spawn by {
        lemma_step(machine, first, events, i);
        lemma_step(machine, first, events, i + 1);
        lemma_step(machine, first, events, j);
        lemma_rank_grows(machine, first, events, rank, i + 2, j + 1);
        assert(rank(stage_at(machine, first, events, i + 2)) >= 2);
    }
    assert forall|i: int| #![trigger asked[i]] 0 <= i < asked.len() implies (
    asked[i] matches Action::WritePidFile(pid) ==> i >= 1 && asked[i - 1] is Spawn && events[i]
        == Event::Spawned(pid)) by {
        lemma_step(machine, first, events, i);
        if i >= 1 {
            lemma_step(machine, first, events, i - 1);
        } else {
            assert(stage_at(machine, first, events, 0) == first);
        }
    }
    assert forall|i: int| #![trigger asked[i]] 0 <= i < asked.len() implies (
    asked[i] matches Action::Start { outcome: WatcherStart::Started(pid), .. } ==> i >= 2
        && asked[i - 2] is Spawn && asked[i - 1] == Action::WritePidFile(pid) && events[i]
        == Event::Done) by {
        lemma_step(machine, first, events, i);
        assert(stage_at(machine, first, events, 0) == first);
        if i >= 1 {
            lemma_step(machine, first, events, i - 1);
        }
        if i >= 2 {
            lemma_step(machine, first, events, i - 2);
        }
    }
    assert forall|i: int, j: int|
        0 <= j <= i < asked.len() && ((#[trigger] asked[i]) matches Action::Start { outcome, .. }
            && outcome !is Started) implies (#[trigger] asked[j]) !is Spawn by {
        lemma_step(machine, first, events, i);
        lemma_step(machine, first, events, j);
        if j < i {
            lemma_rank_grows(machine, first, events, rank, j + 1, i);
            assert(rank(stage_at(machine, first, events, i)) == 0);
        }
    }
}

// --------------------------------------------------------------- stopping a watcher

/// The stop of a watcher as a machine.
pub open spec fn stopping() -> spec_fn(StopStage, Event) -> (StopStage, Action) {
    |stage: StopStage, event: Event| stop(stage, event)
}

/// The watcher that was told to stop, while it is waited for.
spec fn told(stage: StopStage) -> Option<u32> {
    match stage {
        StopStage::Terminate(pid)
        | StopStage::Clock(pid)
        | StopStage::Check(pid)
        | StopStage::Removal(pid)
        | StopStage::Pause(pid) => Some(pid),
        _ => None,
    }
}

spec fn stop_rank(stage: StopStage) -> nat {
    match stage {
        StopStage::Over => 2,
        _ => if told(stage) is Some {
            1
        } else {
            0
        },
    }
}

/// A watcher that is waited for was told to stop.
proof fn lemma_told(events: Seq<Event>, i: int) -> (k: int)
    requires
        0 <= i <= events.len(),
        told(stage_at(stopping(), StopStage::Start, events, i)) is Some,
    ensures
        0 <= k < i,
        actions(stopping(), StopStage::Start, events)[k] == Action::Terminate(
            told(stage_at(stopping(), StopStage::Start, events, i))->0,
        ),
    decreases i,
{
    assert(stage_at(stopping(), StopStage::Start, events, 0) == StopStage::Start);
    lemma_step(stopping(), StopStage::Start, events, i - 1);
    if stage_at(stopping(), StopStage::Start, events, i) is Terminate {
        i - 1
    } else {
        lemma_told(events, i - 1)
    }
}

/// A stop tells a watcher to stop at most once, and only where it was seen to be
/// alive. One that ends with a watcher that is gone, or that is still there, has told
/// that very watcher; one that ends as there is none has told nobody.
pub proof fn law_stop_tells_one_watcher_or_none(events: Seq<Event>)
    ensures
        ({
            let asked = actions(stopping(), StopStage::Start, events);
            &&& forall|i: int, j: int|
                0 <= i < j < asked.len() && (#[trigger] asked[i]) is Terminate ==> (
                #[trigger] asked[j]) !is Terminate
            &&& forall|i: int| #![trigger asked[i]]
                0 <= i < asked.len() ==> (asked[i] matches Action::Terminate(pid) ==> i >= 1
                    && asked[i - 1] == Action::CheckAlive(pid) && events[i] == Event::Alive(true))
            &&& forall|i: int| #![trigger asked[i]]
                0 <= i < asked.len() ==> (asked[i] matches Action::Stop(outcome) ==> match outcome {
                    WatcherStop::Stopped(pid) | WatcherStop::Signalled(pid) => asked.take(
                        i,
                    ).contains(Action::Terminate(pid)),
                    WatcherStop::NotRunning => forall|j: int|
                        0 <= j < i ==> (#[trigger] asked[j]) !is Terminate,
                })
        }),
{
    let machine = stopping();
    let first = StopStage::Start;
    let asked = actions(machine, first, events);
    let rank = |stage: StopStage| stop_rank(stage);
    assert(stage_at(machine, first, events, 0) == first);
    assert forall|i: int, j: int|
        0 <= i < j < asked.len() && (#[trigger] asked[i]) is Terminate implies (#[trigger] asked[j])
        !is Terminate by {
        lemma_step(machine, first, events, i);
        lemma_step(machine, first, events, j);
        lemma_rank_grows(machine, first, events, rank, i + 1, j);
        assert(rank(stage_at(machine, first, events, i + 1)) == 1);
    }
    assert forall|i: int| #![trigger asked[i]] 0 <= i < asked.len() implies (
    asked[i] matches Action::Terminate(pid) ==> i >= 1 && asked[i - 1] == Action::CheckAlive(pid)
        && events[i] == Event::Alive(true)) by {
        lemma_step(machine, first, events, i);
        if i >= 1 {
            lemma_step(machine, first, events, i - 1);
        }
    }
    assert forall|i: int| #![trigger asked[i]] 0 <= i < asked.len() implies (
    asked[i] matches Action::Stop(outcome) ==> match outcome {
        WatcherStop::Stopped(pid) | WatcherStop::Signalled(pid) => asked.take(i).contains(
            Action::Terminate(pid),
        ),
        WatcherStop::NotRunning => forall|j: int|
            0 <= j < i ==> (#[trigger] asked[j]) !is Terminate,
    }) by {
        lemma_step(machine, first, events, i);
        if told(stage_at(machine, first, events, i)) is Some {
            let k = lemma_told(events, i);
            assert(asked.take(i)[k] == asked[k]);
        } else if asked[i] is Stop {
            assert forall|j: int| 0 <= j < i implies (#[trigger] asked[j]) !is Terminate by {
                lemma_step(machine, first, events, j);
                lemma_rank_grows(machine, first, events, rank, j + 1, i);
                assert(rank(stage_at(machine, first, events, i)) == 0);
            }
        }
    }
}

// ------------------------------------------------------------------- syncs in time

/// A watcher as a machine.
pub open spec fn watching(own_pid: u32) -> spec_fn(WatchStage, Event) -> (WatchStage, Action) {
    |stage: WatchStage, event: Event| watch(stage, event, own_pid)
}

/// Before every sync a watcher has seen that it owns the pid file, has then read the
/// settings, and has then taken the lock without waiting for it. Before all that it
/// has written its own pid, and it writes no other.
pub proof fn law_watcher_prepares_every_sync(events: Seq<Event>, own_pid: u32)
    ensures
        ({
            let asked = actions(watching(own_pid), WatchStage::Start, events);
            &&& forall|i: int| #![trigger asked[i]]
                0 <= i < asked.len() && asked[i] is Sync ==> {
                    &&& i >= 3
                    &&& asked[i - 3] is ReadPidFile && events[i - 2] == Event::Owned(true)
                    &&& asked[i - 2] is LoadConfig && events[i - 1] is Interval
                    &&& asked[i - 1] == Action::TakeSyncLock(0) && events[i] == Event::Locked(true)
                }
            &&& forall|i: int| #![trigger asked[i]]
                0 <= i < asked.len() ==> (asked[i] matches Action::WritePidFile(pid) ==> i == 0
                    && pid == own_pid)
            &&& forall|i: int| #![trigger asked[i]]
                0 < i < asked.len() && asked[i] !is Fail ==> asked[0] is WritePidFile
        }),
{
    let machine = watching(own_pid);
    let first = WatchStage::Start;
    let asked = actions(machine, first, events);
    assert(stage_at(machine, first, events, 0) == first);
    assert forall|i: int| #![trigger asked[i]] 0 <= i < asked.len() && asked[i] is Sync implies {
        &&& i >= 3
        &&& asked[i - 3] is ReadPidFile && events[i - 2] == Event::Owned(true)
        &&& asked[i - 2] is LoadConfig && events[i - 1] is Interval
        &&& asked[i - 1] == Action::TakeSyncLock(0) && events[i] == Event::Locked(true)
    } by {
        lemma_step(machine, first, events, i);
        if i >= 1 {
            lemma_step(machine, first, events, i - 1);
        }
        if i >= 2 {
            lemma_step(machine, first, events, i - 2);
        }
        if i >= 3 {
            lemma_step(machine, first, events, i - 3);
        }
    }
    assert forall|i: int| #![trigger asked[i]] 0 <= i < asked.len() implies (
    asked[i] matches Action::WritePidFile(pid) ==> i == 0 && pid == own_pid) by {
        lemma_step(machine, first, events, i);
        if i >= 1 {
            lemma_step(machine, first, events, i - 1);
        }
    }
    assert forall|i: int| #![trigger asked[i]]
        0 < i < asked.len() && asked[i] !is Fail implies asked[0] is WritePidFile by {
        let rank = |stage: WatchStage|
            if stage is Over {
                1nat
            } else {
                0nat
            };
        lemma_step(machine, first, events, 0);
        lemma_step(machine, first, events, i);
        lemma_rank_grows(machine, first, events, rank, 1, i);
        assert(rank(stage_at(machine, first, events, 1)) <= rank(
            stage_at(machine, first, events, i),
        ));
    }
}

/// A sync after an event as a machine.
pub open spec fn after_events() -> spec_fn(EventStage, Event) -> (EventStage, Action) {
    |stage: EventStage, event: Event| after_event(stage, event)
}

spec fn event_rank(stage: EventStage) -> nat {
    match stage {
        EventStage::Sync => 1,
        EventStage::Mark => 2,
        EventStage::Over => 3,
        _ => 0,
    }
}

/// After an event there is at most one sync, and the stamp is written only right
/// after a sync that went well, so at most once too.
pub proof fn law_event_makes_one_sync_or_none(events: Seq<Event>)
    ensures
        ({
            let asked = actions(after_events(), EventStage::Start, events);
            &&& forall|i: int, j: int|
                0 <= i < j < asked.len() && (#[trigger] asked[i]) is Sync ==> (#[trigger] asked[j])
                    !is Sync
            &&& forall|i: int| #![trigger asked[i]]
                0 <= i < asked.len() && asked[i] is WriteEventStamp ==> i >= 1 && asked[i - 1] is Sync
                    && events[i] == Event::Done
        }),
{
    let machine = after_events();
    let first = EventStage::Start;
    let asked = actions(machine, first, events);
    let rank = |stage: EventStage| event_rank(stage);
    assert(stage_at(machine, first, events, 0) == first);
    assert forall|i: int, j: int|
        0 <= i < j < asked.len() && (#[trigger] asked[i]) is Sync implies (#[trigger] asked[j])
        !is Sync by {
        lemma_step(machine, first, events, i);
        lemma_step(machine, first, events, i + 1);
        lemma_step(machine, first, events, j);
        lemma_rank_grows(machine, first, events, rank, i + 2, j + 1);
        assert(rank(stage_at(machine, first, events, i + 2)) >= 2);
    }
    assert forall|i: int| #![trigger asked[i]]
        0 <= i < asked.len() && asked[i] is WriteEventStamp implies i >= 1 && asked[i - 1] is Sync
        && events[i] == Event::Done by {
        lemma_step(machine, first, events, i);
        if i >= 1 {
            lemma_step(machine, first, events, i - 1);
        }
    }
}

/// A sync that the user asks for as a machine.
pub open spec fn requesting() -> spec_fn(RequestedStage, Event) -> (RequestedStage, Action) {
    |stage: RequestedStage, event: Event| requested(stage, event)
}

/// A sync that the user asks for is made at most once; it ends well only right after
/// a sync that went well, and as busy only where there was none.
pub proof fn law_request_makes_one_sync_or_none(events: Seq<Event>)
    ensures
        ({
            let asked = actions(requesting(), RequestedStage::Start, events);
            &&& forall|i: int| #![trigger asked[i]]
                0 <= i < asked.len() && asked[i] is Sync ==> i == 1
            &&& forall|i: int| #![trigger asked[i]]
                0 <= i < asked.len() && asked[i] is Finish ==> i == 2 && asked[1] is Sync
                    && events[2] == Event::Done
            &&& forall|i: int| #![trigger asked[i]]
                0 <= i < asked.len() && asked[i] is Busy ==> i == 1 && events[1] == Event::Locked(
                    false,
                )
        }),
{
    let machine = requesting();
    let first = RequestedStage::Start;
    let asked = actions(machine, first, events);
    assert(stage_at(machine, first, events, 0) == first);
    assert forall|i: int| #![trigger asked[i]] 0 <= i < asked.len() implies {
        &&& asked[i] is Sync ==> i == 1
        &&& asked[i] is Finish ==> i == 2 && asked[1] is Sync && events[2] == Event::Done
        &&& asked[i] is Busy ==> i == 1 && events[1] == Event::Locked(false)
    } by {
        lemma_step(machine, first, events, i);
        if i >= 1 {
            lemma_step(machine, first, events, i - 1);
        }
        if i >= 2 {
            lemma_step(machine, first, events, i - 2);
        }
        if i >= 3 {
            lemma_step(machine, first, events, i - 3);
        }
    }
}

// -------------------------------------------------------------------------- locks

/// The taking of the start lock as a machine.
pub open spec fn taking_start_lock() -> spec_fn(LockStage, Event) -> (LockStage, Action) {
    |stage: LockStage, event: Event| start_lock(stage, event)
}

/// The taking of the sync lock as a machine.
pub open spec fn taking_sync_lock(wait_ms: u64) -> spec_fn(LockStage, Event) -> (
    LockStage,
    Action,
) {
    |stage: LockStage, event: Event| sync_lock(stage, event, wait_ms)
}

/// Whoever takes a lock has made its file and signed it.
pub open spec fn is_made_and_signed(events: Seq<Event>, asked: Seq<Action>) -> bool {
    forall|i: int| #![trigger asked[i]]
        0 <= i < asked.len() && asked[i] is Acquired ==> {
            &&& i >= 2
            &&& asked[i - 2] is CreateLock && events[i - 1] == Event::Created
            &&& asked[i - 1] is SignLock && events[i] == Event::Done
        }
}

/// No lock is taken but by the one who has made its file, where there was none, and
/// has signed it.
pub proof fn law_locks_are_made_by_their_holders(events: Seq<Event>, wait_ms: u64)
    ensures
        is_made_and_signed(events, actions(taking_start_lock(), LockStage::Start, events)),
        is_made_and_signed(events, actions(taking_sync_lock(wait_ms), LockStage::Start, events)),
{
    lemma_lock_is_made_and_signed(taking_start_lock(), events);
    lemma_lock_is_made_and_signed(taking_sync_lock(wait_ms), events);
}

proof fn lemma_lock_is_made_and_signed(
    machine: spec_fn(LockStage, Event) -> (LockStage, Action),
    events: Seq<Event>,
)
    requires
        machine == taking_start_lock() || exists|ms: u64| machine == #[trigger] taking_sync_lock(ms),
    ensures
        is_made_and_signed(events, actions(machine, LockStage::Start, events)),
{
    let first = LockStage::Start;
    let asked = actions(machine, first, events);
    assert(stage_at(machine, first, events, 0) == first);
    assert forall|i: int| #![trigger asked[i]] 0 <= i < asked.len() && asked[i] is Acquired implies {
        &&& i >= 2
        &&& asked[i - 2] is CreateLock && events[i - 1] == Event::Created
        &&& asked[i - 1] is SignLock && events[i] == Event::Done
    } by {
        lemma_step(machine, first, events, i);
        if i >= 1 {
            lemma_step(machine, first, events, i - 1);
        }
        if i >= 2 {
            lemma_step(machine, first, events, i - 2);
        }
    }
}

// -------------------------------------------------------------------------- syncs

/// A sync as a machine.
pub open spec fn syncing() -> spec_fn(SyncView, EventView) -> (SyncView, ActionView) {
    |v: SyncView, event: EventView| step(v, event)
}

/// How many of the actions are renames.
pub open spec fn renames(asked: Seq<ActionView>) -> nat
    decreases asked.len(),
{
    if asked.len() == 0 {
        0
    } else {
        renames(asked.drop_last()) + if asked.last() is Rename {
            1nat
        } else {
            0nat
        }
    }
}

/// The place of the tab that is at hand after the event at place `i`.
pub open spec fn place_at(first: SyncView, events: Seq<EventView>, i: int) -> nat {
    stage_at(syncing(), first, events, i + 1).next
}

/// A tab is visited.
spec fn is_visiting(v: SyncView) -> bool {
    v.stage is Layout || v.stage is Processes || v.stage is Renaming
}

/// What a step leaves: it asks for a rename where it waits for one, of the tab at
/// hand and to another label than that tab has, and it waits for nothing where it
/// has asked for the end.
spec fn is_in_order(w: SyncView, action: ActionView) -> bool {
    &&& w.stage is Renaming <==> action is Rename
    &&& action matches ActionView::Rename { tab_id, label, .. } ==> tab_id == current(w).tab_id
        && label != current(w).label
    &&& is_visiting(w) ==> w.next < w.tabs.len()
    &&& w.stage is Over <==> is_end(action)
    &&& w.stage !is Start && w.stage !is Tabs
}

proof fn lemma_visit_is_in_order(v: SyncView)
    ensures
        is_in_order(visit(v).0, visit(v).1),
        visit(v).0.tabs == v.tabs,
        visit(v).0.next >= v.next,
        v.next <= v.tabs.len() ==> visit(v).0.next <= v.tabs.len(),
    decreases v.tabs.len() - v.next,
{
    if v.next < v.tabs.len() {
        if let Outcome::Next(w) = enter(v) {
            lemma_visit_is_in_order(SyncView { next: v.next + 1, ..w });
        }
    }
}

proof fn lemma_sync_step(v: SyncView, event: EventView)
    requires
        is_visiting(v) ==> v.next < v.tabs.len(),
    ensures
        ({
            let (w, action) = step(v, event);
            &&& w.next >= v.next
            &&& v.stage !is Start && v.stage !is Tabs ==> is_in_order(w, action) && w.tabs == v.tabs
            &&& v.stage !is Tabs && v.next <= v.tabs.len() ==> w.next <= w.tabs.len()
            &&& v.stage is Renaming && event is Renamed ==> w.next > v.next
            &&& v.stage is Renaming && event !is Renamed ==> action is Stop
            &&& v.stage is Over ==> action is Stop && w.stage is Over
        }),
{
    let kept = v.labels.restrict(tab_ids(v.tabs).to_set());
    match (v.stage, event) {
        (StageView::Panes, EventView::Panes(panes)) => {
            lemma_visit_is_in_order(SyncView { groups: grouped(panes), labels: kept, ..v });
        },
        (StageView::Snapshot, EventView::Snapshot(Some(snapshot))) => {
            lemma_visit_is_in_order(SyncView { snapshot, labels: kept, ..v });
        },
        (StageView::Snapshot, EventView::Snapshot(None)) => {
            lemma_visit_is_in_order(SyncView { labels: kept, ..v });
        },
        (StageView::Workspaces, EventView::Workspaces(workspaces)) => {
            lemma_visit_is_in_order(SyncView { workspaces, labels: kept, ..v });
        },
        (StageView::Layout, EventView::Layout(pane_id)) => {
            lemma_going_on_is_in_order(v, with_source(v, Some(pane_id)));
        },
        (StageView::Layout, EventView::Failed) => {
            lemma_going_on_is_in_order(v, with_source(v, None));
        },
        (StageView::Processes(pane), EventView::Processes(info)) => {
            lemma_going_on_is_in_order(v, named(v, pane, info));
        },
        (StageView::Renaming { label, manual }, EventView::Renamed) => {
            lemma_going_on_is_in_order(v, Outcome::Next(renamed(v, label, manual)));
        },
        _ => {},
    }
}

proof fn lemma_going_on_is_in_order(v: SyncView, outcome: Outcome)
    requires
        match outcome {
            Outcome::Act(w, action) => is_in_order(w, action) && w.tabs == v.tabs && w.next
                == v.next,
            Outcome::Next(w) => w.tabs == v.tabs && w.next == v.next,
        },
    ensures
        is_in_order(go_on(outcome).0, go_on(outcome).1),
        go_on(outcome).0.tabs == v.tabs,
        go_on(outcome).0.next >= v.next,
        outcome is Next ==> go_on(outcome).0.next > v.next,
        v.next < v.tabs.len() ==> go_on(outcome).0.next <= v.tabs.len(),
{
    if let Outcome::Next(w) = outcome {
        lemma_visit_is_in_order(SyncView { next: w.next + 1, ..w });
    }
}

/// What holds of a sync after the first `i` events of a row: the tabs are those that
/// Herdr listed, no more of them were given a label than were visited, and as many
/// were given one as there were renames asked for, but for one that is waited for.
spec fn is_on_its_way(first: SyncView, events: Seq<EventView>, i: int) -> bool {
    let v = stage_at(syncing(), first, events, i);
    &&& is_visiting(v) ==> v.next < v.tabs.len()
    &&& counts(v)
    &&& i < 2 ==> v.next == 0
    &&& i == 0 ==> v == first
    &&& i == 1 ==> v.stage is Tabs || v.stage is Over
    &&& i >= 2 && v.stage !is Over ==> events[1] == EventView::Tabs(v.tabs)
    &&& i >= 2 ==> v.stage !is Start && v.stage !is Tabs
    &&& v.stage !is Over ==> renames(actions(syncing(), first, events).take(i)) == v.changed + if
        v.stage is Renaming {
        1nat
    } else {
        0nat
    }
}

proof fn lemma_sync_is_on_its_way(first: SyncView, events: Seq<EventView>, i: int)
    requires
        first.stage is Start,
        first.changed == 0,
        first.next == 0,
        0 <= i <= events.len(),
    ensures
        is_on_its_way(first, events, i),
    decreases i,
{
    let asked = actions(syncing(), first, events);
    if i > 0 {
        let v = stage_at(syncing(), first, events, i - 1);
        lemma_sync_is_on_its_way(first, events, i - 1);
        lemma_step(syncing(), first, events, i - 1);
        lemma_sync_step(v, events[i - 1]);
        law_given_labels_are_counted(v, events[i - 1]);
        assert(asked.take(i).drop_last() =~= asked.take(i - 1));
        assert(asked.take(i).last() == asked[i - 1]);
    }
}

/// Once a sync has asked for its end, it asks for nothing more. So one that does not
/// end well never asks for what is remembered to be saved, and one that does asks for
/// it at most once.
pub proof fn law_sync_ends_once(
    config: Settings,
    labels: Map<Seq<char>, Seq<char>>,
    force: bool,
    environment: EnvironmentView,
    events: Seq<EventView>,
)
    ensures
        ({
            let asked = actions(syncing(), started(config, labels, force, environment), events);
            forall|i: int, j: int|
                0 <= i < j < asked.len() && is_end(#[trigger] asked[i]) ==> (#[trigger] asked[j])
                    is Stop
        }),
{
    let first = started(config, labels, force, environment);
    let asked = actions(syncing(), first, events);
    assert forall|i: int, j: int|
        0 <= i < j < asked.len() && is_end(#[trigger] asked[i]) implies (#[trigger] asked[j])
        is Stop by {
        lemma_sync_is_on_its_way(first, events, i);
        lemma_step(syncing(), first, events, i);
        lemma_sync_step(stage_at(syncing(), first, events, i), events[i]);
        lemma_over_stays(first, events, i + 1, j);
        lemma_step(syncing(), first, events, j);
    }
}

proof fn lemma_over_stays(first: SyncView, events: Seq<EventView>, i: int, j: int)
    requires
        0 <= i <= j <= events.len(),
        stage_at(syncing(), first, events, i).stage is Over,
    ensures
        stage_at(syncing(), first, events, j).stage is Over,
    decreases j - i,
{
    if i < j {
        lemma_over_stays(first, events, i, j - 1);
        lemma_step(syncing(), first, events, j - 1);
    }
}

/// A sync renames only tabs that Herdr listed, every one of them at most once, from
/// the first to the last, and none to the label that it has.
#[verifier::rlimit(40)]
pub proof fn law_tabs_are_renamed_at_most_once(
    config: Settings,
    labels: Map<Seq<char>, Seq<char>>,
    force: bool,
    environment: EnvironmentView,
    events: Seq<EventView>,
)
    ensures
        ({
            let first = started(config, labels, force, environment);
            let asked = actions(syncing(), first, events);
            &&& forall|i: int| #![trigger asked[i]]
                0 <= i < asked.len() ==> (asked[i] matches ActionView::Rename { tab_id, label, .. }
                    ==> i >= 2 && (events[1] matches EventView::Tabs(tabs) && {
                    let place = place_at(first, events, i);
                    place < tabs.len() && tabs[place as int].tab_id == tab_id
                        && tabs[place as int].label != label
                }))
            &&& forall|i: int, j: int|
                0 <= i < j < asked.len() && (#[trigger] asked[i]) is Rename && (
                #[trigger] asked[j]) is Rename ==> place_at(first, events, i) < place_at(
                    first,
                    events,
                    j,
                )
        }),
{
    let first = started(config, labels, force, environment);
    let asked = actions(syncing(), first, events);
    assert forall|i: int| #![trigger asked[i]] 0 <= i < asked.len() implies (
    asked[i] matches ActionView::Rename { tab_id, label, .. } ==> i >= 2 && (
    events[1] matches EventView::Tabs(tabs) && {
        let place = place_at(first, events, i);
        place < tabs.len() && tabs[place as int].tab_id == tab_id && tabs[place as int].label
            != label
    })) by {
        lemma_sync_is_on_its_way(first, events, i);
        lemma_step(syncing(), first, events, i);
        lemma_sync_step(stage_at(syncing(), first, events, i), events[i]);
    }
    assert forall|i: int, j: int|
        0 <= i < j < asked.len() && (#[trigger] asked[i]) is Rename && (#[trigger] asked[j]) is Rename
        implies place_at(first, events, i) < place_at(first, events, j) by {
        lemma_sync_is_on_its_way(first, events, i);
        lemma_sync_is_on_its_way(first, events, i + 1);
        lemma_step(syncing(), first, events, i);
        lemma_step(syncing(), first, events, i + 1);
        lemma_step(syncing(), first, events, j);
        lemma_sync_step(stage_at(syncing(), first, events, i), events[i]);
        lemma_sync_step(stage_at(syncing(), first, events, i + 1), events[i + 1]);
        if stage_at(syncing(), first, events, i + 2).stage is Over {
            if j > i + 1 {
                lemma_over_stays(first, events, i + 2, j);
            }
        }
        lemma_places_grow(first, events, i + 2, j + 1);
    }
}

proof fn lemma_places_grow(first: SyncView, events: Seq<EventView>, i: int, j: int)
    requires
        first.stage is Start,
        first.changed == 0,
        first.next == 0,
        0 <= i <= j <= events.len(),
    ensures
        stage_at(syncing(), first, events, i).next <= stage_at(syncing(), first, events, j).next,
    decreases j - i,
{
    if i < j {
        lemma_places_grow(first, events, i, j - 1);
        lemma_step(syncing(), first, events, j - 1);
        lemma_sync_is_on_its_way(first, events, j - 1);
        lemma_sync_step(stage_at(syncing(), first, events, j - 1), events[j - 1]);
    }
}

/// Where no two of the listed tabs have the same id, no id is renamed twice.
pub proof fn law_no_id_is_renamed_twice(
    config: Settings,
    labels: Map<Seq<char>, Seq<char>>,
    force: bool,
    environment: EnvironmentView,
    events: Seq<EventView>,
    i: int,
    j: int,
)
    requires
        0 <= i < j < events.len(),
        events[1] matches EventView::Tabs(tabs) ==> ids_differ(tabs),
    ensures
        ({
            let asked = actions(syncing(), started(config, labels, force, environment), events);
            asked[i] matches ActionView::Rename { tab_id: one, .. } ==> (
            asked[j] matches ActionView::Rename { tab_id: other, .. } ==> one != other)
        }),
{
    law_tabs_are_renamed_at_most_once(config, labels, force, environment, events);
    let first = started(config, labels, force, environment);
    let asked = actions(syncing(), first, events);
    if asked[i] is Rename && asked[j] is Rename {
        let tabs = events[1]->Tabs_0;
        assert(tabs[place_at(first, events, i) as int].tab_id != tabs[place_at(
            first,
            events,
            j,
        ) as int].tab_id);
    }
}

/// A sync that ends well tells as many tabs as it has asked to rename, and Herdr has
/// given every one of them its label; there are no more of them than listed tabs.
#[verifier::rlimit(40)]
pub proof fn law_count_is_that_of_the_renames(
    config: Settings,
    labels: Map<Seq<char>, Seq<char>>,
    force: bool,
    environment: EnvironmentView,
    events: Seq<EventView>,
    i: int,
)
    requires
        0 <= i < events.len(),
    ensures
        ({
            let asked = actions(syncing(), started(config, labels, force, environment), events);
            asked[i] matches ActionView::Done { changed, .. } ==> {
                &&& changed == renames(asked.take(i))
                &&& forall|j: int|
                    0 <= j < i && (#[trigger] asked[j]) is Rename ==> events[j + 1] is Renamed
                &&& events[1] matches EventView::Tabs(tabs) && changed <= tabs.len()
            }
        }),
{
    let first = started(config, labels, force, environment);
    let asked = actions(syncing(), first, events);
    let v = stage_at(syncing(), first, events, i);
    if asked[i] is Done {
        lemma_sync_is_on_its_way(first, events, i);
        lemma_step(syncing(), first, events, i);
        lemma_sync_step(v, events[i]);
        law_given_labels_are_counted(v, events[i]);
        assert forall|j: int| 0 <= j < i && (#[trigger] asked[j]) is Rename implies events[j + 1]
            is Renamed by {
            lemma_sync_is_on_its_way(first, events, j);
            lemma_sync_is_on_its_way(first, events, j + 1);
            lemma_step(syncing(), first, events, j);
            lemma_step(syncing(), first, events, j + 1);
            lemma_sync_step(stage_at(syncing(), first, events, j), events[j]);
            lemma_sync_step(stage_at(syncing(), first, events, j + 1), events[j + 1]);
            if events[j + 1] !is Renamed {
                if j + 1 < i {
                    lemma_over_stays(first, events, j + 2, i);
                }
            }
        }
        lemma_sync_is_on_its_way(first, events, i + 1);
    }
}

/// What fails is answered. Where Herdr does not list the tabs, the panes or the
/// workspaces, or does not rename a tab or take the title, the sync stops. A title that
/// reaches no terminal is told, with the label of its tab, and does not count as a sync
/// that went well; one that does ends the sync well. Without a layout, or without the
/// processes of the machine, the sync goes on.
pub proof fn law_sync_answers_to_failures(
    config: Settings,
    labels: Map<Seq<char>, Seq<char>>,
    force: bool,
    environment: EnvironmentView,
    events: Seq<EventView>,
    i: int,
)
    requires
        0 <= i < events.len() - 1,
    ensures
        ({
            let asked = actions(syncing(), started(config, labels, force, environment), events);
            let event = events[i + 1];
            let next = asked[i + 1];
            &&& asked[i] matches ActionView::SetTitle { tab_label, .. } ==> match event {
                EventView::TitleSet(true) => next is Done,
                EventView::TitleSet(false) => next == ActionView::Undelivered { tab_label },
                _ => next is Stop,
            }
            &&& asked[i] is Rename && event !is Renamed ==> next is Stop
            &&& (asked[i] matches ActionView::Ask(request) && (request is ListTabs
                || request is ListPanes || request is ListWorkspaces)) && event is Failed
                ==> next is Stop
            &&& (asked[i] matches ActionView::Ask(RequestView::Layout { .. })) && event is Failed
                ==> next !is Stop
            &&& asked[i] is TakeSnapshot && event == EventView::Snapshot(None) ==> next !is Stop
        }),
{
    let first = started(config, labels, force, environment);
    let v = stage_at(syncing(), first, events, i);
    let w = stage_at(syncing(), first, events, i + 1);
    lemma_focus_is_known(first, events, i);
    lemma_step(syncing(), first, events, i);
    lemma_step(syncing(), first, events, i + 1);
    lemma_step_is_spoken(v, events[i]);
    lemma_answer_to_failure(w, events[i + 1]);
}

/// What a step waits for is what it has asked for.
spec fn is_spoken(w: SyncView, action: ActionView) -> bool {
    &&& w.stage is Title || w.stage is TitleProcesses ==> w.focused is Some
    &&& match action {
        ActionView::SetTitle { tab_label, .. } => w.stage is Title && w.focused->0.label == tab_label,
        ActionView::Rename { .. } => w.stage is Renaming,
        ActionView::TakeSnapshot => w.stage is Snapshot,
        ActionView::Ask(RequestView::ListTabs) => w.stage is Tabs,
        ActionView::Ask(RequestView::ListPanes) => w.stage is Panes,
        ActionView::Ask(RequestView::ListWorkspaces) => w.stage is Workspaces,
        ActionView::Ask(RequestView::Layout { .. }) => w.stage is Layout,
        _ => true,
    }
}

proof fn lemma_visit_is_spoken(v: SyncView)
    ensures
        is_spoken(visit(v).0, visit(v).1),
    decreases v.tabs.len() - v.next,
{
    if v.next < v.tabs.len() {
        if let Outcome::Next(w) = enter(v) {
            lemma_visit_is_spoken(SyncView { next: v.next + 1, ..w });
        }
    }
}

proof fn lemma_going_on_is_spoken(outcome: Outcome)
    requires
        outcome matches Outcome::Act(w, action) ==> is_spoken(w, action),
    ensures
        is_spoken(go_on(outcome).0, go_on(outcome).1),
{
    if let Outcome::Next(w) = outcome {
        lemma_visit_is_spoken(SyncView { next: w.next + 1, ..w });
    }
}

proof fn lemma_step_is_spoken(v: SyncView, event: EventView)
    requires
        v.stage is TitleProcesses ==> v.focused is Some,
    ensures
        is_spoken(step(v, event).0, step(v, event).1),
{
    let kept = v.labels.restrict(tab_ids(v.tabs).to_set());
    match (v.stage, event) {
        (StageView::Panes, EventView::Panes(panes)) => {
            lemma_visit_is_spoken(SyncView { groups: grouped(panes), labels: kept, ..v });
        },
        (StageView::Snapshot, EventView::Snapshot(Some(snapshot))) => {
            lemma_visit_is_spoken(SyncView { snapshot, labels: kept, ..v });
        },
        (StageView::Snapshot, EventView::Snapshot(None)) => {
            lemma_visit_is_spoken(SyncView { labels: kept, ..v });
        },
        (StageView::Workspaces, EventView::Workspaces(workspaces)) => {
            lemma_visit_is_spoken(SyncView { workspaces, labels: kept, ..v });
        },
        (StageView::Layout, EventView::Layout(pane_id)) => {
            lemma_going_on_is_spoken(with_source(v, Some(pane_id)));
        },
        (StageView::Layout, EventView::Failed) => {
            lemma_going_on_is_spoken(with_source(v, None));
        },
        (StageView::Processes(pane), EventView::Processes(info)) => {
            lemma_going_on_is_spoken(named(v, pane, info));
        },
        (StageView::Renaming { label, manual }, EventView::Renamed) => {
            lemma_going_on_is_spoken(Outcome::Next(renamed(v, label, manual)));
        },
        _ => {},
    }
}

proof fn lemma_focus_is_known(first: SyncView, events: Seq<EventView>, i: int)
    requires
        first.stage is Start,
        0 <= i <= events.len(),
    ensures
        stage_at(syncing(), first, events, i).stage is TitleProcesses ==> stage_at(
            syncing(),
            first,
            events,
            i,
        ).focused is Some,
    decreases i,
{
    if i == 0 {
        assert(stage_at(syncing(), first, events, 0) == first);
    } else {
        lemma_focus_is_known(first, events, i - 1);
        lemma_step(syncing(), first, events, i - 1);
        lemma_step_is_spoken(stage_at(syncing(), first, events, i - 1), events[i - 1]);
    }
}

proof fn lemma_answer_to_failure(w: SyncView, event: EventView)
    ensures
        ({
            let next = step(w, event).1;
            &&& w.stage is Title ==> match event {
                EventView::TitleSet(true) => next is Done,
                EventView::TitleSet(false) => next == ActionView::Undelivered {
                    tab_label: w.focused->0.label,
                },
                _ => next is Stop,
            }
            &&& w.stage is Renaming && event !is Renamed ==> next is Stop
            &&& (w.stage is Tabs || w.stage is Panes || w.stage is Workspaces) && event is Failed
                ==> next is Stop
            &&& w.stage is Layout && event is Failed ==> next !is Stop
            &&& w.stage is Snapshot && event == EventView::Snapshot(None) ==> next !is Stop
        }),
{
    if w.stage is Layout && event is Failed {
        lemma_going_on_does_not_stop(with_source(w, None));
    }
    if w.stage is Snapshot && event == EventView::Snapshot(None) {
        lemma_visit_does_not_stop(
            SyncView { labels: w.labels.restrict(tab_ids(w.tabs).to_set()), ..w },
        );
    }
}

proof fn lemma_visit_does_not_stop(v: SyncView)
    ensures
        visit(v).1 !is Stop,
    decreases v.tabs.len() - v.next,
{
    if v.next < v.tabs.len() {
        if let Outcome::Next(w) = enter(v) {
            lemma_visit_does_not_stop(SyncView { next: v.next + 1, ..w });
        }
    }
}

proof fn lemma_going_on_does_not_stop(outcome: Outcome)
    requires
        outcome matches Outcome::Act(_, action) ==> action !is Stop,
    ensures
        go_on(outcome).1 !is Stop,
{
    if let Outcome::Next(w) = outcome {
        lemma_visit_does_not_stop(SyncView { next: w.next + 1, ..w });
    }
}

// ------------------------------------------------------------------- whole rows

/// Where no watcher runs, one is started under the lock and its pid is written; a pid file
/// of a process that is gone is removed before. Where a watcher runs, by the first look or
/// by the one under the lock, or where another one starts, none is started.
pub proof fn law_start_runs_to_its_end(options: Options, old_pid: u32, other: u32, pid: u32)
    ensures
        actions(
            starting(options),
            StartStage::Start,
            seq![
                Event::Begin,
                Event::Pid(None),
                Event::Locked(true),
                Event::Pid(None),
                Event::Spawned(pid),
                Event::Done,
            ],
        ) == seq![
            Action::ReadPidFile,
            Action::TakeStartLock,
            Action::ReadPidFile,
            Action::Spawn,
            Action::WritePidFile(pid),
            Action::Start { outcome: WatcherStart::Started(pid), tell: !options.quiet },
        ],
        actions(
            starting(options),
            StartStage::Start,
            seq![
                Event::Begin,
                Event::Pid(Some(old_pid)),
                Event::Alive(false),
                Event::Done,
                Event::Locked(true),
                Event::Pid(Some(other)),
                Event::Alive(false),
                Event::Done,
                Event::Spawned(pid),
                Event::Done,
            ],
        ) == seq![
            Action::ReadPidFile,
            Action::CheckAlive(old_pid),
            Action::RemovePidFile,
            Action::TakeStartLock,
            Action::ReadPidFile,
            Action::CheckAlive(other),
            Action::RemovePidFile,
            Action::Spawn,
            Action::WritePidFile(pid),
            Action::Start { outcome: WatcherStart::Started(pid), tell: !options.quiet },
        ],
        actions(
            starting(options),
            StartStage::Start,
            seq![
                Event::Begin,
                Event::Pid(Some(old_pid)),
                Event::Alive(true),
            ],
        ) == seq![
            Action::ReadPidFile,
            Action::CheckAlive(old_pid),
            Action::Start { outcome: WatcherStart::AlreadyRunning(old_pid), tell: !options.quiet },
        ],
        actions(
            starting(options),
            StartStage::Start,
            seq![
                Event::Begin,
                Event::Pid(None),
                Event::Locked(true),
                Event::Pid(Some(other)),
                Event::Alive(true),
            ],
        ) == seq![
            Action::ReadPidFile,
            Action::TakeStartLock,
            Action::ReadPidFile,
            Action::CheckAlive(other),
            Action::Start { outcome: WatcherStart::AlreadyRunning(other), tell: !options.quiet },
        ],
        actions(
            starting(options),
            StartStage::Start,
            seq![
                Event::Begin,
                Event::Pid(None),
                Event::Locked(false),
            ],
        ) == seq![
            Action::ReadPidFile,
            Action::TakeStartLock,
            Action::Start { outcome: WatcherStart::AlreadyStarting, tell: !options.quiet },
        ],
{
    let row0 = seq![
        Event::Begin,
        Event::Pid(None),
        Event::Locked(true),
        Event::Pid(None),
        Event::Spawned(pid),
        Event::Done,
    ];
    lemma_step(starting(options), StartStage::Start, row0, 0);
    lemma_step(starting(options), StartStage::Start, row0, 1);
    lemma_step(starting(options), StartStage::Start, row0, 2);
    lemma_step(starting(options), StartStage::Start, row0, 3);
    lemma_step(starting(options), StartStage::Start, row0, 4);
    lemma_step(starting(options), StartStage::Start, row0, 5);
    assert(actions(starting(options), StartStage::Start, row0) =~= seq![
        Action::ReadPidFile,
        Action::TakeStartLock,
        Action::ReadPidFile,
        Action::Spawn,
        Action::WritePidFile(pid),
        Action::Start { outcome: WatcherStart::Started(pid), tell: !options.quiet },
    ]);
    let row1 = seq![
        Event::Begin,
        Event::Pid(Some(old_pid)),
        Event::Alive(false),
        Event::Done,
        Event::Locked(true),
        Event::Pid(Some(other)),
        Event::Alive(false),
        Event::Done,
        Event::Spawned(pid),
        Event::Done,
    ];
    lemma_step(starting(options), StartStage::Start, row1, 0);
    lemma_step(starting(options), StartStage::Start, row1, 1);
    lemma_step(starting(options), StartStage::Start, row1, 2);
    lemma_step(starting(options), StartStage::Start, row1, 3);
    lemma_step(starting(options), StartStage::Start, row1, 4);
    lemma_step(starting(options), StartStage::Start, row1, 5);
    lemma_step(starting(options), StartStage::Start, row1, 6);
    lemma_step(starting(options), StartStage::Start, row1, 7);
    lemma_step(starting(options), StartStage::Start, row1, 8);
    lemma_step(starting(options), StartStage::Start, row1, 9);
    assert(actions(starting(options), StartStage::Start, row1) =~= seq![
        Action::ReadPidFile,
        Action::CheckAlive(old_pid),
        Action::RemovePidFile,
        Action::TakeStartLock,
        Action::ReadPidFile,
        Action::CheckAlive(other),
        Action::RemovePidFile,
        Action::Spawn,
        Action::WritePidFile(pid),
        Action::Start { outcome: WatcherStart::Started(pid), tell: !options.quiet },
    ]);
    let row2 = seq![Event::Begin, Event::Pid(Some(old_pid)), Event::Alive(true)];
    lemma_step(starting(options), StartStage::Start, row2, 0);
    lemma_step(starting(options), StartStage::Start, row2, 1);
    lemma_step(starting(options), StartStage::Start, row2, 2);
    assert(actions(starting(options), StartStage::Start, row2) =~= seq![
        Action::ReadPidFile,
        Action::CheckAlive(old_pid),
        Action::Start { outcome: WatcherStart::AlreadyRunning(old_pid), tell: !options.quiet },
    ]);
    let row3 = seq![
        Event::Begin,
        Event::Pid(None),
        Event::Locked(true),
        Event::Pid(Some(other)),
        Event::Alive(true),
    ];
    lemma_step(starting(options), StartStage::Start, row3, 0);
    lemma_step(starting(options), StartStage::Start, row3, 1);
    lemma_step(starting(options), StartStage::Start, row3, 2);
    lemma_step(starting(options), StartStage::Start, row3, 3);
    lemma_step(starting(options), StartStage::Start, row3, 4);
    assert(actions(starting(options), StartStage::Start, row3) =~= seq![
        Action::ReadPidFile,
        Action::TakeStartLock,
        Action::ReadPidFile,
        Action::CheckAlive(other),
        Action::Start { outcome: WatcherStart::AlreadyRunning(other), tell: !options.quiet },
    ]);
    let row4 = seq![Event::Begin, Event::Pid(None), Event::Locked(false)];
    lemma_step(starting(options), StartStage::Start, row4, 0);
    lemma_step(starting(options), StartStage::Start, row4, 1);
    lemma_step(starting(options), StartStage::Start, row4, 2);
    assert(actions(starting(options), StartStage::Start, row4) =~= seq![
        Action::ReadPidFile,
        Action::TakeStartLock,
        Action::Start { outcome: WatcherStart::AlreadyStarting, tell: !options.quiet },
    ]);
}

/// A watcher that runs is told to stop and looked at until it is gone, for three seconds and
/// ten times a second; its pid file goes with it. A pid file of a process that is gone is
/// removed.
pub proof fn law_stop_runs_to_its_end(pid: u32, early: u64, late: u64)
    requires
        early < 3000,
        late >= 3000,
    ensures
        actions(
            stopping(),
            StopStage::Start,
            seq![
                Event::Begin,
                Event::Pid(None),
            ],
        ) == seq![
            Action::ReadPidFile,
            Action::Stop(WatcherStop::NotRunning),
        ],
        actions(
            stopping(),
            StopStage::Start,
            seq![
                Event::Begin,
                Event::Pid(Some(pid)),
                Event::Alive(false),
                Event::Done,
            ],
        ) == seq![
            Action::ReadPidFile,
            Action::CheckAlive(pid),
            Action::RemovePidFile,
            Action::Stop(WatcherStop::NotRunning),
        ],
        actions(
            stopping(),
            StopStage::Start,
            seq![
                Event::Begin,
                Event::Pid(Some(pid)),
                Event::Alive(true),
                Event::Done,
                Event::Elapsed(early),
                Event::Alive(false),
                Event::Done,
            ],
        ) == seq![
            Action::ReadPidFile,
            Action::CheckAlive(pid),
            Action::Terminate(pid),
            Action::ReadClock,
            Action::CheckAlive(pid),
            Action::RemovePidFile,
            Action::Stop(WatcherStop::Stopped(pid)),
        ],
        actions(
            stopping(),
            StopStage::Start,
            seq![
                Event::Begin,
                Event::Pid(Some(pid)),
                Event::Alive(true),
                Event::Done,
                Event::Elapsed(early),
                Event::Alive(true),
                Event::Done,
                Event::Elapsed(late),
            ],
        ) == seq![
            Action::ReadPidFile,
            Action::CheckAlive(pid),
            Action::Terminate(pid),
            Action::ReadClock,
            Action::CheckAlive(pid),
            Action::Sleep(100),
            Action::ReadClock,
            Action::Stop(WatcherStop::Signalled(pid)),
        ],
{
    let row0 = seq![Event::Begin, Event::Pid(None)];
    lemma_step(stopping(), StopStage::Start, row0, 0);
    lemma_step(stopping(), StopStage::Start, row0, 1);
    assert(actions(stopping(), StopStage::Start, row0) =~= seq![
        Action::ReadPidFile,
        Action::Stop(WatcherStop::NotRunning),
    ]);
    let row1 = seq![Event::Begin, Event::Pid(Some(pid)), Event::Alive(false), Event::Done];
    lemma_step(stopping(), StopStage::Start, row1, 0);
    lemma_step(stopping(), StopStage::Start, row1, 1);
    lemma_step(stopping(), StopStage::Start, row1, 2);
    lemma_step(stopping(), StopStage::Start, row1, 3);
    assert(actions(stopping(), StopStage::Start, row1) =~= seq![
        Action::ReadPidFile,
        Action::CheckAlive(pid),
        Action::RemovePidFile,
        Action::Stop(WatcherStop::NotRunning),
    ]);
    let row2 = seq![
        Event::Begin,
        Event::Pid(Some(pid)),
        Event::Alive(true),
        Event::Done,
        Event::Elapsed(early),
        Event::Alive(false),
        Event::Done,
    ];
    lemma_step(stopping(), StopStage::Start, row2, 0);
    lemma_step(stopping(), StopStage::Start, row2, 1);
    lemma_step(stopping(), StopStage::Start, row2, 2);
    lemma_step(stopping(), StopStage::Start, row2, 3);
    lemma_step(stopping(), StopStage::Start, row2, 4);
    lemma_step(stopping(), StopStage::Start, row2, 5);
    lemma_step(stopping(), StopStage::Start, row2, 6);
    assert(actions(stopping(), StopStage::Start, row2) =~= seq![
        Action::ReadPidFile,
        Action::CheckAlive(pid),
        Action::Terminate(pid),
        Action::ReadClock,
        Action::CheckAlive(pid),
        Action::RemovePidFile,
        Action::Stop(WatcherStop::Stopped(pid)),
    ]);
    let row3 = seq![
        Event::Begin,
        Event::Pid(Some(pid)),
        Event::Alive(true),
        Event::Done,
        Event::Elapsed(early),
        Event::Alive(true),
        Event::Done,
        Event::Elapsed(late),
    ];
    lemma_step(stopping(), StopStage::Start, row3, 0);
    lemma_step(stopping(), StopStage::Start, row3, 1);
    lemma_step(stopping(), StopStage::Start, row3, 2);
    lemma_step(stopping(), StopStage::Start, row3, 3);
    lemma_step(stopping(), StopStage::Start, row3, 4);
    lemma_step(stopping(), StopStage::Start, row3, 5);
    lemma_step(stopping(), StopStage::Start, row3, 6);
    lemma_step(stopping(), StopStage::Start, row3, 7);
    assert(actions(stopping(), StopStage::Start, row3) =~= seq![
        Action::ReadPidFile,
        Action::CheckAlive(pid),
        Action::Terminate(pid),
        Action::ReadClock,
        Action::CheckAlive(pid),
        Action::Sleep(100),
        Action::ReadClock,
        Action::Stop(WatcherStop::Signalled(pid)),
    ]);
}

/// A watcher writes its pid, reads the settings, and then goes round: it looks whether it
/// owns the pid file, reads the settings, syncs under the lock, and rests for what is left
/// of the interval. It ends where it does not own the pid file.
pub proof fn law_watcher_goes_round(own_pid: u32, before: u64, seconds: u64, spent: u128)
    requires
        spent < seconds * 1_000_000_000,
    ensures
        actions(
            watching(own_pid),
            WatchStage::Start,
            seq![
                Event::Begin,
                Event::Done,
                Event::Interval(before),
                Event::Owned(true),
                Event::Interval(seconds),
                Event::Locked(true),
                Event::Done,
                Event::Spent(spent),
                Event::Done,
                Event::Owned(false),
            ],
        ) == seq![
            Action::WritePidFile(own_pid),
            Action::LoadConfig,
            Action::ReadPidFile,
            Action::LoadConfig,
            Action::TakeSyncLock(0),
            Action::Sync,
            Action::ReadClock,
            Action::Rest((seconds * 1_000_000_000 - spent) as u128),
            Action::ReadPidFile,
            Action::Disowned,
        ],
{
    let row0 = seq![
        Event::Begin,
        Event::Done,
        Event::Interval(before),
        Event::Owned(true),
        Event::Interval(seconds),
        Event::Locked(true),
        Event::Done,
        Event::Spent(spent),
        Event::Done,
        Event::Owned(false),
    ];
    lemma_step(watching(own_pid), WatchStage::Start, row0, 0);
    lemma_step(watching(own_pid), WatchStage::Start, row0, 1);
    lemma_step(watching(own_pid), WatchStage::Start, row0, 2);
    lemma_step(watching(own_pid), WatchStage::Start, row0, 3);
    lemma_step(watching(own_pid), WatchStage::Start, row0, 4);
    lemma_step(watching(own_pid), WatchStage::Start, row0, 5);
    lemma_step(watching(own_pid), WatchStage::Start, row0, 6);
    lemma_step(watching(own_pid), WatchStage::Start, row0, 7);
    lemma_step(watching(own_pid), WatchStage::Start, row0, 8);
    lemma_step(watching(own_pid), WatchStage::Start, row0, 9);
    assert(actions(watching(own_pid), WatchStage::Start, row0) =~= seq![
        Action::WritePidFile(own_pid),
        Action::LoadConfig,
        Action::ReadPidFile,
        Action::LoadConfig,
        Action::TakeSyncLock(0),
        Action::Sync,
        Action::ReadClock,
        Action::Rest((seconds * 1_000_000_000 - spent) as u128),
        Action::ReadPidFile,
        Action::Disowned,
    ]);
}

/// A watcher whose sync failed and took all of the interval goes round again without a rest.
pub proof fn law_watcher_goes_on_after_failures(own_pid: u32, before: u64, seconds: u64, spent: u128)
    requires
        spent >= seconds * 1_000_000_000,
    ensures
        actions(
            watching(own_pid),
            WatchStage::Start,
            seq![
                Event::Begin,
                Event::Done,
                Event::Interval(before),
                Event::Owned(true),
                Event::Interval(seconds),
                Event::Locked(true),
                Event::Failed,
                Event::Spent(spent),
                Event::Owned(true),
                Event::Interval(seconds),
            ],
        ) == seq![
            Action::WritePidFile(own_pid),
            Action::LoadConfig,
            Action::ReadPidFile,
            Action::LoadConfig,
            Action::TakeSyncLock(0),
            Action::Sync,
            Action::ReadClock,
            Action::ReadPidFile,
            Action::LoadConfig,
            Action::TakeSyncLock(0),
        ],
{
    let row0 = seq![
        Event::Begin,
        Event::Done,
        Event::Interval(before),
        Event::Owned(true),
        Event::Interval(seconds),
        Event::Locked(true),
        Event::Failed,
        Event::Spent(spent),
        Event::Owned(true),
        Event::Interval(seconds),
    ];
    lemma_step(watching(own_pid), WatchStage::Start, row0, 0);
    lemma_step(watching(own_pid), WatchStage::Start, row0, 1);
    lemma_step(watching(own_pid), WatchStage::Start, row0, 2);
    lemma_step(watching(own_pid), WatchStage::Start, row0, 3);
    lemma_step(watching(own_pid), WatchStage::Start, row0, 4);
    lemma_step(watching(own_pid), WatchStage::Start, row0, 5);
    lemma_step(watching(own_pid), WatchStage::Start, row0, 6);
    lemma_step(watching(own_pid), WatchStage::Start, row0, 7);
    lemma_step(watching(own_pid), WatchStage::Start, row0, 8);
    lemma_step(watching(own_pid), WatchStage::Start, row0, 9);
    assert(actions(watching(own_pid), WatchStage::Start, row0) =~= seq![
        Action::WritePidFile(own_pid),
        Action::LoadConfig,
        Action::ReadPidFile,
        Action::LoadConfig,
        Action::TakeSyncLock(0),
        Action::Sync,
        Action::ReadClock,
        Action::ReadPidFile,
        Action::LoadConfig,
        Action::TakeSyncLock(0),
    ]);
}

/// A watcher that does not get the lock goes round again as after a sync.
pub proof fn law_watcher_goes_on_without_the_lock(own_pid: u32, before: u64, seconds: u64, spent: u128)
    requires
        spent >= seconds * 1_000_000_000,
    ensures
        actions(
            watching(own_pid),
            WatchStage::Start,
            seq![
                Event::Begin,
                Event::Done,
                Event::Interval(before),
                Event::Owned(true),
                Event::Interval(seconds),
                Event::Locked(false),
                Event::Spent(spent),
            ],
        ) == seq![
            Action::WritePidFile(own_pid),
            Action::LoadConfig,
            Action::ReadPidFile,
            Action::LoadConfig,
            Action::TakeSyncLock(0),
            Action::ReadClock,
            Action::ReadPidFile,
        ],
        actions(
            watching(own_pid),
            WatchStage::Start,
            seq![
                Event::Begin,
                Event::Done,
                Event::Interval(before),
                Event::Owned(true),
                Event::Interval(seconds),
                Event::Failed,
                Event::Spent(spent),
            ],
        ) == seq![
            Action::WritePidFile(own_pid),
            Action::LoadConfig,
            Action::ReadPidFile,
            Action::LoadConfig,
            Action::TakeSyncLock(0),
            Action::ReadClock,
            Action::ReadPidFile,
        ],
{
    let row0 = seq![
        Event::Begin,
        Event::Done,
        Event::Interval(before),
        Event::Owned(true),
        Event::Interval(seconds),
        Event::Locked(false),
        Event::Spent(spent),
    ];
    lemma_step(watching(own_pid), WatchStage::Start, row0, 0);
    lemma_step(watching(own_pid), WatchStage::Start, row0, 1);
    lemma_step(watching(own_pid), WatchStage::Start, row0, 2);
    lemma_step(watching(own_pid), WatchStage::Start, row0, 3);
    lemma_step(watching(own_pid), WatchStage::Start, row0, 4);
    lemma_step(watching(own_pid), WatchStage::Start, row0, 5);
    lemma_step(watching(own_pid), WatchStage::Start, row0, 6);
    assert(actions(watching(own_pid), WatchStage::Start, row0) =~= seq![
        Action::WritePidFile(own_pid),
        Action::LoadConfig,
        Action::ReadPidFile,
        Action::LoadConfig,
        Action::TakeSyncLock(0),
        Action::ReadClock,
        Action::ReadPidFile,
    ]);
    let row1 = seq![
        Event::Begin,
        Event::Done,
        Event::Interval(before),
        Event::Owned(true),
        Event::Interval(seconds),
        Event::Failed,
        Event::Spent(spent),
    ];
    lemma_step(watching(own_pid), WatchStage::Start, row1, 0);
    lemma_step(watching(own_pid), WatchStage::Start, row1, 1);
    lemma_step(watching(own_pid), WatchStage::Start, row1, 2);
    lemma_step(watching(own_pid), WatchStage::Start, row1, 3);
    lemma_step(watching(own_pid), WatchStage::Start, row1, 4);
    lemma_step(watching(own_pid), WatchStage::Start, row1, 5);
    lemma_step(watching(own_pid), WatchStage::Start, row1, 6);
    assert(actions(watching(own_pid), WatchStage::Start, row1) =~= seq![
        Action::WritePidFile(own_pid),
        Action::LoadConfig,
        Action::ReadPidFile,
        Action::LoadConfig,
        Action::TakeSyncLock(0),
        Action::ReadClock,
        Action::ReadPidFile,
    ]);
}

/// After an event there is a sync under the lock, and a stamp where it went well: unless the
/// last one was less than a quarter of a second ago, by the first look or by the one under
/// the lock, or another sync runs.
pub proof fn law_event_sync_runs_to_its_end(long: u128, short: u128)
    requires
        long >= 250_000_000,
        short < 250_000_000,
    ensures
        actions(
            after_events(),
            EventStage::Start,
            seq![
                Event::Begin,
                Event::Written(Stamp::Ago(long)),
                Event::Locked(true),
                Event::Written(Stamp::Ago(long)),
                Event::Done,
                Event::Done,
            ],
        ) == seq![
            Action::ReadEventStamp,
            Action::TakeSyncLock(0),
            Action::ReadEventStamp,
            Action::Sync,
            Action::WriteEventStamp,
            Action::Finish,
        ],
        actions(
            after_events(),
            EventStage::Start,
            seq![
                Event::Begin,
                Event::Written(Stamp::Missing),
                Event::Locked(true),
                Event::Written(Stamp::Missing),
                Event::Done,
                Event::Done,
            ],
        ) == seq![
            Action::ReadEventStamp,
            Action::TakeSyncLock(0),
            Action::ReadEventStamp,
            Action::Sync,
            Action::WriteEventStamp,
            Action::Finish,
        ],
        actions(
            after_events(),
            EventStage::Start,
            seq![
                Event::Begin,
                Event::Written(Stamp::Ago(short)),
            ],
        ) == seq![
            Action::ReadEventStamp,
            Action::Finish,
        ],
        actions(
            after_events(),
            EventStage::Start,
            seq![
                Event::Begin,
                Event::Written(Stamp::Ahead),
            ],
        ) == seq![
            Action::ReadEventStamp,
            Action::Finish,
        ],
        actions(
            after_events(),
            EventStage::Start,
            seq![
                Event::Begin,
                Event::Written(Stamp::Ago(long)),
                Event::Locked(true),
                Event::Written(Stamp::Ago(short)),
            ],
        ) == seq![
            Action::ReadEventStamp,
            Action::TakeSyncLock(0),
            Action::ReadEventStamp,
            Action::Finish,
        ],
        actions(
            after_events(),
            EventStage::Start,
            seq![
                Event::Begin,
                Event::Written(Stamp::Ago(long)),
                Event::Locked(false),
            ],
        ) == seq![
            Action::ReadEventStamp,
            Action::TakeSyncLock(0),
            Action::Finish,
        ],
        actions(
            after_events(),
            EventStage::Start,
            seq![
                Event::Begin,
                Event::Written(Stamp::Ago(long)),
                Event::Locked(true),
                Event::Written(Stamp::Ago(long)),
                Event::Failed,
            ],
        ) == seq![
            Action::ReadEventStamp,
            Action::TakeSyncLock(0),
            Action::ReadEventStamp,
            Action::Sync,
            Action::Fail,
        ],
{
    let row0 = seq![
        Event::Begin,
        Event::Written(Stamp::Ago(long)),
        Event::Locked(true),
        Event::Written(Stamp::Ago(long)),
        Event::Done,
        Event::Done,
    ];
    lemma_step(after_events(), EventStage::Start, row0, 0);
    lemma_step(after_events(), EventStage::Start, row0, 1);
    lemma_step(after_events(), EventStage::Start, row0, 2);
    lemma_step(after_events(), EventStage::Start, row0, 3);
    lemma_step(after_events(), EventStage::Start, row0, 4);
    lemma_step(after_events(), EventStage::Start, row0, 5);
    assert(actions(after_events(), EventStage::Start, row0) =~= seq![
        Action::ReadEventStamp,
        Action::TakeSyncLock(0),
        Action::ReadEventStamp,
        Action::Sync,
        Action::WriteEventStamp,
        Action::Finish,
    ]);
    let row1 = seq![
        Event::Begin,
        Event::Written(Stamp::Missing),
        Event::Locked(true),
        Event::Written(Stamp::Missing),
        Event::Done,
        Event::Done,
    ];
    lemma_step(after_events(), EventStage::Start, row1, 0);
    lemma_step(after_events(), EventStage::Start, row1, 1);
    lemma_step(after_events(), EventStage::Start, row1, 2);
    lemma_step(after_events(), EventStage::Start, row1, 3);
    lemma_step(after_events(), EventStage::Start, row1, 4);
    lemma_step(after_events(), EventStage::Start, row1, 5);
    assert(actions(after_events(), EventStage::Start, row1) =~= seq![
        Action::ReadEventStamp,
        Action::TakeSyncLock(0),
        Action::ReadEventStamp,
        Action::Sync,
        Action::WriteEventStamp,
        Action::Finish,
    ]);
    let row2 = seq![Event::Begin, Event::Written(Stamp::Ago(short))];
    lemma_step(after_events(), EventStage::Start, row2, 0);
    lemma_step(after_events(), EventStage::Start, row2, 1);
    assert(actions(after_events(), EventStage::Start, row2) =~= seq![
        Action::ReadEventStamp,
        Action::Finish,
    ]);
    let row3 = seq![Event::Begin, Event::Written(Stamp::Ahead)];
    lemma_step(after_events(), EventStage::Start, row3, 0);
    lemma_step(after_events(), EventStage::Start, row3, 1);
    assert(actions(after_events(), EventStage::Start, row3) =~= seq![
        Action::ReadEventStamp,
        Action::Finish,
    ]);
    let row4 = seq![
        Event::Begin,
        Event::Written(Stamp::Ago(long)),
        Event::Locked(true),
        Event::Written(Stamp::Ago(short)),
    ];
    lemma_step(after_events(), EventStage::Start, row4, 0);
    lemma_step(after_events(), EventStage::Start, row4, 1);
    lemma_step(after_events(), EventStage::Start, row4, 2);
    lemma_step(after_events(), EventStage::Start, row4, 3);
    assert(actions(after_events(), EventStage::Start, row4) =~= seq![
        Action::ReadEventStamp,
        Action::TakeSyncLock(0),
        Action::ReadEventStamp,
        Action::Finish,
    ]);
    let row5 = seq![Event::Begin, Event::Written(Stamp::Ago(long)), Event::Locked(false)];
    lemma_step(after_events(), EventStage::Start, row5, 0);
    lemma_step(after_events(), EventStage::Start, row5, 1);
    lemma_step(after_events(), EventStage::Start, row5, 2);
    assert(actions(after_events(), EventStage::Start, row5) =~= seq![
        Action::ReadEventStamp,
        Action::TakeSyncLock(0),
        Action::Finish,
    ]);
    let row6 = seq![
        Event::Begin,
        Event::Written(Stamp::Ago(long)),
        Event::Locked(true),
        Event::Written(Stamp::Ago(long)),
        Event::Failed,
    ];
    lemma_step(after_events(), EventStage::Start, row6, 0);
    lemma_step(after_events(), EventStage::Start, row6, 1);
    lemma_step(after_events(), EventStage::Start, row6, 2);
    lemma_step(after_events(), EventStage::Start, row6, 3);
    lemma_step(after_events(), EventStage::Start, row6, 4);
    assert(actions(after_events(), EventStage::Start, row6) =~= seq![
        Action::ReadEventStamp,
        Action::TakeSyncLock(0),
        Action::ReadEventStamp,
        Action::Sync,
        Action::Fail,
    ]);
}

/// A sync that the user asks for is made under the lock, for which it waits two seconds.
pub proof fn law_requested_sync_runs_to_its_end()
    ensures
        actions(
            requesting(),
            RequestedStage::Start,
            seq![
                Event::Begin,
                Event::Locked(true),
                Event::Done,
            ],
        ) == seq![
            Action::TakeSyncLock(2000),
            Action::Sync,
            Action::Finish,
        ],
        actions(
            requesting(),
            RequestedStage::Start,
            seq![
                Event::Begin,
                Event::Locked(true),
                Event::Failed,
            ],
        ) == seq![
            Action::TakeSyncLock(2000),
            Action::Sync,
            Action::Fail,
        ],
        actions(
            requesting(),
            RequestedStage::Start,
            seq![
                Event::Begin,
                Event::Locked(false),
            ],
        ) == seq![
            Action::TakeSyncLock(2000),
            Action::Busy,
        ],
{
    let row0 = seq![Event::Begin, Event::Locked(true), Event::Done];
    lemma_step(requesting(), RequestedStage::Start, row0, 0);
    lemma_step(requesting(), RequestedStage::Start, row0, 1);
    lemma_step(requesting(), RequestedStage::Start, row0, 2);
    assert(actions(requesting(), RequestedStage::Start, row0) =~= seq![
        Action::TakeSyncLock(2000),
        Action::Sync,
        Action::Finish,
    ]);
    let row1 = seq![Event::Begin, Event::Locked(true), Event::Failed];
    lemma_step(requesting(), RequestedStage::Start, row1, 0);
    lemma_step(requesting(), RequestedStage::Start, row1, 1);
    lemma_step(requesting(), RequestedStage::Start, row1, 2);
    assert(actions(requesting(), RequestedStage::Start, row1) =~= seq![
        Action::TakeSyncLock(2000),
        Action::Sync,
        Action::Fail,
    ]);
    let row2 = seq![Event::Begin, Event::Locked(false)];
    lemma_step(requesting(), RequestedStage::Start, row2, 0);
    lemma_step(requesting(), RequestedStage::Start, row2, 1);
    assert(actions(requesting(), RequestedStage::Start, row2) =~= seq![
        Action::TakeSyncLock(2000),
        Action::Busy,
    ]);
}

/// The start lock is taken where its file is not there. Where it is, the lock is another's as
/// long as a watcher runs; else it is looked at again after a twentieth of a second, and
/// after two seconds the file is removed.
pub proof fn law_start_lock_is_taken_in_turn(pid: u32, early: u64, late: u64)
    requires
        early < 2000,
        late >= 2000,
    ensures
        actions(
            taking_start_lock(),
            LockStage::Start,
            seq![
                Event::Begin,
                Event::Created,
                Event::Done,
            ],
        ) == seq![
            Action::CreateLock,
            Action::SignLock,
            Action::Acquired,
        ],
        actions(
            taking_start_lock(),
            LockStage::Start,
            seq![
                Event::Begin,
                Event::Exists,
                Event::Pid(Some(pid)),
                Event::Alive(true),
            ],
        ) == seq![
            Action::CreateLock,
            Action::ReadPidFile,
            Action::CheckAlive(pid),
            Action::Busy,
        ],
        actions(
            taking_start_lock(),
            LockStage::Start,
            seq![
                Event::Begin,
                Event::Exists,
                Event::Pid(Some(pid)),
                Event::Alive(false),
                Event::Elapsed(early),
                Event::Done,
                Event::Created,
            ],
        ) == seq![
            Action::CreateLock,
            Action::ReadPidFile,
            Action::CheckAlive(pid),
            Action::ReadClock,
            Action::Sleep(50),
            Action::CreateLock,
            Action::SignLock,
        ],
        actions(
            taking_start_lock(),
            LockStage::Start,
            seq![
                Event::Begin,
                Event::Exists,
                Event::Pid(None),
                Event::Elapsed(late),
                Event::Done,
                Event::Created,
            ],
        ) == seq![
            Action::CreateLock,
            Action::ReadPidFile,
            Action::ReadClock,
            Action::RemoveLock,
            Action::CreateLock,
            Action::SignLock,
        ],
{
    let row0 = seq![Event::Begin, Event::Created, Event::Done];
    lemma_step(taking_start_lock(), LockStage::Start, row0, 0);
    lemma_step(taking_start_lock(), LockStage::Start, row0, 1);
    lemma_step(taking_start_lock(), LockStage::Start, row0, 2);
    assert(actions(taking_start_lock(), LockStage::Start, row0) =~= seq![
        Action::CreateLock,
        Action::SignLock,
        Action::Acquired,
    ]);
    let row1 = seq![Event::Begin, Event::Exists, Event::Pid(Some(pid)), Event::Alive(true)];
    lemma_step(taking_start_lock(), LockStage::Start, row1, 0);
    lemma_step(taking_start_lock(), LockStage::Start, row1, 1);
    lemma_step(taking_start_lock(), LockStage::Start, row1, 2);
    lemma_step(taking_start_lock(), LockStage::Start, row1, 3);
    assert(actions(taking_start_lock(), LockStage::Start, row1) =~= seq![
        Action::CreateLock,
        Action::ReadPidFile,
        Action::CheckAlive(pid),
        Action::Busy,
    ]);
    let row2 = seq![
        Event::Begin,
        Event::Exists,
        Event::Pid(Some(pid)),
        Event::Alive(false),
        Event::Elapsed(early),
        Event::Done,
        Event::Created,
    ];
    lemma_step(taking_start_lock(), LockStage::Start, row2, 0);
    lemma_step(taking_start_lock(), LockStage::Start, row2, 1);
    lemma_step(taking_start_lock(), LockStage::Start, row2, 2);
    lemma_step(taking_start_lock(), LockStage::Start, row2, 3);
    lemma_step(taking_start_lock(), LockStage::Start, row2, 4);
    lemma_step(taking_start_lock(), LockStage::Start, row2, 5);
    lemma_step(taking_start_lock(), LockStage::Start, row2, 6);
    assert(actions(taking_start_lock(), LockStage::Start, row2) =~= seq![
        Action::CreateLock,
        Action::ReadPidFile,
        Action::CheckAlive(pid),
        Action::ReadClock,
        Action::Sleep(50),
        Action::CreateLock,
        Action::SignLock,
    ]);
    let row3 = seq![
        Event::Begin,
        Event::Exists,
        Event::Pid(None),
        Event::Elapsed(late),
        Event::Done,
        Event::Created,
    ];
    lemma_step(taking_start_lock(), LockStage::Start, row3, 0);
    lemma_step(taking_start_lock(), LockStage::Start, row3, 1);
    lemma_step(taking_start_lock(), LockStage::Start, row3, 2);
    lemma_step(taking_start_lock(), LockStage::Start, row3, 3);
    lemma_step(taking_start_lock(), LockStage::Start, row3, 4);
    lemma_step(taking_start_lock(), LockStage::Start, row3, 5);
    assert(actions(taking_start_lock(), LockStage::Start, row3) =~= seq![
        Action::CreateLock,
        Action::ReadPidFile,
        Action::ReadClock,
        Action::RemoveLock,
        Action::CreateLock,
        Action::SignLock,
    ]);
}

/// The sync lock is taken where its file is not there. Where it is, and not older than half
/// a minute, it is waited for as long as there is time, with forty looks a second; an older
/// one is removed before that. Without time to wait the lock is another's.
pub proof fn law_sync_lock_is_taken_in_turn(wait_ms: u64, young: u128, left_behind: u128, early: u64, late: u64)
    requires
        wait_ms > 0,
        young <= 30_000_000_000,
        left_behind > 30_000_000_000,
        early < wait_ms,
        late >= wait_ms,
    ensures
        actions(
            taking_sync_lock(wait_ms),
            LockStage::Start,
            seq![
                Event::Begin,
                Event::Created,
                Event::Done,
            ],
        ) == seq![
            Action::CreateLock,
            Action::SignLock,
            Action::Acquired,
        ],
        actions(
            taking_sync_lock(wait_ms),
            LockStage::Start,
            seq![
                Event::Begin,
                Event::Exists,
                Event::Written(Stamp::Ago(young)),
                Event::Elapsed(early),
                Event::Done,
                Event::Created,
            ],
        ) == seq![
            Action::CreateLock,
            Action::ReadLockStamp,
            Action::ReadClock,
            Action::Sleep(25),
            Action::CreateLock,
            Action::SignLock,
        ],
        actions(
            taking_sync_lock(wait_ms),
            LockStage::Start,
            seq![
                Event::Begin,
                Event::Exists,
                Event::Written(Stamp::Ago(young)),
                Event::Elapsed(late),
            ],
        ) == seq![
            Action::CreateLock,
            Action::ReadLockStamp,
            Action::ReadClock,
            Action::Busy,
        ],
        actions(
            taking_sync_lock(wait_ms),
            LockStage::Start,
            seq![
                Event::Begin,
                Event::Exists,
                Event::Written(Stamp::Ago(left_behind)),
                Event::Done,
                Event::Elapsed(early),
                Event::Done,
            ],
        ) == seq![
            Action::CreateLock,
            Action::ReadLockStamp,
            Action::RemoveLock,
            Action::ReadClock,
            Action::Sleep(25),
            Action::CreateLock,
        ],
        actions(
            taking_sync_lock(wait_ms),
            LockStage::Start,
            seq![
                Event::Begin,
                Event::Exists,
                Event::Written(Stamp::Missing),
                Event::Elapsed(late),
            ],
        ) == seq![
            Action::CreateLock,
            Action::ReadLockStamp,
            Action::ReadClock,
            Action::Busy,
        ],
        actions(
            taking_sync_lock(wait_ms),
            LockStage::Start,
            seq![
                Event::Begin,
                Event::Exists,
                Event::Written(Stamp::Ahead),
                Event::Elapsed(late),
            ],
        ) == seq![
            Action::CreateLock,
            Action::ReadLockStamp,
            Action::ReadClock,
            Action::Busy,
        ],
{
    let row0 = seq![Event::Begin, Event::Created, Event::Done];
    lemma_step(taking_sync_lock(wait_ms), LockStage::Start, row0, 0);
    lemma_step(taking_sync_lock(wait_ms), LockStage::Start, row0, 1);
    lemma_step(taking_sync_lock(wait_ms), LockStage::Start, row0, 2);
    assert(actions(taking_sync_lock(wait_ms), LockStage::Start, row0) =~= seq![
        Action::CreateLock,
        Action::SignLock,
        Action::Acquired,
    ]);
    let row1 = seq![
        Event::Begin,
        Event::Exists,
        Event::Written(Stamp::Ago(young)),
        Event::Elapsed(early),
        Event::Done,
        Event::Created,
    ];
    lemma_step(taking_sync_lock(wait_ms), LockStage::Start, row1, 0);
    lemma_step(taking_sync_lock(wait_ms), LockStage::Start, row1, 1);
    lemma_step(taking_sync_lock(wait_ms), LockStage::Start, row1, 2);
    lemma_step(taking_sync_lock(wait_ms), LockStage::Start, row1, 3);
    lemma_step(taking_sync_lock(wait_ms), LockStage::Start, row1, 4);
    lemma_step(taking_sync_lock(wait_ms), LockStage::Start, row1, 5);
    assert(actions(taking_sync_lock(wait_ms), LockStage::Start, row1) =~= seq![
        Action::CreateLock,
        Action::ReadLockStamp,
        Action::ReadClock,
        Action::Sleep(25),
        Action::CreateLock,
        Action::SignLock,
    ]);
    let row2 = seq![
        Event::Begin,
        Event::Exists,
        Event::Written(Stamp::Ago(young)),
        Event::Elapsed(late),
    ];
    lemma_step(taking_sync_lock(wait_ms), LockStage::Start, row2, 0);
    lemma_step(taking_sync_lock(wait_ms), LockStage::Start, row2, 1);
    lemma_step(taking_sync_lock(wait_ms), LockStage::Start, row2, 2);
    lemma_step(taking_sync_lock(wait_ms), LockStage::Start, row2, 3);
    assert(actions(taking_sync_lock(wait_ms), LockStage::Start, row2) =~= seq![
        Action::CreateLock,
        Action::ReadLockStamp,
        Action::ReadClock,
        Action::Busy,
    ]);
    let row3 = seq![
        Event::Begin,
        Event::Exists,
        Event::Written(Stamp::Ago(left_behind)),
        Event::Done,
        Event::Elapsed(early),
        Event::Done,
    ];
    lemma_step(taking_sync_lock(wait_ms), LockStage::Start, row3, 0);
    lemma_step(taking_sync_lock(wait_ms), LockStage::Start, row3, 1);
    lemma_step(taking_sync_lock(wait_ms), LockStage::Start, row3, 2);
    lemma_step(taking_sync_lock(wait_ms), LockStage::Start, row3, 3);
    lemma_step(taking_sync_lock(wait_ms), LockStage::Start, row3, 4);
    lemma_step(taking_sync_lock(wait_ms), LockStage::Start, row3, 5);
    assert(actions(taking_sync_lock(wait_ms), LockStage::Start, row3) =~= seq![
        Action::CreateLock,
        Action::ReadLockStamp,
        Action::RemoveLock,
        Action::ReadClock,
        Action::Sleep(25),
        Action::CreateLock,
    ]);
    let row4 = seq![
        Event::Begin,
        Event::Exists,
        Event::Written(Stamp::Missing),
        Event::Elapsed(late),
    ];
    lemma_step(taking_sync_lock(wait_ms), LockStage::Start, row4, 0);
    lemma_step(taking_sync_lock(wait_ms), LockStage::Start, row4, 1);
    lemma_step(taking_sync_lock(wait_ms), LockStage::Start, row4, 2);
    lemma_step(taking_sync_lock(wait_ms), LockStage::Start, row4, 3);
    assert(actions(taking_sync_lock(wait_ms), LockStage::Start, row4) =~= seq![
        Action::CreateLock,
        Action::ReadLockStamp,
        Action::ReadClock,
        Action::Busy,
    ]);
    let row5 = seq![
        Event::Begin,
        Event::Exists,
        Event::Written(Stamp::Ahead),
        Event::Elapsed(late),
    ];
    lemma_step(taking_sync_lock(wait_ms), LockStage::Start, row5, 0);
    lemma_step(taking_sync_lock(wait_ms), LockStage::Start, row5, 1);
    lemma_step(taking_sync_lock(wait_ms), LockStage::Start, row5, 2);
    lemma_step(taking_sync_lock(wait_ms), LockStage::Start, row5, 3);
    assert(actions(taking_sync_lock(wait_ms), LockStage::Start, row5) =~= seq![
        Action::CreateLock,
        Action::ReadLockStamp,
        Action::ReadClock,
        Action::Busy,
    ]);
}

/// Without time to wait, a sync lock that is there is another's, also where it was left
/// behind and is removed.
pub proof fn law_sync_lock_is_left_without_time(young: u128, left_behind: u128)
    requires
        young <= 30_000_000_000,
        left_behind > 30_000_000_000,
    ensures
        actions(
            taking_sync_lock(0),
            LockStage::Start,
            seq![
                Event::Begin,
                Event::Created,
                Event::Done,
            ],
        ) == seq![
            Action::CreateLock,
            Action::SignLock,
            Action::Acquired,
        ],
        actions(
            taking_sync_lock(0),
            LockStage::Start,
            seq![
                Event::Begin,
                Event::Exists,
                Event::Written(Stamp::Ago(young)),
            ],
        ) == seq![
            Action::CreateLock,
            Action::ReadLockStamp,
            Action::Busy,
        ],
        actions(
            taking_sync_lock(0),
            LockStage::Start,
            seq![
                Event::Begin,
                Event::Exists,
                Event::Written(Stamp::Ago(left_behind)),
                Event::Done,
            ],
        ) == seq![
            Action::CreateLock,
            Action::ReadLockStamp,
            Action::RemoveLock,
            Action::Busy,
        ],
{
    let row0 = seq![Event::Begin, Event::Created, Event::Done];
    lemma_step(taking_sync_lock(0), LockStage::Start, row0, 0);
    lemma_step(taking_sync_lock(0), LockStage::Start, row0, 1);
    lemma_step(taking_sync_lock(0), LockStage::Start, row0, 2);
    assert(actions(taking_sync_lock(0), LockStage::Start, row0) =~= seq![
        Action::CreateLock,
        Action::SignLock,
        Action::Acquired,
    ]);
    let row1 = seq![Event::Begin, Event::Exists, Event::Written(Stamp::Ago(young))];
    lemma_step(taking_sync_lock(0), LockStage::Start, row1, 0);
    lemma_step(taking_sync_lock(0), LockStage::Start, row1, 1);
    lemma_step(taking_sync_lock(0), LockStage::Start, row1, 2);
    assert(actions(taking_sync_lock(0), LockStage::Start, row1) =~= seq![
        Action::CreateLock,
        Action::ReadLockStamp,
        Action::Busy,
    ]);
    let row2 = seq![
        Event::Begin,
        Event::Exists,
        Event::Written(Stamp::Ago(left_behind)),
        Event::Done,
    ];
    lemma_step(taking_sync_lock(0), LockStage::Start, row2, 0);
    lemma_step(taking_sync_lock(0), LockStage::Start, row2, 1);
    lemma_step(taking_sync_lock(0), LockStage::Start, row2, 2);
    lemma_step(taking_sync_lock(0), LockStage::Start, row2, 3);
    assert(actions(taking_sync_lock(0), LockStage::Start, row2) =~= seq![
        Action::CreateLock,
        Action::ReadLockStamp,
        Action::RemoveLock,
        Action::Busy,
    ]);
}

/// What fails ends what it belongs to, whatever was waited for. Only a watcher goes on,
/// where it is its lock or its sync that failed.
pub proof fn law_failures_end_the_machines(
    a: StartStage,
    b: StopStage,
    c: WatchStage,
    d: EventStage,
    e: RequestedStage,
    f: LockStage,
    options: Options,
    own_pid: u32,
    wait_ms: u64,
)
    ensures
        start(a, Event::Failed, options) == (StartStage::Over, Action::Fail),
        stop(b, Event::Failed) == (StopStage::Over, Action::Fail),
        c !is Lock && c !is Sync ==> watch(c, Event::Failed, own_pid) == (
            WatchStage::Over,
            Action::Fail,
        ),
        after_event(d, Event::Failed) == (EventStage::Over, Action::Fail),
        requested(e, Event::Failed) == (RequestedStage::Over, Action::Fail),
        start_lock(f, Event::Failed) == (LockStage::Over, Action::Fail),
        sync_lock(f, Event::Failed, wait_ms) == (LockStage::Over, Action::Fail),
{
}

} // verus!
