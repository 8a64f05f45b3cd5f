use herdr_tab_title::cli::Options;
use herdr_tab_title::config::PluginConfig;
use herdr_tab_title::tab::LabelState;
use herdr_tab_title::watcher::{
    autostart, autostart_options, event_sync_recent, pause_after, process_owns_pid_file, read_pid,
    start_lock_step, start_watcher, status, stop_watcher, sync_after_event, sync_lock_is_stale,
    sync_lock_step, sync_on_request, watch_loop, write_pid, Action, Event, EventStage, LockStage,
    PidError, RequestedStage, Stamp, StartStage, StopStage, WatchStage, WatcherStart, WatcherStop,
};

const LOUD: Options = Options {
    interval: None,
    force: false,
    quiet: false,
};

fn start(events: &[Event], options: &Options) -> Action {
    let mut stage = StartStage::Start;
    let mut action = Action::Fail;
    for event in events {
        (stage, action) = start_watcher(stage, *event, options);
    }
    action
}

fn stop(events: &[Event]) -> Action {
    let mut stage = StopStage::Start;
    let mut action = Action::Fail;
    for event in events {
        (stage, action) = stop_watcher(stage, *event);
    }
    action
}

fn start_lock(events: &[Event]) -> Action {
    let mut stage = LockStage::Start;
    let mut action = Action::Fail;
    for event in events {
        (stage, action) = start_lock_step(stage, *event);
    }
    action
}

fn sync_lock(events: &[Event], wait_ms: u64) -> Action {
    let mut stage = LockStage::Start;
    let mut action = Action::Fail;
    for event in events {
        (stage, action) = sync_lock_step(stage, *event, wait_ms);
    }
    action
}

fn watch(events: &[Event]) -> Action {
    let mut stage = WatchStage::Start;
    let mut action = Action::Fail;
    for event in events {
        (stage, action) = watch_loop(stage, *event, 7);
    }
    action
}

fn after_event(events: &[Event]) -> Action {
    let mut stage = EventStage::Start;
    let mut action = Action::Fail;
    for event in events {
        (stage, action) = sync_after_event(stage, *event);
    }
    action
}

fn on_request(events: &[Event]) -> Action {
    let mut stage = RequestedStage::Start;
    let mut action = Action::Fail;
    for event in events {
        (stage, action) = sync_on_request(stage, *event);
    }
    action
}

#[test]
fn pid_files_are_read_back() {
    for pid in [0, 1, 4711, u32::MAX] {
        assert_eq!(write_pid(pid), format!("{pid}\n"));
        assert_eq!(read_pid(Some(&write_pid(pid))), Ok(Some(pid)));
    }
    assert_eq!(read_pid(None), Ok(None));
    assert_eq!(read_pid(Some(" \n")), Ok(None));
    assert_eq!(read_pid(Some("4294967296")), Err(PidError));
    assert_eq!(read_pid(Some("x")), Err(PidError));
}

#[test]
fn owner_is_the_process_in_the_pid_file() {
    assert_eq!(process_owns_pid_file(Some("12\n"), 12), Ok(true));
    assert_eq!(process_owns_pid_file(Some("12\n"), 13), Ok(false));
    assert_eq!(process_owns_pid_file(None, 13), Ok(false));
    assert_eq!(process_owns_pid_file(Some("?"), 13), Err(PidError));
}

#[test]
fn watcher_is_started_once() {
    let begin = [Event::Begin, Event::Pid(None), Event::Locked(true), Event::Pid(None)];
    assert_eq!(start(&begin[..1], &LOUD), Action::ReadPidFile);
    assert_eq!(start(&begin[..2], &LOUD), Action::TakeStartLock);
    assert_eq!(start(&begin[..3], &LOUD), Action::ReadPidFile);
    assert_eq!(start(&begin, &LOUD), Action::Spawn);
    let mut events = begin.to_vec();
    events.push(Event::Spawned(9));
    assert_eq!(start(&events, &LOUD), Action::WritePidFile(9));
    events.push(Event::Done);
    assert_eq!(
        start(&events, &LOUD),
        Action::Start {
            outcome: WatcherStart::Started(9),
            tell: true
        }
    );
}

#[test]
fn watcher_is_not_started_beside_another() {
    let quiet = autostart_options(&LOUD);
    assert!(quiet.quiet);
    assert_eq!(
        start(&[Event::Begin, Event::Pid(Some(5)), Event::Alive(true)], &quiet),
        Action::Start {
            outcome: WatcherStart::AlreadyRunning(5),
            tell: false
        }
    );
    assert_eq!(
        start(&[Event::Begin, Event::Pid(None), Event::Locked(false)], &LOUD),
        Action::Start {
            outcome: WatcherStart::AlreadyStarting,
            tell: true
        }
    );
    let gone = [
        Event::Begin,
        Event::Pid(Some(5)),
        Event::Alive(false),
        Event::Done,
        Event::Locked(true),
        Event::Pid(Some(6)),
        Event::Alive(false),
        Event::Done,
    ];
    assert_eq!(start(&gone[..3], &LOUD), Action::RemovePidFile);
    assert_eq!(start(&gone[..6], &LOUD), Action::CheckAlive(6));
    assert_eq!(start(&gone[..7], &LOUD), Action::RemovePidFile);
    assert_eq!(start(&gone, &LOUD), Action::Spawn);
    assert_eq!(start(&[Event::Begin, Event::Failed], &LOUD), Action::Fail);
}

#[test]
fn running_watcher_makes_an_event_sync() {
    assert!(autostart(WatcherStart::AlreadyRunning(1)));
    assert!(!autostart(WatcherStart::Started(1)));
    assert!(!autostart(WatcherStart::AlreadyStarting));
}

#[test]
fn start_lock_is_waited_for() {
    let held = [Event::Begin, Event::Exists, Event::Pid(None)];
    assert_eq!(start_lock(&[Event::Begin, Event::Created]), Action::SignLock);
    assert_eq!(
        start_lock(&[Event::Begin, Event::Created, Event::Done]),
        Action::Acquired
    );
    assert_eq!(start_lock(&held), Action::ReadClock);
    let mut early = held.to_vec();
    early.push(Event::Elapsed(1999));
    assert_eq!(start_lock(&early), Action::Sleep(50));
    early.push(Event::Done);
    assert_eq!(start_lock(&early), Action::CreateLock);
    let mut late = held.to_vec();
    late.push(Event::Elapsed(2000));
    assert_eq!(start_lock(&late), Action::RemoveLock);
    late.push(Event::Done);
    assert_eq!(start_lock(&late), Action::CreateLock);
    assert_eq!(
        start_lock(&[Event::Begin, Event::Exists, Event::Pid(Some(3)), Event::Alive(true)]),
        Action::Busy
    );
    assert_eq!(
        start_lock(&[Event::Begin, Event::Exists, Event::Pid(Some(3)), Event::Alive(false)]),
        Action::ReadClock
    );
    assert_eq!(start_lock(&[Event::Begin, Event::Failed]), Action::Fail);
}

#[test]
fn sync_lock_is_broken_when_left_behind() {
    let young = Event::Written(Stamp::Ago(30_000_000_000));
    let old = Event::Written(Stamp::Ago(30_000_000_001));
    assert_eq!(sync_lock(&[Event::Begin, Event::Exists], 0), Action::ReadLockStamp);
    assert_eq!(sync_lock(&[Event::Begin, Event::Exists, young], 0), Action::Busy);
    assert_eq!(sync_lock(&[Event::Begin, Event::Exists, old], 0), Action::RemoveLock);
    assert_eq!(
        sync_lock(&[Event::Begin, Event::Exists, old, Event::Done], 0),
        Action::Busy
    );
    assert_eq!(
        sync_lock(&[Event::Begin, Event::Exists, old, Event::Done], 2000),
        Action::ReadClock
    );
    assert_eq!(
        sync_lock(&[Event::Begin, Event::Exists, young, Event::Elapsed(1999)], 2000),
        Action::Sleep(25)
    );
    assert_eq!(
        sync_lock(&[Event::Begin, Event::Exists, young, Event::Elapsed(2000)], 2000),
        Action::Busy
    );
    assert_eq!(
        sync_lock(&[Event::Begin, Event::Exists, young, Event::Elapsed(1), Event::Done], 2000),
        Action::CreateLock
    );
    assert_eq!(
        sync_lock(&[Event::Begin, Event::Created, Event::Done], 0),
        Action::Acquired
    );
    assert!(!sync_lock_is_stale(Stamp::Missing));
    assert!(!sync_lock_is_stale(Stamp::Ahead));
}

#[test]
fn watcher_is_stopped_and_its_pid_file_removed() {
    assert_eq!(
        stop(&[Event::Begin, Event::Pid(None)]),
        Action::Stop(WatcherStop::NotRunning)
    );
    assert_eq!(
        stop(&[Event::Begin, Event::Pid(Some(4)), Event::Alive(false)]),
        Action::RemovePidFile
    );
    assert_eq!(
        stop(&[Event::Begin, Event::Pid(Some(4)), Event::Alive(false), Event::Done]),
        Action::Stop(WatcherStop::NotRunning)
    );
    let told = [Event::Begin, Event::Pid(Some(4)), Event::Alive(true), Event::Done];
    assert_eq!(stop(&told[..3]), Action::Terminate(4));
    assert_eq!(stop(&told), Action::ReadClock);
    let mut events = told.to_vec();
    events.push(Event::Elapsed(2999));
    assert_eq!(stop(&events), Action::CheckAlive(4));
    let mut alive = events.clone();
    alive.push(Event::Alive(true));
    assert_eq!(stop(&alive), Action::Sleep(100));
    alive.push(Event::Done);
    alive.push(Event::Elapsed(3000));
    assert_eq!(stop(&alive), Action::Stop(WatcherStop::Signalled(4)));
    events.push(Event::Alive(false));
    assert_eq!(stop(&events), Action::RemovePidFile);
    events.push(Event::Done);
    assert_eq!(stop(&events), Action::Stop(WatcherStop::Stopped(4)));
}

#[test]
fn watcher_syncs_and_rests() {
    let mut events = vec![Event::Begin];
    assert_eq!(watch(&events), Action::WritePidFile(7));
    events.push(Event::Done);
    assert_eq!(watch(&events), Action::LoadConfig);
    events.push(Event::Interval(10));
    assert_eq!(watch(&events), Action::ReadPidFile);
    events.push(Event::Owned(true));
    assert_eq!(watch(&events), Action::LoadConfig);
    events.push(Event::Interval(2));
    assert_eq!(watch(&events), Action::TakeSyncLock(0));
    let mut held = events.clone();
    held.push(Event::Locked(false));
    assert_eq!(watch(&held), Action::ReadClock);
    held.push(Event::Spent(1_000_000_000));
    assert_eq!(watch(&held), Action::Rest(1_000_000_000));
    let mut broken = events.clone();
    broken.push(Event::Failed);
    assert_eq!(watch(&broken), Action::ReadClock);
    events.push(Event::Locked(true));
    assert_eq!(watch(&events), Action::Sync);
    let mut well = events.clone();
    well.push(Event::Done);
    assert_eq!(watch(&well), Action::ReadClock);
    events.push(Event::Failed);
    assert_eq!(watch(&events), Action::ReadClock);
    let mut long = events.clone();
    long.push(Event::Spent(2_000_000_000));
    assert_eq!(watch(&long), Action::ReadPidFile);
    events.push(Event::Spent(500_000_000));
    assert_eq!(watch(&events), Action::Rest(1_500_000_000));
    events.push(Event::Done);
    assert_eq!(watch(&events), Action::ReadPidFile);
    events.push(Event::Owned(false));
    assert_eq!(watch(&events), Action::Disowned);
    assert_eq!(watch(&[Event::Begin, Event::Failed]), Action::Fail);
}

#[test]
fn rest_fills_the_interval() {
    assert_eq!(pause_after(1, 0), Some(1_000_000_000));
    assert_eq!(pause_after(1, 999_999_999), Some(1));
    assert_eq!(pause_after(1, 1_000_000_000), None);
    assert_eq!(pause_after(u64::MAX, u128::MAX), None);
    assert_eq!(pause_after(u64::MAX, 0), Some(u64::MAX as u128 * 1_000_000_000));
}

#[test]
fn events_are_debounced() {
    assert!(!event_sync_recent(Stamp::Missing));
    assert!(event_sync_recent(Stamp::Ago(249_999_999)));
    assert!(!event_sync_recent(Stamp::Ago(250_000_000)));
    assert!(event_sync_recent(Stamp::Ahead));
    let fresh = Event::Written(Stamp::Ago(1));
    let old = Event::Written(Stamp::Missing);
    assert_eq!(after_event(&[Event::Begin, fresh]), Action::Finish);
    assert_eq!(after_event(&[Event::Begin, old]), Action::TakeSyncLock(0));
    assert_eq!(after_event(&[Event::Begin, old, Event::Locked(false)]), Action::Finish);
    assert_eq!(
        after_event(&[Event::Begin, old, Event::Locked(true), fresh]),
        Action::Finish
    );
    let mut events = vec![Event::Begin, old, Event::Locked(true), old];
    assert_eq!(after_event(&events), Action::Sync);
    events.push(Event::Done);
    assert_eq!(after_event(&events), Action::WriteEventStamp);
    events.push(Event::Done);
    assert_eq!(after_event(&events), Action::Finish);
    assert_eq!(
        after_event(&[Event::Begin, old, Event::Locked(true), old, Event::Failed]),
        Action::Fail
    );
}

#[test]
fn requested_sync_waits_for_another_one() {
    assert_eq!(on_request(&[Event::Begin]), Action::TakeSyncLock(2000));
    assert_eq!(on_request(&[Event::Begin, Event::Locked(false)]), Action::Busy);
    assert_eq!(on_request(&[Event::Begin, Event::Failed]), Action::Fail);
    let mut events = vec![Event::Begin, Event::Locked(true)];
    assert_eq!(on_request(&events), Action::Sync);
    let mut failed = events.clone();
    failed.push(Event::Failed);
    assert_eq!(on_request(&failed), Action::Fail);
    events.push(Event::Done);
    assert_eq!(on_request(&events), Action::Finish);
}

#[test]
fn status_tells_whether_the_watcher_runs() {
    let mut labels = LabelState::default();
    labels.labels.insert("t1".into(), "x".into());
    let report = status(Some(3), true, Some(labels), PluginConfig::default());
    assert!(report.running);
    assert_eq!(report.pid, Some(3));
    assert_eq!(report.managed_tabs, 1);
    assert_eq!(report.event_debounce_ms, 250);
    assert_eq!(report.config, PluginConfig::default());
    let report = status(None, true, None, PluginConfig::default());
    assert!(!report.running);
    assert_eq!(report.managed_tabs, 0);
    assert!(!status(Some(3), false, None, PluginConfig::default()).running);
}

/// All rows of some events, of the given length.
fn rows(events: &[Event], length: usize) -> Vec<Vec<Event>> {
    let mut all = vec![vec![Event::Begin]];
    for _ in 1..length {
        let mut longer = Vec::new();
        for row in all {
            for event in events {
                let mut next = row.clone();
                next.push(*event);
                longer.push(next);
            }
        }
        all = longer;
    }
    all
}

fn asked<S>(row: &[Event], first: S, step: impl Fn(S, Event) -> (S, Action)) -> Vec<Action> {
    let mut stage = first;
    let mut actions = Vec::new();
    for event in row {
        let (next, action) = step(stage, *event);
        stage = next;
        actions.push(action);
    }
    actions
}

#[test]
fn start_makes_one_watcher_or_none_in_every_row() {
    let events = [
        Event::Pid(None),
        Event::Pid(Some(5)),
        Event::Alive(false),
        Event::Locked(true),
        Event::Spawned(9),
        Event::Done,
    ];
    let mut started: usize = 0;
    for row in rows(&events, 7) {
        let actions = asked(&row, StartStage::Start, |stage, event| {
            start_watcher(stage, event, &LOUD)
        });
        let spawned = actions.iter().filter(|action| **action == Action::Spawn).count();
        assert!(spawned <= 1);
        for action in &actions {
            if let Action::Start { outcome, .. } = action {
                let made = matches!(outcome, WatcherStart::Started(_));
                assert_eq!(made, spawned == 1);
                assert_eq!(made, actions.contains(&Action::WritePidFile(9)));
                started += made as usize;
            }
        }
    }
    assert!(started > 0);
}

#[test]
fn event_makes_one_sync_or_none_in_every_row() {
    let events = [
        Event::Written(Stamp::Missing),
        Event::Written(Stamp::Ago(1)),
        Event::Locked(true),
        Event::Done,
        Event::Failed,
    ];
    let mut marked: usize = 0;
    for row in rows(&events, 7) {
        let actions = asked(&row, EventStage::Start, sync_after_event);
        assert!(actions.iter().filter(|action| **action == Action::Sync).count() <= 1);
        for (i, action) in actions.iter().enumerate() {
            if *action == Action::WriteEventStamp {
                assert_eq!(actions[i - 1], Action::Sync);
                assert_eq!(row[i], Event::Done);
                marked += 1;
            }
        }
    }
    assert!(marked > 0);
}

#[test]
fn stop_tells_one_watcher_or_none_in_every_row() {
    let events = [
        Event::Pid(Some(4)),
        Event::Alive(true),
        Event::Alive(false),
        Event::Elapsed(1),
        Event::Elapsed(3000),
        Event::Done,
    ];
    let mut stopped: usize = 0;
    for row in rows(&events, 7) {
        let actions = asked(&row, StopStage::Start, stop_watcher);
        let told = actions.iter().filter(|action| **action == Action::Terminate(4)).count();
        assert!(told <= 1);
        for action in &actions {
            if let Action::Stop(outcome) = action {
                assert_eq!(told == 0, *outcome == WatcherStop::NotRunning);
                stopped += told;
            }
        }
    }
    assert!(stopped > 0);
}

#[test]
fn watcher_prepares_every_sync_in_every_row() {
    let events = [
        Event::Done,
        Event::Interval(2),
        Event::Owned(true),
        Event::Locked(true),
        Event::Locked(false),
        Event::Spent(1),
    ];
    let mut synced: usize = 0;
    for row in rows(&events, 7) {
        let actions = asked(&row, WatchStage::Start, |stage, event| watch_loop(stage, event, 7));
        for (i, action) in actions.iter().enumerate() {
            if *action == Action::Sync {
                assert_eq!(
                    actions[i - 3..i],
                    [Action::ReadPidFile, Action::LoadConfig, Action::TakeSyncLock(0)]
                );
                assert_eq!(row[i - 2], Event::Owned(true));
                assert_eq!(row[i], Event::Locked(true));
                synced += 1;
            }
        }
    }
    assert!(synced > 0);
}

#[test]
fn locks_are_made_by_their_holders_in_every_row() {
    let events = [
        Event::Created,
        Event::Exists,
        Event::Pid(None),
        Event::Written(Stamp::Ago(1)),
        Event::Elapsed(1),
        Event::Done,
    ];
    let mut taken: usize = 0;
    for row in rows(&events, 6) {
        let start = asked(&row, LockStage::Start, start_lock_step);
        let sync = asked(&row, LockStage::Start, |stage, event| {
            sync_lock_step(stage, event, 2000)
        });
        for actions in [start, sync] {
            for (i, action) in actions.iter().enumerate() {
                if *action == Action::Acquired {
                    assert_eq!(actions[i - 2..i], [Action::CreateLock, Action::SignLock]);
                    assert_eq!(row[i - 1..=i], [Event::Created, Event::Done]);
                    taken += 1;
                }
            }
        }
    }
    assert!(taken > 0);
}
