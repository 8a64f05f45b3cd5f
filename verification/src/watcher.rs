//! The watcher: how it is started, stopped and kept single, the locks that are taken
//! for that, and how often it syncs.
//!
//! What has to wait for the outside is written as machines: a step takes the stage
//! and what has happened, and gives the next stage and what is to be done.
use crate::cli::Options;
use crate::config::PluginConfig;
use crate::number::{
    decimal, lemma_decimal_denotes, lemma_decimal_is_read_back, parse, parse_u32, to_decimal,
};
use crate::tab::LabelState;
use crate::text::{
    is_blank_text, is_digit, is_space, law_trimming_takes_white_space_off, str_of, trim, trim_end,
    trim_start, trimmed,
};
use vstd::prelude::*;
use vstd::string::StrSliceExecFns;

verus! {

/// How long the start of a watcher waits for another one that is starting, in
/// milliseconds.
pub const START_LOCK_WAIT_MS: u64 = 2000;

/// The time between two looks at the start lock, in milliseconds.
pub const START_LOCK_PAUSE_MS: u64 = 50;

/// The time between two looks at the sync lock, in milliseconds.
pub const SYNC_LOCK_PAUSE_MS: u64 = 25;

/// How long a sync that the user asks for waits for another one, in milliseconds.
pub const REQUESTED_SYNC_WAIT_MS: u64 = 2000;

/// The age from which on a sync lock counts as left behind, in seconds.
pub const SYNC_LOCK_STALE_SECS: u64 = 30;

/// The time in which events cause no second sync, in milliseconds.
pub const EVENT_SYNC_DEBOUNCE_MS: u64 = 250;

/// How long a watcher has time to stop, in milliseconds.
pub const STOP_WAIT_MS: u64 = 3000;

/// The time between two looks at a watcher that is to stop, in milliseconds.
pub const STOP_PAUSE_MS: u64 = 100;

// -------------------------------------------------------------------- pid files

/// The text of a pid file is no number of a process.
#[derive(Debug, Clone, Copy, PartialEq, Eq, Structural)]
pub struct PidError;

/// The process that a pid file names; `None` stands for a file that cannot be read.
pub open spec fn pid_in(text: Option<Seq<char>>) -> Result<Option<u32>, PidError> {
    match text {
        None => Ok(None),
        Some(t) => if trim(t).len() == 0 {
            Ok(None)
        } else {
            match parse(trim(t), u32::MAX as nat) {
                Some(n) => Ok(Some(n as u32)),
                None => Err(PidError),
            }
        },
    }
}

/// The process that a pid file names, by its text; `None` stands for a file that
/// cannot be read.
pub fn read_pid(text: Option<&str>) -> (r: Result<Option<u32>, PidError>)
    ensures
        r == pid_in(str_of(text)),
{
    let t = match text {
        None => {
            return Ok(None);
        },
        Some(t) => trimmed(t),
    };
    if t.unicode_len() == 0 {
        return Ok(None);
    }
    match parse_u32(t) {
        Some(pid) => Ok(Some(pid)),
        None => Err(PidError),
    }
}

/// The line that names a process.
pub open spec fn pid_line(pid: u32) -> Seq<char> {
    decimal(pid as nat).push('\n')
}

/// The text of a file that names a process.
pub fn write_pid(pid: u32) -> (text: String)
    ensures
        text@ == pid_line(pid),
{
    let mut text = to_decimal(pid as u64);
    text.push('\n');
    text
}

/// A pid file names a process as its owner.
pub open spec fn owns(text: Option<Seq<char>>, pid: u32) -> Result<bool, PidError> {
    match pid_in(text) {
        Ok(owner) => Ok(owner == Some(pid)),
        Err(e) => Err(e),
    }
}

/// Whether a pid file names a process as its owner.
pub fn process_owns_pid_file(text: Option<&str>, pid: u32) -> (r: Result<bool, PidError>)
    ensures
        r == owns(str_of(text), pid),
{
    match read_pid(text) {
        Ok(Some(owner)) => Ok(owner == pid),
        Ok(None) => Ok(false),
        Err(e) => Err(e),
    }
}

proof fn lemma_trim_keeps(s: Seq<char>)
    requires
        s.len() > 0,
        !is_space(s[0]),
        !is_space(s.last()),
    ensures
        trim(s.push('\n')) == s,
{
    let line = s.push('\n');
    assert(line[0] == s[0]);
    assert(is_space('\n'));
    assert(line.drop_last() =~= s);
    assert(trim_start(line) == line);
    assert(trim_end(line) == trim_end(s));
}

/// What is written as the owner of a pid file is read back as its owner.
pub proof fn law_written_pid_is_read_back(pid: u32)
    ensures
        pid_in(Some(pid_line(pid))) == Ok::<Option<u32>, PidError>(Some(pid)),
{
    let digits = decimal(pid as nat);
    lemma_decimal_denotes(pid as nat);
    assert(is_digit(digits[0]));
    assert(is_digit(digits[digits.len() - 1]));
    lemma_trim_keeps(digits);
    lemma_decimal_is_read_back(pid as nat, u32::MAX as nat);
}

// ------------------------------------------------------------------- vocabulary

/// When a file was last written.
#[derive(Debug, Clone, Copy, PartialEq, Eq, Structural)]
pub enum Stamp {
    /// There is no such file, or nothing is known of it.
    Missing,
    /// So many nanoseconds ago.
    Ago(u128),
    /// At a time that is still to come.
    Ahead,
}

/// What has happened.
#[derive(Debug, Clone, Copy, PartialEq, Eq, Structural)]
pub enum Event {
    Begin,
    /// The pid file names this process, or none.
    Pid(Option<u32>),
    /// Whether the pid file names the watcher itself.
    Owned(bool),
    /// Whether the process is alive.
    Alive(bool),
    /// A lock was taken, or is held by another.
    Locked(bool),
    /// The lock file was made.
    Created,
    /// The lock file was there.
    Exists,
    /// When the file that was asked for was last written.
    Written(Stamp),
    /// So many milliseconds have passed.
    Elapsed(u64),
    /// The watcher was started as this process.
    Spawned(u32),
    /// The settings ask for a sync every so many seconds.
    Interval(u64),
    /// The last sync took so many nanoseconds.
    Spent(u128),
    /// What was to be done is done.
    Done,
    /// What was to be done failed.
    Failed,
}

/// How the start of a watcher ends.
#[derive(Debug, Clone, Copy, PartialEq, Eq, Structural)]
pub enum WatcherStart {
    Started(u32),
    AlreadyRunning(u32),
    AlreadyStarting,
}

/// How the stop of a watcher ends.
#[derive(Debug, Clone, Copy, PartialEq, Eq, Structural)]
pub enum WatcherStop {
    NotRunning,
    Stopped(u32),
    /// The watcher was told to stop, and is still there.
    Signalled(u32),
}

/// What is to be done next.
#[derive(Debug, Clone, Copy, PartialEq, Eq, Structural)]
pub enum Action {
    ReadPidFile,
    CheckAlive(u32),
    RemovePidFile,
    WritePidFile(u32),
    TakeStartLock,
    Spawn,
    CreateLock,
    /// Write into the lock file who holds it.
    SignLock,
    RemoveLock,
    ReadLockStamp,
    /// Tell how much time has passed since the first step.
    ReadClock,
    /// Sleep for so many milliseconds.
    Sleep(u64),
    Terminate(u32),
    LoadConfig,
    /// Take the sync lock; where another holds it, wait for so many milliseconds.
    TakeSyncLock(u64),
    /// Sync under the lock.
    Sync,
    ReadEventStamp,
    WriteEventStamp,
    /// Sleep for so many nanoseconds.
    Rest(u128),
    /// End: the lock is taken.
    Acquired,
    /// End: the lock is held by another.
    Busy,
    /// End: the start came to this; it is told to the user, or not.
    Start { outcome: WatcherStart, tell: bool },
    /// End: the stop came to this.
    Stop(WatcherStop),
    /// End: another watcher owns the pid file.
    Disowned,
    /// End: there is nothing more to do.
    Finish,
    /// End: what was to be done failed.
    Fail,
}

// ------------------------------------------------------------------ the start lock

/// What the taking of a lock waits for.
#[derive(Debug, Clone, Copy, PartialEq, Eq, Structural)]
pub enum LockStage {
    Start,
    Create,
    Sign,
    Pid,
    Alive,
    Age,
    Clock,
    Removal,
    Pause,
    Over,
}

/// The lock under which a watcher is started. Where the lock file is there, the lock
/// is held by another as long as a watcher runs; else it is waited for, and after
/// some time the file is taken to be left behind.
pub open spec fn start_lock(stage: LockStage, event: Event) -> (LockStage, Action) {
    match (stage, event) {
        (LockStage::Start, Event::Begin) => (LockStage::Create, Action::CreateLock),
        (LockStage::Create, Event::Created) => (LockStage::Sign, Action::SignLock),
        (LockStage::Create, Event::Exists) => (LockStage::Pid, Action::ReadPidFile),
        (LockStage::Sign, Event::Done) => (LockStage::Over, Action::Acquired),
        (LockStage::Pid, Event::Pid(Some(pid))) => (LockStage::Alive, Action::CheckAlive(pid)),
        (LockStage::Pid, Event::Pid(None)) => (LockStage::Clock, Action::ReadClock),
        (LockStage::Alive, Event::Alive(alive)) => if alive {
            (LockStage::Over, Action::Busy)
        } else {
            (LockStage::Clock, Action::ReadClock)
        },
        (LockStage::Clock, Event::Elapsed(ms)) => if ms >= START_LOCK_WAIT_MS {
            (LockStage::Removal, Action::RemoveLock)
        } else {
            (LockStage::Pause, Action::Sleep(START_LOCK_PAUSE_MS))
        },
        (LockStage::Removal, Event::Done) => (LockStage::Create, Action::CreateLock),
        (LockStage::Pause, Event::Done) => (LockStage::Create, Action::CreateLock),
        _ => (LockStage::Over, Action::Fail),
    }
}

/// Goes on with taking the start lock.
pub fn start_lock_step(stage: LockStage, event: Event) -> (r: (LockStage, Action))
    ensures
        r == start_lock(stage, event),
{
    match (stage, event) {
        (LockStage::Start, Event::Begin) => (LockStage::Create, Action::CreateLock),
        (LockStage::Create, Event::Created) => (LockStage::Sign, Action::SignLock),
        (LockStage::Create, Event::Exists) => (LockStage::Pid, Action::ReadPidFile),
        (LockStage::Sign, Event::Done) => (LockStage::Over, Action::Acquired),
        (LockStage::Pid, Event::Pid(Some(pid))) => (LockStage::Alive, Action::CheckAlive(pid)),
        (LockStage::Pid, Event::Pid(None)) => (LockStage::Clock, Action::ReadClock),
        (LockStage::Alive, Event::Alive(alive)) => if alive {
            (LockStage::Over, Action::Busy)
        } else {
            (LockStage::Clock, Action::ReadClock)
        },
        (LockStage::Clock, Event::Elapsed(ms)) => if ms >= START_LOCK_WAIT_MS {
            (LockStage::Removal, Action::RemoveLock)
        } else {
            (LockStage::Pause, Action::Sleep(START_LOCK_PAUSE_MS))
        },
        (LockStage::Removal, Event::Done) => (LockStage::Create, Action::CreateLock),
        (LockStage::Pause, Event::Done) => (LockStage::Create, Action::CreateLock),
        (_, _) => (LockStage::Over, Action::Fail),
    }
}

// ------------------------------------------------------------------- the sync lock

/// A sync lock that was written so long ago counts as left behind.
pub open spec fn is_left_behind(stamp: Stamp) -> bool {
    stamp matches Stamp::Ago(nanos) && nanos > SYNC_LOCK_STALE_SECS * 1_000_000_000
}

/// Whether a sync lock counts as left behind.
pub fn sync_lock_is_stale(stamp: Stamp) -> (b: bool)
    ensures
        b == is_left_behind(stamp),
{
    match stamp {
        Stamp::Ago(nanos) => nanos > SYNC_LOCK_STALE_SECS as u128 * 1_000_000_000,
        _ => false,
    }
}

/// The sync lock is held by another; it is looked at again where there is time to
/// wait.
pub open spec fn wait_or_leave(wait_ms: u64) -> (LockStage, Action) {
    if wait_ms == 0 {
        (LockStage::Over, Action::Busy)
    } else {
        (LockStage::Clock, Action::ReadClock)
    }
}

/// The lock under which a sync is made. A lock file that is left behind is removed;
/// the lock is tried again after that, and after every pause, for as long as there
/// is time to wait.
pub open spec fn sync_lock(stage: LockStage, event: Event, wait_ms: u64) -> (LockStage, Action) {
    match (stage, event) {
        (LockStage::Start, Event::Begin) => (LockStage::Create, Action::CreateLock),
        (LockStage::Create, Event::Created) => (LockStage::Sign, Action::SignLock),
        (LockStage::Create, Event::Exists) => (LockStage::Age, Action::ReadLockStamp),
        (LockStage::Sign, Event::Done) => (LockStage::Over, Action::Acquired),
        (LockStage::Age, Event::Written(stamp)) => if is_left_behind(stamp) {
            (LockStage::Removal, Action::RemoveLock)
        } else {
            wait_or_leave(wait_ms)
        },
        (LockStage::Removal, Event::Done) => wait_or_leave(wait_ms),
        (LockStage::Clock, Event::Elapsed(ms)) => if ms >= wait_ms {
            (LockStage::Over, Action::Busy)
        } else {
            (LockStage::Pause, Action::Sleep(SYNC_LOCK_PAUSE_MS))
        },
        (LockStage::Pause, Event::Done) => (LockStage::Create, Action::CreateLock),
        _ => (LockStage::Over, Action::Fail),
    }
}

/// Goes on with taking the sync lock; `wait_ms` is the time that there is to wait.
pub fn sync_lock_step(stage: LockStage, event: Event, wait_ms: u64) -> (r: (LockStage, Action))
    ensures
        r == sync_lock(stage, event, wait_ms),
{
    let held = if wait_ms == 0 {
        (LockStage::Over, Action::Busy)
    } else {
        (LockStage::Clock, Action::ReadClock)
    };
    match (stage, event) {
        (LockStage::Start, Event::Begin) => (LockStage::Create, Action::CreateLock),
        (LockStage::Create, Event::Created) => (LockStage::Sign, Action::SignLock),
        (LockStage::Create, Event::Exists) => (LockStage::Age, Action::ReadLockStamp),
        (LockStage::Sign, Event::Done) => (LockStage::Over, Action::Acquired),
        (LockStage::Age, Event::Written(stamp)) => if sync_lock_is_stale(stamp) {
            (LockStage::Removal, Action::RemoveLock)
        } else {
            held
        },
        (LockStage::Removal, Event::Done) => held,
        (LockStage::Clock, Event::Elapsed(ms)) => if ms >= wait_ms {
            (LockStage::Over, Action::Busy)
        } else {
            (LockStage::Pause, Action::Sleep(SYNC_LOCK_PAUSE_MS))
        },
        (LockStage::Pause, Event::Done) => (LockStage::Create, Action::CreateLock),
        (_, _) => (LockStage::Over, Action::Fail),
    }
}

// ----------------------------------------------------------- starting a watcher

/// What the start of a watcher waits for.
#[derive(Debug, Clone, Copy, PartialEq, Eq, Structural)]
pub enum StartStage {
    Start,
    /// The first look at the pid file.
    Pid,
    Alive(u32),
    Removal,
    Lock,
    /// The second look at the pid file, under the lock.
    LockedPid,
    LockedAlive(u32),
    LockedRemoval,
    Spawn,
    Write(u32),
    Over,
}

/// The end of a start.
pub open spec fn start_ends(outcome: WatcherStart, options: Options) -> (StartStage, Action) {
    (StartStage::Over, Action::Start { outcome, tell: !options.quiet })
}

/// The start of a watcher: not where one runs, and under the lock, where it is
/// looked again whether one runs. A pid file that names a process that is gone is
/// removed.
pub open spec fn start(stage: StartStage, event: Event, options: Options) -> (StartStage, Action) {
    match (stage, event) {
        (StartStage::Start, Event::Begin) => (StartStage::Pid, Action::ReadPidFile),
        (StartStage::Pid, Event::Pid(Some(pid))) => (
            StartStage::Alive(pid),
            Action::CheckAlive(pid),
        ),
        (StartStage::Pid, Event::Pid(None)) => (StartStage::Lock, Action::TakeStartLock),
        (StartStage::Alive(pid), Event::Alive(true)) => start_ends(
            WatcherStart::AlreadyRunning(pid),
            options,
        ),
        (StartStage::Alive(_), Event::Alive(false)) => (
            StartStage::Removal,
            Action::RemovePidFile,
        ),
        (StartStage::Removal, Event::Done) => (StartStage::Lock, Action::TakeStartLock),
        (StartStage::Lock, Event::Locked(true)) => (StartStage::LockedPid, Action::ReadPidFile),
        (StartStage::Lock, Event::Locked(false)) => start_ends(
            WatcherStart::AlreadyStarting,
            options,
        ),
        (StartStage::LockedPid, Event::Pid(Some(pid))) => (
            StartStage::LockedAlive(pid),
            Action::CheckAlive(pid),
        ),
        (StartStage::LockedPid, Event::Pid(None)) => (StartStage::Spawn, Action::Spawn),
        (StartStage::LockedAlive(pid), Event::Alive(true)) => start_ends(
            WatcherStart::AlreadyRunning(pid),
            options,
        ),
        (StartStage::LockedAlive(_), Event::Alive(false)) => (
            StartStage::LockedRemoval,
            Action::RemovePidFile,
        ),
        (StartStage::LockedRemoval, Event::Done) => (StartStage::Spawn, Action::Spawn),
        (StartStage::Spawn, Event::Spawned(pid)) => (
            StartStage::Write(pid),
            Action::WritePidFile(pid),
        ),
        (StartStage::Write(pid), Event::Done) => start_ends(WatcherStart::Started(pid), options),
        _ => (StartStage::Over, Action::Fail),
    }
}

/// Goes on with the start of a watcher.
pub fn start_watcher(stage: StartStage, event: Event, options: &Options) -> (r: (
    StartStage,
    Action,
))
    ensures
        r == start(stage, event, *options),
{
    let tell = !options.quiet;
    match (stage, event) {
        (StartStage::Start, Event::Begin) => (StartStage::Pid, Action::ReadPidFile),
        (StartStage::Pid, Event::Pid(found)) => match found {
            Some(pid) => (StartStage::Alive(pid), Action::CheckAlive(pid)),
            None => (StartStage::Lock, Action::TakeStartLock),
        },
        (StartStage::Alive(pid), Event::Alive(alive)) => if alive {
            (
                StartStage::Over,
                Action::Start { outcome: WatcherStart::AlreadyRunning(pid), tell },
            )
        } else {
            (StartStage::Removal, Action::RemovePidFile)
        },
        (StartStage::Removal, Event::Done) => (StartStage::Lock, Action::TakeStartLock),
        (StartStage::Lock, Event::Locked(taken)) => if taken {
            (StartStage::LockedPid, Action::ReadPidFile)
        } else {
            (StartStage::Over, Action::Start { outcome: WatcherStart::AlreadyStarting, tell })
        },
        (StartStage::LockedPid, Event::Pid(found)) => match found {
            Some(pid) => (StartStage::LockedAlive(pid), Action::CheckAlive(pid)),
            None => (StartStage::Spawn, Action::Spawn),
        },
        (StartStage::LockedAlive(pid), Event::Alive(alive)) => if alive {
            (
                StartStage::Over,
                Action::Start { outcome: WatcherStart::AlreadyRunning(pid), tell },
            )
        } else {
            (StartStage::LockedRemoval, Action::RemovePidFile)
        },
        (StartStage::LockedRemoval, Event::Done) => (StartStage::Spawn, Action::Spawn),
        (StartStage::Spawn, Event::Spawned(pid)) => (
            StartStage::Write(pid),
            Action::WritePidFile(pid),
        ),
        (StartStage::Write(pid), Event::Done) => (
            StartStage::Over,
            Action::Start { outcome: WatcherStart::Started(pid), tell },
        ),
        (_, _) => (StartStage::Over, Action::Fail),
    }
}

/// The options of a start that nobody asked for: it tells the user nothing.
pub fn autostart_options(options: &Options) -> (quiet: Options)
    ensures
        quiet == (Options { quiet: true, ..*options }),
{
    Options { interval: options.interval, force: options.force, quiet: true }
}

/// A start that nobody asked for is followed by a sync.
pub open spec fn is_followed_by_sync(outcome: WatcherStart) -> bool {
    outcome is AlreadyRunning
}

/// Whether a start that nobody asked for is followed by a sync: the watcher was
/// there already, so that it has not seen the event at once.
pub fn autostart(outcome: WatcherStart) -> (sync: bool)
    ensures
        sync == is_followed_by_sync(outcome),
{
    match outcome {
        WatcherStart::AlreadyRunning(_) => true,
        _ => false,
    }
}

// ----------------------------------------------------------- stopping a watcher

/// What the stop of a watcher waits for.
#[derive(Debug, Clone, Copy, PartialEq, Eq, Structural)]
pub enum StopStage {
    Start,
    Pid,
    Alive(u32),
    /// The pid file of a watcher that is gone is removed.
    Cleanup,
    Terminate(u32),
    Clock(u32),
    Check(u32),
    Removal(u32),
    Pause(u32),
    Over,
}

/// The stop of a watcher: it is told to stop, and looked at until it is gone or the
/// time is over. The pid file goes with it.
pub open spec fn stop(stage: StopStage, event: Event) -> (StopStage, Action) {
    match (stage, event) {
        (StopStage::Start, Event::Begin) => (StopStage::Pid, Action::ReadPidFile),
        (StopStage::Pid, Event::Pid(None)) => (
            StopStage::Over,
            Action::Stop(WatcherStop::NotRunning),
        ),
        (StopStage::Pid, Event::Pid(Some(pid))) => (
            StopStage::Alive(pid),
            Action::CheckAlive(pid),
        ),
        (StopStage::Alive(_), Event::Alive(false)) => (StopStage::Cleanup, Action::RemovePidFile),
        (StopStage::Alive(pid), Event::Alive(true)) => (
            StopStage::Terminate(pid),
            Action::Terminate(pid),
        ),
        (StopStage::Cleanup, Event::Done) => (
            StopStage::Over,
            Action::Stop(WatcherStop::NotRunning),
        ),
        (StopStage::Terminate(pid), Event::Done) => (StopStage::Clock(pid), Action::ReadClock),
        (StopStage::Clock(pid), Event::Elapsed(ms)) => if ms < STOP_WAIT_MS {
            (StopStage::Check(pid), Action::CheckAlive(pid))
        } else {
            (StopStage::Over, Action::Stop(WatcherStop::Signalled(pid)))
        },
        (StopStage::Check(pid), Event::Alive(false)) => (
            StopStage::Removal(pid),
            Action::RemovePidFile,
        ),
        (StopStage::Check(pid), Event::Alive(true)) => (
            StopStage::Pause(pid),
            Action::Sleep(STOP_PAUSE_MS),
        ),
        (StopStage::Removal(pid), Event::Done) => (
            StopStage::Over,
            Action::Stop(WatcherStop::Stopped(pid)),
        ),
        (StopStage::Pause(pid), Event::Done) => (StopStage::Clock(pid), Action::ReadClock),
        _ => (StopStage::Over, Action::Fail),
    }
}

/// Goes on with the stop of a watcher. The clock starts when the watcher was told to
/// stop.
pub fn stop_watcher(stage: StopStage, event: Event) -> (r: (StopStage, Action))
    ensures
        r == stop(stage, event),
{
    match (stage, event) {
        (StopStage::Start, Event::Begin) => (StopStage::Pid, Action::ReadPidFile),
        (StopStage::Pid, Event::Pid(found)) => match found {
            Some(pid) => (StopStage::Alive(pid), Action::CheckAlive(pid)),
            None => (StopStage::Over, Action::Stop(WatcherStop::NotRunning)),
        },
        (StopStage::Alive(pid), Event::Alive(alive)) => if alive {
            (StopStage::Terminate(pid), Action::Terminate(pid))
        } else {
            (StopStage::Cleanup, Action::RemovePidFile)
        },
        (StopStage::Cleanup, Event::Done) => (
            StopStage::Over,
            Action::Stop(WatcherStop::NotRunning),
        ),
        (StopStage::Terminate(pid), Event::Done) => (StopStage::Clock(pid), Action::ReadClock),
        (StopStage::Clock(pid), Event::Elapsed(ms)) => if ms < STOP_WAIT_MS {
            (StopStage::Check(pid), Action::CheckAlive(pid))
        } else {
            (StopStage::Over, Action::Stop(WatcherStop::Signalled(pid)))
        },
        (StopStage::Check(pid), Event::Alive(alive)) => if alive {
            (StopStage::Pause(pid), Action::Sleep(STOP_PAUSE_MS))
        } else {
            (StopStage::Removal(pid), Action::RemovePidFile)
        },
        (StopStage::Removal(pid), Event::Done) => (
            StopStage::Over,
            Action::Stop(WatcherStop::Stopped(pid)),
        ),
        (StopStage::Pause(pid), Event::Done) => (StopStage::Clock(pid), Action::ReadClock),
        (_, _) => (StopStage::Over, Action::Fail),
    }
}

// --------------------------------------------------------------------- watching

/// What a watcher waits for.
#[derive(Debug, Clone, Copy, PartialEq, Eq, Structural)]
pub enum WatchStage {
    Start,
    Write,
    FirstConfig,
    Owner,
    Config,
    /// The lock for a sync, of those that come every so many seconds.
    Lock(u64),
    Sync(u64),
    Clock(u64),
    Rest,
    Over,
}

/// The rest of an interval of so many seconds, in nanoseconds, where it is not over.
pub open spec fn rest_of(seconds: u64, spent: u128) -> Option<nat> {
    if spent < seconds * 1_000_000_000 {
        Some((seconds * 1_000_000_000 - spent) as nat)
    } else {
        None
    }
}

/// The rest of an interval of so many seconds, in nanoseconds, where it is not over.
pub fn pause_after(seconds: u64, spent: u128) -> (r: Option<u128>)
    ensures
        match rest_of(seconds, spent) {
            Some(nanos) => r matches Some(n) && n == nanos,
            None => r is None,
        },
{
    let whole: u128 = seconds as u128 * 1_000_000_000;
    if spent < whole {
        Some(whole - spent)
    } else {
        None
    }
}

/// The watcher: it owns the pid file, and for as long as it does so it syncs, with
/// the settings as they are by then, and rests until the interval is over. There is
/// no sync while another one runs, and the watcher does not wait for that. What
/// becomes of the lock and of a sync does not matter.
pub open spec fn watch(stage: WatchStage, event: Event, own_pid: u32) -> (WatchStage, Action) {
    match (stage, event) {
        (WatchStage::Start, Event::Begin) => (WatchStage::Write, Action::WritePidFile(own_pid)),
        (WatchStage::Write, Event::Done) => (WatchStage::FirstConfig, Action::LoadConfig),
        (WatchStage::FirstConfig, Event::Interval(_)) => (WatchStage::Owner, Action::ReadPidFile),
        (WatchStage::Owner, Event::Owned(true)) => (WatchStage::Config, Action::LoadConfig),
        (WatchStage::Owner, Event::Owned(false)) => (WatchStage::Over, Action::Disowned),
        (WatchStage::Config, Event::Interval(seconds)) => (
            WatchStage::Lock(seconds),
            Action::TakeSyncLock(0),
        ),
        (WatchStage::Lock(seconds), Event::Locked(true)) => (
            WatchStage::Sync(seconds),
            Action::Sync,
        ),
        (WatchStage::Lock(seconds), Event::Locked(false)) => (
            WatchStage::Clock(seconds),
            Action::ReadClock,
        ),
        (WatchStage::Lock(seconds), Event::Failed) => (
            WatchStage::Clock(seconds),
            Action::ReadClock,
        ),
        (WatchStage::Sync(seconds), Event::Done) => (
            WatchStage::Clock(seconds),
            Action::ReadClock,
        ),
        (WatchStage::Sync(seconds), Event::Failed) => (
            WatchStage::Clock(seconds),
            Action::ReadClock,
        ),
        (WatchStage::Clock(seconds), Event::Spent(spent)) => match rest_of(seconds, spent) {
            Some(nanos) => (WatchStage::Rest, Action::Rest(nanos as u128)),
            None => (WatchStage::Owner, Action::ReadPidFile),
        },
        (WatchStage::Rest, Event::Done) => (WatchStage::Owner, Action::ReadPidFile),
        _ => (WatchStage::Over, Action::Fail),
    }
}

/// Goes on with watching, as the process `own_pid`.
pub fn watch_loop(stage: WatchStage, event: Event, own_pid: u32) -> (r: (WatchStage, Action))
    ensures
        r == watch(stage, event, own_pid),
{
    match (stage, event) {
        (WatchStage::Start, Event::Begin) => (WatchStage::Write, Action::WritePidFile(own_pid)),
        (WatchStage::Write, Event::Done) => (WatchStage::FirstConfig, Action::LoadConfig),
        (WatchStage::FirstConfig, Event::Interval(_)) => (WatchStage::Owner, Action::ReadPidFile),
        (WatchStage::Owner, Event::Owned(owned)) => if owned {
            (WatchStage::Config, Action::LoadConfig)
        } else {
            (WatchStage::Over, Action::Disowned)
        },
        (WatchStage::Config, Event::Interval(seconds)) => (
            WatchStage::Lock(seconds),
            Action::TakeSyncLock(0),
        ),
        (WatchStage::Lock(seconds), Event::Locked(taken)) => if taken {
            (WatchStage::Sync(seconds), Action::Sync)
        } else {
            (WatchStage::Clock(seconds), Action::ReadClock)
        },
        (WatchStage::Lock(seconds), Event::Failed) => (
            WatchStage::Clock(seconds),
            Action::ReadClock,
        ),
        (WatchStage::Sync(seconds), Event::Done) => (
            WatchStage::Clock(seconds),
            Action::ReadClock,
        ),
        (WatchStage::Sync(seconds), Event::Failed) => (
            WatchStage::Clock(seconds),
            Action::ReadClock,
        ),
        (WatchStage::Clock(seconds), Event::Spent(spent)) => match pause_after(seconds, spent) {
            Some(nanos) => (WatchStage::Rest, Action::Rest(nanos)),
            None => (WatchStage::Owner, Action::ReadPidFile),
        },
        (WatchStage::Rest, Event::Done) => (WatchStage::Owner, Action::ReadPidFile),
        (_, _) => (WatchStage::Over, Action::Fail),
    }
}

// ------------------------------------------------------------ syncs after events

/// The last sync after an event is too recent for another one. A stamp of a time
/// that is still to come counts as recent.
pub open spec fn is_recent(stamp: Stamp) -> bool {
    match stamp {
        Stamp::Missing => false,
        Stamp::Ago(nanos) => nanos < EVENT_SYNC_DEBOUNCE_MS * 1_000_000,
        Stamp::Ahead => true,
    }
}

/// Whether the last sync after an event is too recent for another one.
pub fn event_sync_recent(stamp: Stamp) -> (b: bool)
    ensures
        b == is_recent(stamp),
{
    match stamp {
        Stamp::Missing => false,
        Stamp::Ago(nanos) => nanos < EVENT_SYNC_DEBOUNCE_MS as u128 * 1_000_000,
        Stamp::Ahead => true,
    }
}

/// What a sync after an event waits for.
#[derive(Debug, Clone, Copy, PartialEq, Eq, Structural)]
pub enum EventStage {
    Start,
    Stamp,
    Lock,
    /// The second look at the stamp, under the lock.
    LockedStamp,
    Sync,
    Mark,
    Over,
}

/// A sync after an event: not where the last one is too recent, nor where another
/// sync runs; under the lock it is looked again whether the last one is too recent.
/// A sync that went well leaves a stamp.
pub open spec fn after_event(stage: EventStage, event: Event) -> (EventStage, Action) {
    match (stage, event) {
        (EventStage::Start, Event::Begin) => (EventStage::Stamp, Action::ReadEventStamp),
        (EventStage::Stamp, Event::Written(stamp)) => if is_recent(stamp) {
            (EventStage::Over, Action::Finish)
        } else {
            (EventStage::Lock, Action::TakeSyncLock(0))
        },
        (EventStage::Lock, Event::Locked(false)) => (EventStage::Over, Action::Finish),
        (EventStage::Lock, Event::Locked(true)) => (
            EventStage::LockedStamp,
            Action::ReadEventStamp,
        ),
        (EventStage::LockedStamp, Event::Written(stamp)) => if is_recent(stamp) {
            (EventStage::Over, Action::Finish)
        } else {
            (EventStage::Sync, Action::Sync)
        },
        (EventStage::Sync, Event::Done) => (EventStage::Mark, Action::WriteEventStamp),
        (EventStage::Mark, Event::Done) => (EventStage::Over, Action::Finish),
        _ => (EventStage::Over, Action::Fail),
    }
}

/// Goes on with a sync after an event.
pub fn sync_after_event(stage: EventStage, event: Event) -> (r: (EventStage, Action))
    ensures
        r == after_event(stage, event),
{
    match (stage, event) {
        (EventStage::Start, Event::Begin) => (EventStage::Stamp, Action::ReadEventStamp),
        (EventStage::Stamp, Event::Written(stamp)) => if event_sync_recent(stamp) {
            (EventStage::Over, Action::Finish)
        } else {
            (EventStage::Lock, Action::TakeSyncLock(0))
        },
        (EventStage::Lock, Event::Locked(taken)) => if taken {
            (EventStage::LockedStamp, Action::ReadEventStamp)
        } else {
            (EventStage::Over, Action::Finish)
        },
        (EventStage::LockedStamp, Event::Written(stamp)) => if event_sync_recent(stamp) {
            (EventStage::Over, Action::Finish)
        } else {
            (EventStage::Sync, Action::Sync)
        },
        (EventStage::Sync, Event::Done) => (EventStage::Mark, Action::WriteEventStamp),
        (EventStage::Mark, Event::Done) => (EventStage::Over, Action::Finish),
        (_, _) => (EventStage::Over, Action::Fail),
    }
}

// ------------------------------------------------------- syncs that are asked for

/// What a sync that the user asks for waits for.
#[derive(Debug, Clone, Copy, PartialEq, Eq, Structural)]
pub enum RequestedStage {
    Start,
    Lock,
    Sync,
    Over,
}

/// A sync that the user asks for: it waits a while for another one that runs, and is
/// given up where that one takes longer.
pub open spec fn requested(stage: RequestedStage, event: Event) -> (RequestedStage, Action) {
    match (stage, event) {
        (RequestedStage::Start, Event::Begin) => (
            RequestedStage::Lock,
            Action::TakeSyncLock(REQUESTED_SYNC_WAIT_MS),
        ),
        (RequestedStage::Lock, Event::Locked(true)) => (RequestedStage::Sync, Action::Sync),
        (RequestedStage::Lock, Event::Locked(false)) => (RequestedStage::Over, Action::Busy),
        (RequestedStage::Sync, Event::Done) => (RequestedStage::Over, Action::Finish),
        _ => (RequestedStage::Over, Action::Fail),
    }
}

/// Goes on with a sync that the user asks for.
pub fn sync_on_request(stage: RequestedStage, event: Event) -> (r: (RequestedStage, Action))
    ensures
        r == requested(stage, event),
{
    match (stage, event) {
        (RequestedStage::Start, Event::Begin) => (
            RequestedStage::Lock,
            Action::TakeSyncLock(REQUESTED_SYNC_WAIT_MS),
        ),
        (RequestedStage::Lock, Event::Locked(taken)) => if taken {
            (RequestedStage::Sync, Action::Sync)
        } else {
            (RequestedStage::Over, Action::Busy)
        },
        (RequestedStage::Sync, Event::Done) => (RequestedStage::Over, Action::Finish),
        (_, _) => (RequestedStage::Over, Action::Fail),
    }
}

// ----------------------------------------------------------------------- status

/// How the watcher is.
#[derive(Debug)]
pub struct StatusReport {
    pub running: bool,
    pub pid: Option<u32>,
    pub managed_tabs: usize,
    pub event_debounce_ms: u64,
    pub config: PluginConfig,
}

/// How the watcher is, by the process that the pid file names, whether it is alive,
/// the labels that were given to tabs, `None` where they cannot be read, and the
/// settings.
pub fn status(
    pid: Option<u32>,
    alive: bool,
    labels: Option<LabelState>,
    config: PluginConfig,
) -> (report: StatusReport)
    ensures
        report.running == (pid is Some && alive),
        report.pid == pid,
        report.managed_tabs == match labels {
            Some(state) => state.labels@.dom().len(),
            None => 0,
        },
        report.event_debounce_ms == EVENT_SYNC_DEBOUNCE_MS,
        report.config@ == config@,
{
    let managed_tabs: usize = match labels {
        Some(state) => state.labels.len(),
        None => 0,
    };
    StatusReport {
        running: pid.is_some() && alive,
        pid,
        managed_tabs,
        event_debounce_ms: EVENT_SYNC_DEBOUNCE_MS,
        config,
    }
}

// ------------------------------------------------------------------------- laws

/// The start lock is held at this stage.
pub open spec fn is_locked(stage: StartStage) -> bool {
    match stage {
        StartStage::LockedPid
        | StartStage::LockedAlive(_)
        | StartStage::LockedRemoval
        | StartStage::Spawn
        | StartStage::Write(_) => true,
        _ => false,
    }
}

/// A watcher is started only under the start lock, once it was seen under the lock
/// that the pid file names no process that is alive. The pid file is removed only
/// where its process is gone. A start that ends otherwise ends because a watcher is
/// alive, or because another holds the lock.
pub proof fn law_watcher_is_started_alone(stage: StartStage, event: Event, options: Options)
    ensures
        ({
            let (next, action) = start(stage, event, options);
            &&& is_locked(next) ==> is_locked(stage) || (stage is Lock && event == Event::Locked(
                true,
            ))
            &&& action is Spawn ==> (stage is LockedPid && event == Event::Pid(None))
                || stage is LockedRemoval
            &&& next is LockedRemoval ==> stage is LockedAlive && event == Event::Alive(false)
            &&& action is RemovePidFile ==> event == Event::Alive(false)
            &&& action matches Action::Start { outcome, tell } ==> tell == !options.quiet
                && match outcome {
                WatcherStart::Started(pid) => stage == StartStage::Write(pid),
                WatcherStart::AlreadyRunning(pid) => event == Event::Alive(true) && (stage
                    == StartStage::Alive(pid) || stage == StartStage::LockedAlive(pid)),
                WatcherStart::AlreadyStarting => event == Event::Locked(false),
            }
        }),
{
}

/// The pid file gets the process that was started.
pub proof fn law_started_process_owns_the_pid_file(
    stage: StartStage,
    event: Event,
    options: Options,
    pid: u32,
)
    ensures
        start(stage, event, options).1 == Action::WritePidFile(pid) <==> stage is Spawn && event
            == Event::Spawned(pid),
        start(stage, event, options).0 == StartStage::Write(pid) <==> stage is Spawn && event
            == Event::Spawned(pid),
{
}

/// The start lock is taken from another only after the whole time to wait, and never
/// while a watcher is alive.
pub proof fn law_start_lock_is_waited_for(stage: LockStage, event: Event)
    ensures
        ({
            let (next, action) = start_lock(stage, event);
            &&& action is RemoveLock ==> stage is Clock && (event matches Event::Elapsed(ms) && ms
                >= START_LOCK_WAIT_MS)
            &&& next is Clock ==> event == Event::Pid(None) || event == Event::Alive(false)
            &&& action is Busy ==> event == Event::Alive(true)
            &&& action is Acquired ==> stage is Sign
            &&& next is Sign ==> event is Created
        }),
{
}

/// The sync lock is taken from another only where it was left behind, and without
/// time to wait it is not waited for.
pub proof fn law_sync_lock_is_respected(stage: LockStage, event: Event, wait_ms: u64)
    ensures
        ({
            let (next, action) = sync_lock(stage, event, wait_ms);
            &&& action is RemoveLock ==> stage is Age && (event matches Event::Written(stamp)
                && is_left_behind(stamp))
            &&& wait_ms == 0 ==> next !is Clock && next !is Pause
            &&& action is Sleep ==> (event matches Event::Elapsed(ms) && ms < wait_ms)
            &&& action is Acquired ==> stage is Sign
            &&& next is Sign ==> event is Created
        }),
{
}

/// A watcher syncs only after it has seen that it still owns the pid file, with
/// settings that it has read after that, and under the lock; one that does not own
/// the pid file ends.
pub proof fn law_watcher_syncs_while_it_owns_the_pid_file(
    stage: WatchStage,
    event: Event,
    own_pid: u32,
)
    ensures
        ({
            let (next, action) = watch(stage, event, own_pid);
            &&& action is Sync ==> stage is Lock && event == Event::Locked(true)
            &&& next is Lock ==> stage is Config && event is Interval
            &&& next is Config ==> stage is Owner && event == Event::Owned(true)
            &&& action is Disowned ==> stage is Owner && event == Event::Owned(false)
            &&& stage is Owner && event == Event::Owned(false) ==> action is Disowned
        }),
{
}

/// Neither a failed sync nor a lock that another holds, or that cannot be taken, ends
/// the watcher: it goes on as after a sync that went well.
pub proof fn law_watcher_outlives_failed_syncs(seconds: u64, own_pid: u32)
    ensures
        ({
            let after = watch(WatchStage::Sync(seconds), Event::Done, own_pid);
            &&& after.0 !is Over
            &&& watch(WatchStage::Sync(seconds), Event::Failed, own_pid) == after
            &&& watch(WatchStage::Lock(seconds), Event::Failed, own_pid) == after
            &&& watch(WatchStage::Lock(seconds), Event::Locked(false), own_pid) == after
        }),
{
}

/// A sync and the rest after it last as long as the interval says, and a sync that
/// takes longer is followed by no rest.
pub proof fn law_interval_is_kept(seconds: u64, spent: u128)
    ensures
        match rest_of(seconds, spent) {
            Some(nanos) => nanos > 0 && spent + nanos == seconds * 1_000_000_000,
            None => spent >= seconds * 1_000_000_000,
        },
        rest_of(seconds, spent) matches Some(nanos) ==> nanos <= u128::MAX,
{
}

/// No sync is made but by the one who has taken the lock, be it the watcher, a sync
/// after an event or one that the user asks for.
pub proof fn law_syncs_are_made_under_the_lock(
    watching: WatchStage,
    after: EventStage,
    asked: RequestedStage,
    event: Event,
    own_pid: u32,
)
    ensures
        watch(watching, event, own_pid).0 is Sync ==> watching is Lock && event == Event::Locked(
            true,
        ),
        after_event(after, event).0 is LockedStamp ==> after is Lock && event == Event::Locked(
            true,
        ),
        requested(asked, event).0 is Sync ==> asked is Lock && event == Event::Locked(true),
        watch(watching, event, own_pid).1 is Sync ==> watch(watching, event, own_pid).0 is Sync,
        after_event(after, event).1 is Sync ==> after is LockedStamp,
        requested(asked, event).1 is Sync ==> requested(asked, event).0 is Sync,
{
}

/// A sync that the user asks for ends as busy exactly where the lock was held by
/// another for all the time that there is to wait, and well exactly where the sync
/// did; it never ends well without one.
pub proof fn law_requested_sync_is_made_or_refused(stage: RequestedStage, event: Event)
    ensures
        ({
            let (next, action) = requested(stage, event);
            &&& action is Busy <==> stage is Lock && event == Event::Locked(false)
            &&& action is Finish <==> stage is Sync && event is Done
            &&& action matches Action::TakeSyncLock(ms) ==> ms == REQUESTED_SYNC_WAIT_MS
        }),
{
}

/// The pid file is removed only once the watcher was seen to be gone, and it is said
/// to be stopped only then; it is told to stop only where it is alive.
pub proof fn law_watcher_is_stopped_before_its_pid_file_goes(stage: StopStage, event: Event)
    ensures
        ({
            let (next, action) = stop(stage, event);
            &&& action is RemovePidFile ==> event == Event::Alive(false)
            &&& action matches Action::Terminate(pid) ==> stage == StopStage::Alive(pid) && event
                == Event::Alive(true)
            &&& action matches Action::Stop(WatcherStop::Stopped(pid)) ==> stage
                == StopStage::Removal(pid)
            &&& next matches StopStage::Removal(pid) ==> stage == StopStage::Check(pid) && event
                == Event::Alive(false)
            &&& action matches Action::Stop(WatcherStop::Signalled(pid)) ==> stage
                == StopStage::Clock(pid) && (event matches Event::Elapsed(ms) && ms
                >= STOP_WAIT_MS)
        }),
{
}

/// Of events that follow each other closely only the first causes a sync: there is
/// none where the stamp of the last one is younger than the debounce time, and the
/// stamp is written only after a sync that went well.
pub proof fn law_events_are_debounced(stage: EventStage, event: Event)
    ensures
        ({
            let (next, action) = after_event(stage, event);
            &&& action is Sync ==> stage is LockedStamp && (event matches Event::Written(stamp)
                && !is_recent(stamp))
            &&& (stage is Stamp || stage is LockedStamp) && (event matches Event::Written(
                Stamp::Ago(nanos),
            ) && nanos < EVENT_SYNC_DEBOUNCE_MS * 1_000_000) ==> action is Finish
            &&& next is LockedStamp ==> event == Event::Locked(true)
            &&& action is WriteEventStamp ==> stage is Sync && event is Done
        }),
{
}

/// A pid file names the process whose number it holds, with white space around it or
/// without. An empty file, or none, names nobody; anything else is an error.
pub proof fn law_pid_files_name_their_processes(
    front: Seq<char>,
    pid: u32,
    back: Seq<char>,
    word: Seq<char>,
)
    requires
        is_blank_text(front),
        is_blank_text(back),
        word.len() > 0,
        !is_space(word[0]),
        !is_space(word.last()),
        parse(word, u32::MAX as nat) is None,
    ensures
        pid_in(Some(front + decimal(pid as nat) + back)) == Ok::<Option<u32>, PidError>(Some(pid)),
        pid_in(Some(front + back)) == Ok::<Option<u32>, PidError>(None),
        pid_in(None) == Ok::<Option<u32>, PidError>(None),
        pid_in(Some(front + word + back)) == Err::<Option<u32>, PidError>(PidError),
{
    let digits = decimal(pid as nat);
    lemma_decimal_denotes(pid as nat);
    lemma_decimal_is_read_back(pid as nat, u32::MAX as nat);
    assert(is_digit(digits[0]));
    assert(is_digit(digits[digits.len() - 1]));
    law_trimming_takes_white_space_off(front, digits, back);
    law_trimming_takes_white_space_off(front, word, back);
    let none = Seq::<char>::empty();
    law_trimming_takes_white_space_off(front, none, back);
    assert(front + none + back =~= front + back);
}

/// The process that wrote a pid file owns it, and no other does; a file that is not there
/// is nobody's.
pub proof fn law_pid_files_have_one_owner(pid: u32, other: u32)
    ensures
        owns(Some(pid_line(pid)), other) == Ok::<bool, PidError>(pid == other),
        owns(None, other) == Ok::<bool, PidError>(false),
{
    law_written_pid_is_read_back(pid);
}

/// A start that nobody asked for is followed by a sync where a watcher runs already,
/// and only then: one that was just started syncs by itself.
pub proof fn law_running_watcher_is_helped_by_a_sync(pid: u32)
    ensures
        is_followed_by_sync(WatcherStart::AlreadyRunning(pid)),
        !is_followed_by_sync(WatcherStart::Started(pid)),
        !is_followed_by_sync(WatcherStart::AlreadyStarting),
{
}

/// A sync lock is left behind after half a minute, and the last sync after an event is
/// recent for a quarter of a second. A file that is not there is neither, and a time
/// that is still to come is recent.
pub proof fn law_times_are_as_promised(nanos: u128)
    ensures
        is_left_behind(Stamp::Ago(nanos)) <==> nanos > 30_000_000_000,
        !is_left_behind(Stamp::Missing),
        !is_left_behind(Stamp::Ahead),
        is_recent(Stamp::Ago(nanos)) <==> nanos < 250_000_000,
        !is_recent(Stamp::Missing),
        is_recent(Stamp::Ahead),
{
}

} // verus!
