//! The decisions of the watch loop and of the configuration watcher.
//!
//! The loop itself lives with the caller, who scans directories, sleeps,
//! moves files and talks to the watcher thread; every choice it takes is a
//! function here, from what was observed to what to do next.  The watcher
//! never touches the configuration: it compares timestamps, flips the two
//! shared flags, and answers heartbeats.

use vstd::prelude::*;

use crate::chars::{count_char, count_of};

verus! {

/// The admission rule: a file is a candidate exactly when its name holds
/// more occurrences of the separator than the threshold.
pub fn admits(name: &str, separator: char, threshold: usize) -> (r: bool)
    ensures
        r == (count_char(name@, separator) > threshold),
{
    count_of(name, separator) > threshold
}

/// What the scheduler does with one candidate file.
#[derive(Debug, PartialEq, Eq, Structural, Clone, Copy)]
pub enum FileDecision {
    /// Stop the whole run: a stop was requested, or the destination root is
    /// gone.
    AbortRun,
    /// Leave this file alone: it vanished since the scan, which is benign.
    SkipFile,
    /// Compose its destination, create the parent directory, move it.
    Process,
}

/// The decision for one candidate, from what the disk and the stop flag
/// showed just before handling it.
pub open spec fn spec_decide_file(
    should_end: bool,
    dest_exists: bool,
    file_exists: bool,
) -> FileDecision {
    if should_end {
        FileDecision::AbortRun
    } else if !dest_exists {
        FileDecision::AbortRun
    } else if !file_exists {
        FileDecision::SkipFile
    } else {
        FileDecision::Process
    }
}

pub fn decide_file(should_end: bool, dest_exists: bool, file_exists: bool) -> (d: FileDecision)
    ensures
        d == spec_decide_file(should_end, dest_exists, file_exists),
{
    if should_end {
        FileDecision::AbortRun
    } else if !dest_exists {
        FileDecision::AbortRun
    } else if !file_exists {
        FileDecision::SkipFile
    } else {
        FileDecision::Process
    }
}

/// A candidate that vanished between the scan and the move is benign: while
/// no stop is requested and the destination root stands, it is skipped and
/// the cycle never aborts over it.
pub proof fn vanished_candidate_never_aborts(name: Seq<char>, separator: char, threshold: usize)
    requires
        count_char(name, separator) > threshold,
    ensures
        spec_decide_file(false, true, false) == FileDecision::SkipFile,
        spec_decide_file(false, true, false) != FileDecision::AbortRun,
{
}

/// A missing destination root always aborts the cycle, whatever the file
/// and the stop flag say.
pub proof fn missing_destination_always_aborts(should_end: bool, file_exists: bool)
    ensures
        spec_decide_file(should_end, false, file_exists) == FileDecision::AbortRun,
{
}

/// Where the watch loop stands.  Each phase names what the caller does
/// next: scan every watch directory and dispatch the candidates, sleep for
/// the configured interval, reload the configuration and rebuild the
/// shortcuts listing, re-check that the directories and the destination are
/// still there, or join the watcher and end.
#[derive(Debug, PartialEq, Eq, Structural, Clone, Copy)]
pub enum Phase {
    Scanning,
    Sleeping,
    Reloading,
    Checking,
    Stopped,
}

/// What the caller observed while carrying out the current phase.
#[derive(Debug, Clone, Copy)]
pub enum SchedEvent {
    /// All directories were scanned; `aborted` says whether some candidate's
    /// handling asked to stop (stop flag seen, or destination gone).
    ScanRound { aborted: bool },
    /// The sleep ended; the stop flag, the watcher's changed flag, and
    /// whether the heartbeat could be sent (in static mode none is).
    Slept { stop_requested: bool, config_changed: bool, heartbeat_ok: bool },
    /// The configuration was reloaded and cleaned; `fatal` is the cleaning
    /// verdict, `heartbeat_ok` whether the watcher could be signalled after.
    Reloaded { fatal: bool, heartbeat_ok: bool },
    /// Vanished watch directories were dropped; what remains, and whether
    /// the destination root still stands.
    Pruned { dirs_remaining: usize, dest_exists: bool },
}

/// Which events belong to which phase.
pub open spec fn event_fits(phase: Phase, ev: SchedEvent) -> bool {
    match (phase, ev) {
        (Phase::Scanning, SchedEvent::ScanRound { .. }) => true,
        (Phase::Sleeping, SchedEvent::Slept { .. }) => true,
        (Phase::Reloading, SchedEvent::Reloaded { .. }) => true,
        (Phase::Checking, SchedEvent::Pruned { .. }) => true,
        _ => false,
    }
}

/// The transition of the watch loop: `Scanning -> Sleeping -> (Reloading)
/// -> Checking -> Scanning`, `Stopped` terminal.  A run with `once` set
/// stops after its first scan round; a run in static mode neither reloads
/// nor heartbeats; a heartbeat that cannot be delivered means the watcher
/// is lost, which is a stop request, not a crash.
pub open spec fn spec_scheduler_step(
    phase: Phase,
    once: bool,
    static_mode: bool,
    ev: SchedEvent,
) -> Phase {
    match (phase, ev) {
        (Phase::Scanning, SchedEvent::ScanRound { aborted }) => if aborted || once {
            Phase::Stopped
        } else {
            Phase::Sleeping
        },
        (Phase::Sleeping, SchedEvent::Slept { stop_requested, config_changed, heartbeat_ok }) => {
            if stop_requested {
                Phase::Stopped
            } else if static_mode {
                Phase::Checking
            } else if config_changed {
                Phase::Reloading
            } else if !heartbeat_ok {
                Phase::Stopped
            } else {
                Phase::Checking
            }
        },
        (Phase::Reloading, SchedEvent::Reloaded { fatal, heartbeat_ok }) => if fatal
            || !heartbeat_ok {
            Phase::Stopped
        } else {
            Phase::Checking
        },
        (Phase::Checking, SchedEvent::Pruned { dirs_remaining, dest_exists }) => if dirs_remaining
            == 0 || !dest_exists {
            Phase::Stopped
        } else {
            Phase::Scanning
        },
        _ => Phase::Stopped,
    }
}

pub fn scheduler_step(phase: Phase, once: bool, static_mode: bool, ev: SchedEvent) -> (p: Phase)
    requires
        event_fits(phase, ev),
    ensures
        p == spec_scheduler_step(phase, once, static_mode, ev),
{
    match (phase, ev) {
        (Phase::Scanning, SchedEvent::ScanRound { aborted }) => {
            if aborted || once {
                Phase::Stopped
            } else {
                Phase::Sleeping
            }
        },
        (Phase::Sleeping, SchedEvent::Slept { stop_requested, config_changed, heartbeat_ok }) => {
            if stop_requested {
                Phase::Stopped
            } else if static_mode {
                Phase::Checking
            } else if config_changed {
                Phase::Reloading
            } else if !heartbeat_ok {
                Phase::Stopped
            } else {
                Phase::Checking
            }
        },
        (Phase::Reloading, SchedEvent::Reloaded { fatal, heartbeat_ok }) => {
            if fatal || !heartbeat_ok {
                Phase::Stopped
            } else {
                Phase::Checking
            }
        },
        (Phase::Checking, SchedEvent::Pruned { dirs_remaining, dest_exists }) => {
            if dirs_remaining == 0 || !dest_exists {
                Phase::Stopped
            } else {
                Phase::Scanning
            }
        },
        _ => Phase::Stopped,
    }
}

/// What reaches the watcher on one turn of its loop.
#[derive(Debug, Clone, Copy)]
pub enum WatcherMsg {
    /// The scheduler asks for one more check.
    Heartbeat,
    /// The scheduler asks the watcher to end.
    Terminate,
    /// The channel to the scheduler is gone.
    Disconnected,
}

/// What the watcher does on one turn.
#[derive(Debug, PartialEq, Eq, Structural, Clone, Copy)]
pub struct WatcherStep {
    /// Leave the loop (told to, disconnected, or the sentinel was found).
    pub exit: bool,
    /// Raise the shared changed flag.
    pub set_changed: bool,
    /// Remember the newer modification time.
    pub update_stored_time: bool,
    /// Raise the shared stop flag.
    pub set_stop: bool,
    /// Delete the shutdown sentinel file.
    pub delete_sentinel: bool,
}

/// The watcher's decision: termination and disconnection only end the loop;
/// a heartbeat compares the config file's modification time (`None` when it
/// could not be read, which is not fatal) and then looks for the shutdown
/// sentinel, whose presence asks the whole run to stop.
pub open spec fn spec_watcher_step(
    msg: WatcherMsg,
    mtime_advanced: Option<bool>,
    sentinel_present: bool,
) -> WatcherStep {
    match msg {
        WatcherMsg::Terminate | WatcherMsg::Disconnected => WatcherStep {
            exit: true,
            set_changed: false,
            update_stored_time: false,
            set_stop: false,
            delete_sentinel: false,
        },
        WatcherMsg::Heartbeat => WatcherStep {
            exit: sentinel_present,
            set_changed: mtime_advanced == Some(true),
            update_stored_time: mtime_advanced == Some(true),
            set_stop: sentinel_present,
            delete_sentinel: sentinel_present,
        },
    }
}

pub fn watcher_step(msg: WatcherMsg, mtime_advanced: Option<bool>, sentinel_present: bool) -> (r:
    WatcherStep)
    ensures
        r == spec_watcher_step(msg, mtime_advanced, sentinel_present),
{
    match msg {
        WatcherMsg::Terminate | WatcherMsg::Disconnected => WatcherStep {
            exit: true,
            set_changed: false,
            update_stored_time: false,
            set_stop: false,
            delete_sentinel: false,
        },
        WatcherMsg::Heartbeat => {
            let advanced = match mtime_advanced {
                Some(true) => true,
                _ => false,
            };
            WatcherStep {
                exit: sentinel_present,
                set_changed: advanced,
                update_stored_time: advanced,
                set_stop: sentinel_present,
                delete_sentinel: sentinel_present,
            }
        },
    }
}

} // verus!
