use fcs::scheduler::{
    admits, decide_file, scheduler_step, watcher_step, FileDecision, Phase, SchedEvent,
    WatcherMsg, WatcherStep,
};

#[test]
fn admission_counts_separators_against_the_threshold() {
    assert!(admits("a.b.c", '.', 1));
    assert!(!admits("a.b", '.', 1));
    assert!(!admits("plain", '.', 1));
    assert!(admits("a-b-c-d", '-', 2));
    assert!(!admits("a.b.c", '.', 2));
}

#[test]
fn vanished_candidate_is_skipped_not_fatal() {
    // The file matched the admission rule at scan time, then disappeared.
    assert!(admits("a.b.c", '.', 1));
    let d = decide_file(false, true, false);
    assert_eq!(d, FileDecision::SkipFile);
    assert_ne!(d, FileDecision::AbortRun);
}

#[test]
fn missing_destination_is_always_fatal() {
    assert_eq!(decide_file(false, false, true), FileDecision::AbortRun);
    assert_eq!(decide_file(false, false, false), FileDecision::AbortRun);
    assert_eq!(decide_file(true, false, true), FileDecision::AbortRun);
}

#[test]
fn present_file_is_processed() {
    assert_eq!(decide_file(false, true, true), FileDecision::Process);
    assert_eq!(decide_file(true, true, true), FileDecision::AbortRun);
}

#[test]
fn scheduler_phases_follow_the_cycle() {
    // A clean round: scan, sleep, check, scan again.
    let p = scheduler_step(Phase::Scanning, false, false, SchedEvent::ScanRound { aborted: false });
    assert_eq!(p, Phase::Sleeping);
    let p = scheduler_step(
        p,
        false,
        false,
        SchedEvent::Slept { stop_requested: false, config_changed: false, heartbeat_ok: true },
    );
    assert_eq!(p, Phase::Checking);
    let p = scheduler_step(
        p,
        false,
        false,
        SchedEvent::Pruned { dirs_remaining: 2, dest_exists: true },
    );
    assert_eq!(p, Phase::Scanning);
}

#[test]
fn scheduler_stops_when_told() {
    // `once` stops after the first round.
    assert_eq!(
        scheduler_step(Phase::Scanning, true, false, SchedEvent::ScanRound { aborted: false }),
        Phase::Stopped
    );
    // An aborted batch stops the run.
    assert_eq!(
        scheduler_step(Phase::Scanning, false, false, SchedEvent::ScanRound { aborted: true }),
        Phase::Stopped
    );
    // A stop requested during the sleep stops the run.
    assert_eq!(
        scheduler_step(
            Phase::Sleeping,
            false,
            false,
            SchedEvent::Slept { stop_requested: true, config_changed: true, heartbeat_ok: true },
        ),
        Phase::Stopped
    );
    // Losing the watcher is a stop request, not a crash.
    assert_eq!(
        scheduler_step(
            Phase::Sleeping,
            false,
            false,
            SchedEvent::Slept { stop_requested: false, config_changed: false, heartbeat_ok: false },
        ),
        Phase::Stopped
    );
    // A fatal reload stops the run.
    assert_eq!(
        scheduler_step(
            Phase::Reloading,
            false,
            false,
            SchedEvent::Reloaded { fatal: true, heartbeat_ok: true },
        ),
        Phase::Stopped
    );
    // No watch directory left, or no destination: stop.
    assert_eq!(
        scheduler_step(
            Phase::Checking,
            false,
            false,
            SchedEvent::Pruned { dirs_remaining: 0, dest_exists: true },
        ),
        Phase::Stopped
    );
    assert_eq!(
        scheduler_step(
            Phase::Checking,
            false,
            false,
            SchedEvent::Pruned { dirs_remaining: 1, dest_exists: false },
        ),
        Phase::Stopped
    );
}

#[test]
fn scheduler_reloads_only_when_watching() {
    // A changed configuration sends the loop through the reload phase.
    assert_eq!(
        scheduler_step(
            Phase::Sleeping,
            false,
            false,
            SchedEvent::Slept { stop_requested: false, config_changed: true, heartbeat_ok: true },
        ),
        Phase::Reloading
    );
    assert_eq!(
        scheduler_step(
            Phase::Reloading,
            false,
            false,
            SchedEvent::Reloaded { fatal: false, heartbeat_ok: true },
        ),
        Phase::Checking
    );
    // Static mode never reloads, whatever the changed flag says.
    assert_eq!(
        scheduler_step(
            Phase::Sleeping,
            false,
            true,
            SchedEvent::Slept { stop_requested: false, config_changed: true, heartbeat_ok: false },
        ),
        Phase::Checking
    );
}

#[test]
fn watcher_reacts_to_heartbeats_and_the_sentinel() {
    // A heartbeat with an advanced modification time raises the changed flag.
    assert_eq!(
        watcher_step(WatcherMsg::Heartbeat, Some(true), false),
        WatcherStep {
            exit: false,
            set_changed: true,
            update_stored_time: true,
            set_stop: false,
            delete_sentinel: false,
        }
    );
    // An unchanged or unreadable file changes nothing; waiting goes on.
    assert_eq!(
        watcher_step(WatcherMsg::Heartbeat, Some(false), false),
        WatcherStep {
            exit: false,
            set_changed: false,
            update_stored_time: false,
            set_stop: false,
            delete_sentinel: false,
        }
    );
    assert_eq!(
        watcher_step(WatcherMsg::Heartbeat, None, false),
        WatcherStep {
            exit: false,
            set_changed: false,
            update_stored_time: false,
            set_stop: false,
            delete_sentinel: false,
        }
    );
    // The sentinel asks the whole run to stop and is deleted.
    assert_eq!(
        watcher_step(WatcherMsg::Heartbeat, Some(false), true),
        WatcherStep {
            exit: true,
            set_changed: false,
            update_stored_time: false,
            set_stop: true,
            delete_sentinel: true,
        }
    );
    // Termination and disconnection only end the watcher.
    let quiet = WatcherStep {
        exit: true,
        set_changed: false,
        update_stored_time: false,
        set_stop: false,
        delete_sentinel: false,
    };
    assert_eq!(watcher_step(WatcherMsg::Terminate, None, true), quiet);
    assert_eq!(watcher_step(WatcherMsg::Disconnected, None, false), quiet);
}
