use alacritree::crash_log::{
    classify_session_end, next_attempt, ArtifactPlan, Attempt, CreateOutcome, ExitReason, Recorder,
};
use alacritree::logdir::{artifact_name, ProcessId};

fn identity() -> ProcessId {
    ProcessId { start: 1_700_000_000_000, pid: 4242, ordinal: 0 }
}

fn armed() -> Recorder {
    let mut recorder = Recorder::new();
    recorder.install("/tmp/logs".to_string(), "1.2.3".to_string(), true);
    recorder
}

#[test]
fn a_new_recorder_writes_nothing_until_installed() {
    let recorder = Recorder::new();
    assert!(!recorder.writable());
    assert!(!recorder.session_begin());
    assert_eq!(recorder.record_exit(&Ok(()), 5), None);
    assert!(matches!(recorder.plan_artifact(&identity()), ArtifactPlan::Nowhere));
}

#[test]
fn a_disabled_recorder_writes_nothing() {
    let mut recorder = armed();
    recorder.set_enabled(false);
    assert!(!recorder.session_begin());
    assert_eq!(recorder.record_exit(&Ok(()), 5), None);
    assert_eq!(recorder.record_panic(5, None, None, "silenced", &vec![]), None);
}

#[test]
fn a_directory_that_cannot_be_created_breaks_the_recorder() {
    let mut recorder = Recorder::new();
    recorder.install("/nowhere".to_string(), "1".to_string(), false);
    assert!(recorder.broken);
    assert!(!recorder.writable());
}

#[test]
fn a_clean_exit_is_recorded_and_nothing_is_deleted() {
    let recorder = armed();
    assert!(recorder.session_begin());
    assert_eq!(recorder.record_exit(&Ok(()), 17), Some("t17 exit ok\n".to_string()));
    assert_eq!(
        recorder.record_exit(&Err("no window".to_string()), 18),
        Some("t18 exit error: no window\n".to_string())
    );
}

#[test]
fn skipped_panic_records_are_counted_at_exit() {
    let mut recorder = armed();
    recorder.panic_skipped();
    recorder.panic_skipped();
    assert_eq!(
        recorder.record_exit(&Ok(()), 9),
        Some("t9 panic records skipped: 2\nt9 exit ok\n".to_string())
    );
}

#[test]
fn a_panic_is_recorded_with_its_payload_location_and_thread() {
    let recorder = armed();
    let backtrace = vec!["0: main".to_string(), "1: start".to_string()];
    let text = recorder
        .record_panic(3, Some("pty-worker"), Some(("src/crash_log.rs", 12)), "boom-marker", &backtrace)
        .unwrap();
    assert_eq!(
        text,
        "t3 PANIC thread=pty-worker\n  at src/crash_log.rs:12\n  boom-marker\n  0: main\n  1: start\n"
    );
    let anonymous = recorder.record_panic(4, None, None, "x", &vec![]).unwrap();
    assert_eq!(anonymous, "t4 PANIC thread=unnamed\n  at unknown location\n  x\n");
}

#[test]
fn the_header_names_the_version_and_pid() {
    let recorder = armed();
    assert_eq!(recorder.header(&identity(), 100), "t100 start 1.2.3 pid=4242\n");
}

#[test]
fn a_colliding_path_is_left_untouched_and_the_next_ordinal_is_used() {
    let tried = identity();
    let next = next_attempt(tried, 0, CreateOutcome::AlreadyExists);
    assert_eq!(next, Attempt::Retry(ProcessId { ordinal: 1, ..tried }));
    assert_eq!(next_attempt(tried, 31, CreateOutcome::AlreadyExists), Attempt::GiveUp);
    assert_eq!(next_attempt(tried, 3, CreateOutcome::Failed), Attempt::GiveUp);
    assert_eq!(next_attempt(tried, 3, CreateOutcome::Created), Attempt::Done(tried));

    // The ordinal the allocator settled on is kept by the process identity.
    let mut recorder = armed();
    let mut process = identity();
    let created = ProcessId { ordinal: 1, ..process };
    recorder.artifact_created(&mut process, &created);
    assert_eq!(process.ordinal, 1);
    assert_eq!(recorder.artifact, Some(artifact_name(&created)));
}

#[test]
fn only_this_process_s_own_artifact_is_reopened() {
    let mut recorder = armed();
    let mut process = identity();
    assert!(matches!(recorder.plan_artifact(&process), ArtifactPlan::Create(id) if id == process));
    let created = process;
    recorder.artifact_created(&mut process, &created);
    match recorder.plan_artifact(&process) {
        ArtifactPlan::Reopen { name, fallback } => {
            assert_eq!(name, "crash-1700000000000-4242.log");
            assert_eq!(fallback, process);
        },
        _ => panic!("expected the artifact to be reopened"),
    }
}

#[test]
fn a_broken_disk_is_reported_once() {
    let mut recorder = armed();
    assert!(recorder.fail_once());
    assert!(!recorder.fail_once());
    assert!(!recorder.writable());
}

#[test]
fn a_reset_starts_over_in_the_given_directory() {
    let mut recorder = armed();
    let mut process = ProcessId { ordinal: 5, ..identity() };
    recorder.set_enabled(false);
    recorder.fail_once();
    recorder.panic_skipped();
    recorder.reset_for_tests("/tmp/other".to_string(), &mut process);
    assert!(recorder.writable());
    assert_eq!(recorder.skipped, 0);
    assert_eq!(recorder.dir, Some("/tmp/other".to_string()));
    assert_eq!(recorder.artifact, None);
    assert_eq!(process.ordinal, 0);
    assert_eq!(
        recorder.artifact_path_for_tests(&process),
        Some("crash-1700000000000-4242.log".to_string())
    );
}

/// A worker thread panicking leaves the app running, so the record has to
/// name the thread or it is unattributable.
#[test]
fn a_named_worker_thread_is_named_in_its_record() {
    let recorder = armed();
    let text = recorder.record_panic(1, Some("pty-worker"), None, "worker-boom", &vec![]).unwrap();
    assert!(text.contains("thread=pty-worker"));
    assert!(text.contains("worker-boom"));
}

/// A detached worker can outlive the exit, and its record has to land in
/// the same file rather than in a resurrected one.
#[test]
fn a_panic_after_the_exit_marker_lands_in_the_same_file() {
    let mut recorder = armed();
    let mut process = identity();
    let created = process;
    recorder.artifact_created(&mut process, &created);
    assert!(recorder.record_exit(&Ok(()), 2).is_some());
    assert!(recorder.record_panic(3, None, None, "late-worker", &vec![]).is_some());
    assert!(matches!(
        recorder.plan_artifact(&process),
        ArtifactPlan::Reopen { ref name, .. } if name == "crash-1700000000000-4242.log"
    ));
}

/// A file deleted underneath a live process comes back through the same
/// allocator, so it cannot be left without a header.
#[test]
fn a_deleted_artifact_is_recreated_with_a_header() {
    let mut recorder = armed();
    let mut process = identity();
    let created = process;
    recorder.artifact_created(&mut process, &created);
    // Reopening fails once the file is gone; the plan says where to create
    // the replacement, which then gets a header of its own.
    match recorder.plan_artifact(&process) {
        ArtifactPlan::Reopen { fallback, .. } => {
            assert_eq!(fallback, process);
            assert_eq!(recorder.header(&fallback, 8), "t8 start 1.2.3 pid=4242\n");
        },
        _ => panic!("expected the artifact to be reopened"),
    }
}

#[test]
fn a_session_end_names_the_most_specific_reason() {
    assert_eq!(classify_session_end(0x1), ExitReason::OsCloseApp);
    // A Restart Manager shutdown during a logoff sets both flags.
    assert_eq!(classify_session_end(0x8000_0001u32 as isize), ExitReason::OsCloseApp);
    assert_eq!(classify_session_end(0x8000_0000u32 as isize), ExitReason::OsLogoff);
    assert_eq!(classify_session_end(0), ExitReason::OsShutdown);
    // Only the low 32 bits carry flags.
    assert_eq!(classify_session_end(1isize << 40), ExitReason::OsShutdown);
}
