use alacritree::logdir::{
    ProcessId, artifact_name, live_by_process_table, parse_name, pid_is_live,
    reset_identity_for_tests,
    session_log_name, set_ordinal, sort_key,
};

#[test]
fn an_artifact_name_round_trips_through_parsing() {
    let id = ProcessId { start: 1785708131123456789, pid: 50916, ordinal: 0 };

    let name = artifact_name(&id);

    assert_eq!(name, "crash-1785708131123456789-50916.log");
    assert_eq!(parse_name("crash-", &name), Some(id));
}

#[test]
fn a_nonzero_ordinal_survives_the_round_trip() {
    let id = ProcessId { start: 1785708131123456789, pid: 50916, ordinal: 2 };

    let name = artifact_name(&id);

    assert_eq!(name, "crash-1785708131123456789-50916-2.log");
    assert_eq!(parse_name("crash-", &name), Some(id));
}

#[test]
fn the_two_files_share_one_identity() {
    let id = ProcessId { start: 42, pid: 7, ordinal: 1 };

    assert_eq!(parse_name("crash-", &artifact_name(&id)), Some(id));
    assert_eq!(parse_name("alacritree-", &session_log_name(&id)), Some(id));
}

#[test]
fn unrelated_names_do_not_parse() {
    assert_eq!(parse_name("crash-", "state.toml"), None);
    assert_eq!(parse_name("crash-", "crash-notanumber-1.log"), None);
    assert_eq!(parse_name("crash-", "crash-1.log"), None);
}

#[test]
fn artifacts_sort_newest_first_then_by_ordinal() {
    let old = ProcessId { start: 10, pid: 1, ordinal: 0 };
    let new_a = ProcessId { start: 20, pid: 2, ordinal: 0 };
    let new_b = ProcessId { start: 20, pid: 2, ordinal: 1 };
    let mut all = vec![new_b, old, new_a];

    all.sort_by_key(sort_key);

    assert_eq!(all, vec![new_a, new_b, old]);
}

#[test]
fn an_impossible_pid_is_not_live() {
    assert!(!pid_is_live(0));
}

#[test]
fn the_process_table_decides_for_every_other_pid() {
    assert!(live_by_process_table(4321, true));
    assert!(!live_by_process_table(4321, false));
    assert!(!live_by_process_table(0, true));
}

#[test]
fn the_identity_is_stable_except_for_the_ordinal() {
    let mut identity = ProcessId { start: 99, pid: 4321, ordinal: 5 };
    reset_identity_for_tests(&mut identity);
    let first = identity;

    set_ordinal(&mut identity, 3);
    let second = identity;

    assert_eq!(first.start, second.start);
    assert_eq!(first.pid, second.pid);
    assert_eq!(second.ordinal, 3);
    assert_eq!(first.ordinal, 0);
}

#[test]
fn a_signed_or_overflowing_field_does_not_parse() {
    assert_eq!(parse_name("crash-", "crash--1-2.log"), None);
    assert_eq!(parse_name("crash-", "crash-1-4294967296.log"), None);
    assert_eq!(parse_name("crash-", "crash-1-2-3-4.log"), None);
    assert_eq!(
        parse_name("crash-", "crash-+7-8.log"),
        Some(ProcessId { start: 7, pid: 8, ordinal: 0 })
    );
    assert_eq!(parse_name("crash-", "crash-7-8-0.log"), Some(ProcessId { start: 7, pid: 8, ordinal: 0 }));
}

#[test]
fn the_largest_identity_round_trips() {
    let id = ProcessId { start: u128::MAX, pid: u32::MAX, ordinal: u32::MAX };
    assert_eq!(parse_name("crash-", &artifact_name(&id)), Some(id));
    assert_eq!(session_log_name(&ProcessId { start: 0, pid: 0, ordinal: 0 }), "alacritree-0-0.log");
}
