use alacritree::crashes::{human_listing, json_record, order_artifacts, select, Artifact, Verdict};
use alacritree::logdir::parse_name;

fn artifact(name: &str, body: &[u8], verdict: Verdict) -> Artifact {
    let id = parse_name("crash-", name).expect("a crash artifact name");
    Artifact { name: name.to_string(), id, bytes: body.to_vec(), verdict }
}

fn names(listed: &[Artifact]) -> Vec<&str> {
    listed.iter().map(|a| a.name.as_str()).collect()
}

#[test]
fn artifacts_are_ordered_newest_first_then_by_ordinal() {
    let listed = order_artifacts(vec![
        artifact("crash-10-1.log", b"old\n", Verdict::Crashed),
        artifact("crash-20-2-1.log", b"new-b\n", Verdict::Crashed),
        artifact("crash-20-2.log", b"new-a\n", Verdict::Crashed),
    ]);
    assert_eq!(names(&listed), vec!["crash-20-2.log", "crash-20-2-1.log", "crash-10-1.log"]);
}

#[test]
fn a_tie_on_identity_is_broken_by_name() {
    // Two pids that started in the same instant: the same key, so the name
    // decides.
    let listed = order_artifacts(vec![
        artifact("crash-5-9.log", b"", Verdict::Clean),
        artifact("crash-5-10.log", b"", Verdict::Clean),
        artifact("crash-6-1.log", b"", Verdict::Clean),
    ]);
    assert_eq!(names(&listed), vec!["crash-6-1.log", "crash-5-10.log", "crash-5-9.log"]);
}

#[test]
fn unrelated_files_are_ignored() {
    assert!(parse_name("crash-", "state.toml").is_none());
    assert!(parse_name("crash-", "alacritree-1-1.log").is_none());
}

#[test]
fn a_clean_session_is_hidden_by_default_and_shown_with_all() {
    let clean = || vec![artifact("crash-1-1.log", b"t1 start v pid=1\nt2 exit ok\n", Verdict::Clean)];
    assert!(select(clean(), false).is_empty(), "a clean session was shown");
    assert_eq!(select(clean(), true).len(), 1, "--all did not show it");
}

#[test]
fn a_running_session_is_hidden_by_default_and_shown_with_all() {
    let running = || vec![artifact("crash-1-77.log", b"t1 start v pid=77\n", Verdict::Running)];
    assert!(select(running(), false).is_empty(), "a running session was shown");
    assert_eq!(select(running(), true).len(), 1, "--all did not show it");
}

#[test]
fn a_crashed_session_is_shown_by_default() {
    let crashed =
        vec![artifact("crash-1-1.log", b"t1 start v pid=1\nt2 PANIC thread=main\n", Verdict::Crashed)];
    assert_eq!(select(crashed, false).len(), 1, "a crashed session was hidden");
}

#[test]
fn an_indeterminate_session_is_shown_by_default() {
    let odd = vec![artifact("crash-1-1.log", b"no header here\n", Verdict::Indeterminate)];
    assert_eq!(select(odd, false).len(), 1, "an indeterminate session was hidden");
}

#[test]
fn the_default_keeps_the_order_it_was_given() {
    let shown = select(
        vec![
            artifact("crash-3-1.log", b"", Verdict::Crashed),
            artifact("crash-2-1.log", b"", Verdict::Clean),
            artifact("crash-1-1.log", b"", Verdict::Indeterminate),
        ],
        false,
    );
    assert_eq!(names(&shown), vec!["crash-3-1.log", "crash-1-1.log"]);
}

#[test]
fn the_json_shape_carries_the_parsed_identity() {
    let record = json_record(&artifact("crash-42-7.log", b"body\n", Verdict::Crashed));
    assert_eq!(record.name, "crash-42-7.log");
    assert_eq!(record.start, 42);
    assert_eq!(record.pid, 7);
    assert_eq!(record.contents, "body\n");
}

#[test]
fn invalid_utf8_is_still_rendered() {
    let damaged = artifact("crash-1-1.log", &[0x74, 0x78, 0xff, 0x0a], Verdict::Indeterminate);
    assert_eq!(json_record(&damaged).contents, "tx\u{fffd}\n");
    let listing = human_listing(&vec![damaged]);
    let mut expected = b"==> crash-1-1.log <==\n".to_vec();
    expected.extend_from_slice(&[0x74, 0x78, 0xff, 0x0a, 0x0a]);
    assert_eq!(listing, expected);
}
