use alacritree::diag::{
    output_repaint, pause_git_poll, pause_jobs, skip_grid, skip_sidebars, RepaintRequest,
    Switches, SynthKeys,
};

const MS: u64 = 1_000_000;

/// A typist that fired this frame must not fire again until the interval
/// has passed, or the sample measures a burst rather than typing.
#[test]
fn a_keystroke_is_injected_once_per_interval() {
    let now = 5_000 * MS;
    let mut keys = SynthKeys::from_settings("50", Some("0"), now).unwrap();
    let mut events = 0;

    if keys.inject(now).text.is_some() {
        events += 1;
    }
    if keys.inject(now + 1).text.is_some() {
        events += 1;
    }

    assert_eq!(events, 1);
}

/// Printable input reaches the terminal as text, not as a key press.
#[test]
fn the_injected_keystroke_is_text() {
    let now = 7 * MS;
    let mut keys = SynthKeys::from_settings("1", Some("0"), now).unwrap();

    let key = keys.inject(now);

    assert_eq!(key.text, Some('a'));
}

#[test]
fn the_typist_keeps_its_cadence_and_reports_lateness() {
    let mut keys = SynthKeys::from_settings(" 50 ", None, 0).unwrap();
    // No delay setting: the first keystroke waits one interval.
    let early = keys.inject(10 * MS);
    assert_eq!(early.text, None);
    assert_eq!(early.wake_after_ns, (40 * MS) as u128);

    let due = keys.inject(53 * MS);
    assert_eq!(due.text, Some('a'));
    assert_eq!(due.late_ns, (3 * MS) as u128);
    assert_eq!(due.wake_after_ns, (50 * MS) as u128);
}

#[test]
fn a_zero_interval_is_one_millisecond_and_the_delay_is_in_seconds() {
    let mut keys = SynthKeys::from_settings("0", Some("2"), 0).unwrap();
    assert_eq!(keys.inject(0).wake_after_ns, 2_000_000_000);
    let first = keys.inject(2_000_000_000);
    assert_eq!(first.text, Some('a'));
    assert_eq!(first.wake_after_ns, 1_000_000);
}

#[test]
fn a_typist_needs_a_number() {
    assert!(SynthKeys::from_settings("fast", None, 0).is_none());
    assert!(SynthKeys::from_settings("", None, 0).is_none());
    // A delay that is not a number falls back to one interval.
    let mut keys = SynthKeys::from_settings("20", Some("soon"), 0).unwrap();
    assert_eq!(keys.inject(0).wake_after_ns, 20_000_000);
}

#[test]
fn switches_name_what_to_leave_out() {
    let sw = Switches::parse("sidebars,gitpoll");
    assert!(skip_sidebars(&sw));
    assert!(pause_git_poll(&sw));
    assert!(!skip_grid(&sw));
    assert!(!pause_jobs(&sw));
    assert_eq!(sw.repaint_ms, None);
}

#[test]
fn pausing_jobs_pauses_the_poller_too() {
    let sw = Switches::parse("jobs");
    assert!(pause_jobs(&sw));
    assert!(pause_git_poll(&sw));
}

#[test]
fn only_a_piece_naming_the_poller_or_jobs_pauses_it() {
    assert!(pause_git_poll(&Switches::parse(" gitpoll=off ")));
    assert!(pause_git_poll(&Switches::parse("grid, jobs")));
    assert!(!pause_git_poll(&Switches::parse("gitpolls,grid,sidebars,repaint=3")));
    assert!(!pause_git_poll(&Switches::parse("git poll")));
    assert!(!pause_git_poll(&Switches::parse("")));
}

#[test]
fn pieces_are_trimmed_and_empty_ones_skipped() {
    let sw = Switches::parse(" grid ,, repaint=8 ,\tunknown=3,");
    assert!(skip_grid(&sw));
    assert_eq!(sw.repaint_ms, Some(8));
    assert!(!skip_sidebars(&sw));
}

#[test]
fn a_bad_repaint_value_clears_the_interval() {
    assert_eq!(Switches::parse("repaint=8,repaint=soon").repaint_ms, None);
    assert_eq!(Switches::parse("repaint").repaint_ms, None);
    assert_eq!(Switches::parse("repaint=+12").repaint_ms, Some(12));
    assert_eq!(Switches::parse("").repaint_ms, None);
    assert_eq!(Switches::parse(""), Switches::default());
}

#[test]
fn output_repaints_are_coalesced_to_the_interval() {
    // Unablated: always at once, the mark untouched.
    assert_eq!(output_repaint(None, 100, 40), (RepaintRequest::Now, 40));
    // The first one goes through and sets the mark.
    assert_eq!(output_repaint(Some(8), 100 * MS, 0), (RepaintRequest::Now, 100 * MS));
    // One inside the interval waits for its end.
    assert_eq!(
        output_repaint(Some(8), 103 * MS, 100 * MS),
        (RepaintRequest::After((5 * MS) as u128), 100 * MS)
    );
    // One past it goes through.
    assert_eq!(output_repaint(Some(8), 108 * MS, 100 * MS), (RepaintRequest::Now, 108 * MS));
}
