use alacritree::stall::{
    drain, frame, lock_sample, read_slice, record_poke, summary_due, take_summary, update_tick,
    wakeup, watch_tick, ProbeStats, StallEnded, READ_BUFFER_SIZE,
};

#[test]
fn the_backlog_is_the_shortfall_of_the_read_slice() {
    let mut stats = ProbeStats::new();
    read_slice(&mut stats, READ_BUFFER_SIZE - 4096, 10);
    read_slice(&mut stats, READ_BUFFER_SIZE, 20);
    assert_eq!(stats.max_backlog, 4096);
    assert_eq!(stats.reads, 2);
    // A larger slice than the buffer is no backlog at all.
    read_slice(&mut stats, READ_BUFFER_SIZE + 1, 30);
    assert_eq!(stats.max_backlog, 4096);
}

#[test]
fn the_first_read_has_no_gap_and_later_ones_keep_the_longest() {
    let mut stats = ProbeStats::new();
    read_slice(&mut stats, 0, 1_000);
    assert_eq!(stats.max_read_gap_us, 0);
    read_slice(&mut stats, 0, 1_500);
    read_slice(&mut stats, 0, 1_600);
    assert_eq!(stats.max_read_gap_us, 500);
    assert_eq!(stats.last_read_us, 1_600);
}

#[test]
fn drains_and_locks_fold_into_their_figures() {
    let mut stats = ProbeStats::new();
    assert!(stats.last_drain_hit_empty);
    drain(&mut stats, 30, 2048, false);
    drain(&mut stats, 10, 1024, true);
    assert_eq!(stats.drains, 2);
    assert_eq!(stats.max_drain, 2048);
    assert_eq!(stats.sum_drain, 3072);
    assert_eq!(stats.max_read_us, 30);
    assert_eq!(stats.last_drain, 1024);
    assert!(stats.last_drain_hit_empty);

    lock_sample(&mut stats, 5, 7);
    frame(&mut stats, 9, 3, 2_000);
    assert_eq!(stats.max_wait_us, 9);
    assert_eq!(stats.max_hold_us, 7);
    assert_eq!(stats.sum_hold_us, 10);
    assert_eq!(stats.frames, 1);
    assert_eq!(stats.max_gap_us, 2_000);
}

#[test]
fn wakeups_and_updates_keep_their_longest_gap() {
    let mut stats = ProbeStats::new();
    wakeup(&mut stats, 100);
    wakeup(&mut stats, 400);
    assert_eq!(stats.wakeups, 2);
    assert_eq!(stats.max_wakeup_gap_us, 300);
    update_tick(&mut stats, 12, 1_000);
    update_tick(&mut stats, 4, 1_250);
    assert_eq!(stats.updates, 2);
    assert_eq!(stats.max_update_us, 12);
    assert_eq!(stats.max_update_gap_us, 1_000);
}

#[test]
fn a_summary_reports_the_window_then_clears_it() {
    let mut stats = ProbeStats::new();
    read_slice(&mut stats, 0, 500);
    drain(&mut stats, 3, 77, false);
    record_poke(&mut stats);
    let summary = take_summary(&mut stats);
    assert_eq!(summary.reads, 1);
    assert_eq!(summary.drain_sum, 77);
    assert_eq!(summary.pokes, 1);
    assert_eq!(stats.reads, 0);
    assert_eq!(stats.sum_drain, 0);
    assert_eq!(stats.pokes, 0);
    // When things last happened survives the clear.
    assert_eq!(stats.last_read_us, 500);
    assert_eq!(stats.last_drain, 77);
    assert!(!stats.last_drain_hit_empty);
    assert_eq!(take_summary(&mut stats).reads, 0);
}

#[test]
fn a_summary_is_due_once_a_second() {
    assert!(!summary_due(0, 999_999));
    assert!(summary_due(0, 1_000_000));
    assert!(!summary_due(5, 3));
}

#[test]
fn the_watchdog_reports_a_stall_once_and_its_end_on_the_next_read() {
    let mut stats = ProbeStats::new();
    // Nothing read yet: nothing to watch.
    let (after, report) = watch_tick(&mut stats, None, 1_000_000);
    assert_eq!(after, None);
    assert!(report.stall.is_none());

    read_slice(&mut stats, 0, 1_000);
    drain(&mut stats, 1, 0, true);
    // Under the stall threshold: quiet.
    let (after, report) = watch_tick(&mut stats, None, 50_000);
    assert_eq!(after, None);
    assert!(report.stall.is_none() && report.ended.is_none());

    let (after, report) = watch_tick(&mut stats, None, 201_000);
    assert_eq!(after, Some(1_000));
    let stall = report.stall.unwrap();
    assert_eq!(stall.idle_us, 200_000);
    assert!(stall.pipe_empty);

    // No new read: nothing more to say.
    let (after, report) = watch_tick(&mut stats, after, 400_000);
    assert_eq!(after, Some(1_000));
    assert!(report.stall.is_none() && report.ended.is_none());

    // The poked read got bytes, which ends the stall.
    drain(&mut stats, 2, 4096, false);
    read_slice(&mut stats, 0, 450_000);
    let (after, report) = watch_tick(&mut stats, after, 451_000);
    assert_eq!(after, None);
    assert_eq!(report.ended, Some(StallEnded { lasted_us: 449_000, bytes: 4096 }));
    assert_eq!(stats.pokes_with_data, 1);
}
