//! Figures for diagnosing a stalled PTY reader: how long the reader, the
//! painter and the event loop went between two turns, what each drain of the
//! console pipe got, and a watchdog that tells a parse holding the terminal
//! from a poll that nothing woke.
//!
//! Every figure is a high-water mark or a count over the current window; a
//! summary reports the window and clears it, so a stall shows as a row of
//! its own.  Times are microseconds from a clock the caller owns.

use vstd::prelude::*;

verus! {

/// The reader's buffer size.  The reader hands out the buffer minus
/// whatever is still unparsed, so the shortfall is the backlog.
pub const READ_BUFFER_SIZE: usize = 0x10_0000;

/// How long without a read counts as a stall worth reporting.
pub const STALL_AFTER_US: u64 = 100_000;

/// How often a summary is written.
pub const SUMMARY_EVERY_US: u64 = 1_000_000;

/// Everything the probe has gathered.
#[derive(Debug, Clone, Copy, PartialEq, Eq, Structural)]
pub struct ProbeStats {
    pub max_backlog: usize,
    pub reads: usize,
    pub frames: usize,
    pub max_wait_us: u64,
    pub max_hold_us: u64,
    pub sum_hold_us: u64,
    pub max_gap_us: u64,
    pub last_frame_us: u64,
    pub updates: usize,
    pub max_update_us: u64,
    pub max_update_gap_us: u64,
    pub last_update_us: u64,
    pub wakeups: usize,
    pub max_wakeup_gap_us: u64,
    pub last_wakeup_us: u64,
    pub max_read_gap_us: u64,
    pub max_read_us: u64,
    pub last_read_us: u64,
    pub drains: usize,
    pub max_drain: usize,
    pub sum_drain: usize,
    pub last_drain: usize,
    pub last_drain_hit_empty: bool,
    pub pokes: usize,
    pub pokes_with_data: usize,
}

pub open spec fn max_u64(a: u64, b: u64) -> u64 {
    if a >= b {
        a
    } else {
        b
    }
}

pub open spec fn max_usize(a: usize, b: usize) -> usize {
    if a >= b {
        a
    } else {
        b
    }
}

/// `a - b`, or zero where `b` is the larger.
pub open spec fn since(a: u64, b: u64) -> u64 {
    if a >= b {
        (a - b) as u64
    } else {
        0
    }
}

/// A probe that has seen nothing.  The last drain counts as having emptied
/// the pipe.
pub open spec fn fresh_stats() -> ProbeStats {
    ProbeStats {
        max_backlog: 0,
        reads: 0,
        frames: 0,
        max_wait_us: 0,
        max_hold_us: 0,
        sum_hold_us: 0,
        max_gap_us: 0,
        last_frame_us: 0,
        updates: 0,
        max_update_us: 0,
        max_update_gap_us: 0,
        last_update_us: 0,
        wakeups: 0,
        max_wakeup_gap_us: 0,
        last_wakeup_us: 0,
        max_read_gap_us: 0,
        max_read_us: 0,
        last_read_us: 0,
        drains: 0,
        max_drain: 0,
        sum_drain: 0,
        last_drain: 0,
        last_drain_hit_empty: true,
        pokes: 0,
        pokes_with_data: 0,
    }
}

impl ProbeStats {
    pub fn new() -> (stats: Self)
        ensures
            stats == fresh_stats(),
    {
        ProbeStats {
            max_backlog: 0,
            reads: 0,
            frames: 0,
            max_wait_us: 0,
            max_hold_us: 0,
            sum_hold_us: 0,
            max_gap_us: 0,
            last_frame_us: 0,
            updates: 0,
            max_update_us: 0,
            max_update_gap_us: 0,
            last_update_us: 0,
            wakeups: 0,
            max_wakeup_gap_us: 0,
            last_wakeup_us: 0,
            max_read_gap_us: 0,
            max_read_us: 0,
            last_read_us: 0,
            drains: 0,
            max_drain: 0,
            sum_drain: 0,
            last_drain: 0,
            last_drain_hit_empty: true,
            pokes: 0,
            pokes_with_data: 0,
        }
    }
}

fn max_of(a: u64, b: u64) -> (m: u64)
    ensures
        m == max_u64(a, b),
{
    if a >= b {
        a
    } else {
        b
    }
}

fn max_of_usize(a: usize, b: usize) -> (m: usize)
    ensures
        m == max_usize(a, b),
{
    if a >= b {
        a
    } else {
        b
    }
}

/// The probe after a read handed `remaining` bytes of buffer at `now_us`.
pub open spec fn after_read(stats: ProbeStats, remaining: usize, now_us: u64) -> ProbeStats {
    ProbeStats {
        reads: stats.reads.wrapping_add(1),
        max_backlog: max_usize(stats.max_backlog, READ_BUFFER_SIZE.saturating_sub(remaining)),
        last_read_us: now_us,
        max_read_gap_us: if stats.last_read_us != 0 {
            max_u64(stats.max_read_gap_us, since(now_us, stats.last_read_us))
        } else {
            stats.max_read_gap_us
        },
        ..stats
    }
}

/// The reader was handed a slice of `remaining` bytes at `now_us`.  The gap
/// since the previous read is a long parse, which is the suspected shape of
/// the freeze; the first read has no gap.
pub fn read_slice(stats: &mut ProbeStats, remaining: usize, now_us: u64)
    ensures
        *final(stats) == after_read(*old(stats), remaining, now_us),
{
    stats.reads = stats.reads.wrapping_add(1);
    stats.max_backlog = max_of_usize(stats.max_backlog, READ_BUFFER_SIZE.saturating_sub(remaining));
    let prev = stats.last_read_us;
    stats.last_read_us = now_us;
    if prev != 0 {
        stats.max_read_gap_us = max_of(stats.max_read_gap_us, now_us.saturating_sub(prev));
    }
}

/// One drain of the console pipe took `took_us` and got `bytes`.
/// `hit_empty` says it stopped because the pipe ran dry rather than because
/// the staging buffer filled.
pub fn drain(stats: &mut ProbeStats, took_us: u64, bytes: usize, hit_empty: bool)
    ensures
        *final(stats) == (ProbeStats {
            max_read_us: max_u64(old(stats).max_read_us, took_us),
            drains: old(stats).drains.wrapping_add(1),
            max_drain: max_usize(old(stats).max_drain, bytes),
            sum_drain: old(stats).sum_drain.wrapping_add(bytes),
            last_drain: bytes,
            last_drain_hit_empty: hit_empty,
            ..*old(stats)
        }),
{
    stats.max_read_us = max_of(stats.max_read_us, took_us);
    stats.drains = stats.drains.wrapping_add(1);
    stats.max_drain = max_of_usize(stats.max_drain, bytes);
    stats.sum_drain = stats.sum_drain.wrapping_add(bytes);
    stats.last_drain = bytes;
    stats.last_drain_hit_empty = hit_empty;
}

/// A terminal lock taken somewhere, waited for `waited_us` and held for
/// `held_us`.
pub fn lock_sample(stats: &mut ProbeStats, waited_us: u64, held_us: u64)
    ensures
        *final(stats) == (ProbeStats {
            max_wait_us: max_u64(old(stats).max_wait_us, waited_us),
            max_hold_us: max_u64(old(stats).max_hold_us, held_us),
            sum_hold_us: old(stats).sum_hold_us.wrapping_add(held_us),
            ..*old(stats)
        }),
{
    stats.max_wait_us = max_of(stats.max_wait_us, waited_us);
    stats.max_hold_us = max_of(stats.max_hold_us, held_us);
    stats.sum_hold_us = stats.sum_hold_us.wrapping_add(held_us);
}

/// What a frame painted at `now_us`, its lock waited for `waited_us` and
/// held for `held_us`, leaves of `stats`.
pub open spec fn after_frame(stats: ProbeStats, waited_us: u64, held_us: u64, now_us: u64) -> ProbeStats {
    ProbeStats {
        last_frame_us: now_us,
        frames: stats.frames.wrapping_add(1),
        max_gap_us: max_u64(stats.max_gap_us, since(now_us, stats.last_frame_us)),
        max_wait_us: max_u64(stats.max_wait_us, waited_us),
        max_hold_us: max_u64(stats.max_hold_us, held_us),
        sum_hold_us: stats.sum_hold_us.wrapping_add(held_us),
        ..stats
    }
}

/// A frame painted at `now_us`, with its lock figures.  The gap since the
/// previous frame is kept so a painter that stops shows up as a gap rather
/// than as silence.
pub fn frame(stats: &mut ProbeStats, waited_us: u64, held_us: u64, now_us: u64)
    ensures
        *final(stats) == after_frame(*old(stats), waited_us, held_us, now_us),
        *final(stats) == (ProbeStats {
            last_frame_us: now_us,
            frames: old(stats).frames.wrapping_add(1),
            max_gap_us: max_u64(old(stats).max_gap_us, since(now_us, old(stats).last_frame_us)),
            max_wait_us: max_u64(old(stats).max_wait_us, waited_us),
            max_hold_us: max_u64(old(stats).max_hold_us, held_us),
            sum_hold_us: old(stats).sum_hold_us.wrapping_add(held_us),
            ..*old(stats)
        }),
{
    let prev = stats.last_frame_us;
    stats.last_frame_us = now_us;
    stats.frames = stats.frames.wrapping_add(1);
    stats.max_gap_us = max_of(stats.max_gap_us, now_us.saturating_sub(prev));
    lock_sample(stats, waited_us, held_us);
}

/// The event loop was woken for PTY output at `now_us`.
pub fn wakeup(stats: &mut ProbeStats, now_us: u64)
    ensures
        *final(stats) == (ProbeStats {
            last_wakeup_us: now_us,
            wakeups: old(stats).wakeups.wrapping_add(1),
            max_wakeup_gap_us: max_u64(
                old(stats).max_wakeup_gap_us,
                since(now_us, old(stats).last_wakeup_us),
            ),
            ..*old(stats)
        }),
{
    let prev = stats.last_wakeup_us;
    stats.last_wakeup_us = now_us;
    stats.wakeups = stats.wakeups.wrapping_add(1);
    stats.max_wakeup_gap_us = max_of(stats.max_wakeup_gap_us, now_us.saturating_sub(prev));
}

/// One update of the window ran at `now_us` and took `took_us`.  Counted
/// apart from frames, so an update that did not repaint the grid is told
/// from one that never ran.
pub fn update_tick(stats: &mut ProbeStats, took_us: u64, now_us: u64)
    ensures
        *final(stats) == (ProbeStats {
            last_update_us: now_us,
            updates: old(stats).updates.wrapping_add(1),
            max_update_us: max_u64(old(stats).max_update_us, took_us),
            max_update_gap_us: max_u64(
                old(stats).max_update_gap_us,
                since(now_us, old(stats).last_update_us),
            ),
            ..*old(stats)
        }),
{
    let prev = stats.last_update_us;
    stats.last_update_us = now_us;
    stats.updates = stats.updates.wrapping_add(1);
    stats.max_update_us = max_of(stats.max_update_us, took_us);
    stats.max_update_gap_us = max_of(stats.max_update_gap_us, now_us.saturating_sub(prev));
}

/// The read loop was woken by hand.
pub fn record_poke(stats: &mut ProbeStats)
    ensures
        *final(stats) == (ProbeStats { pokes: old(stats).pokes.wrapping_add(1), ..*old(stats) }),
{
    stats.pokes = stats.pokes.wrapping_add(1);
}

/// One window's figures.
#[derive(Debug, Clone, Copy, PartialEq, Eq, Structural)]
pub struct Summary {
    pub frames: usize,
    pub reads: usize,
    pub backlog: usize,
    pub wait_us: u64,
    pub hold_us: u64,
    pub hold_sum_us: u64,
    pub gap_us: u64,
    pub updates: usize,
    pub update_max_us: u64,
    pub update_gap_us: u64,
    pub wakeups: usize,
    pub wakeup_gap_us: u64,
    pub read_gap_us: u64,
    pub drain_took_us: u64,
    pub drains: usize,
    pub drain_max: usize,
    pub drain_sum: usize,
    pub pokes: usize,
    pub pokes_with_data: usize,
}

/// The window's figures, as `stats` holds them.
pub open spec fn window_of(stats: ProbeStats) -> Summary {
    Summary {
        frames: stats.frames,
        reads: stats.reads,
        backlog: stats.max_backlog,
        wait_us: stats.max_wait_us,
        hold_us: stats.max_hold_us,
        hold_sum_us: stats.sum_hold_us,
        gap_us: stats.max_gap_us,
        updates: stats.updates,
        update_max_us: stats.max_update_us,
        update_gap_us: stats.max_update_gap_us,
        wakeups: stats.wakeups,
        wakeup_gap_us: stats.max_wakeup_gap_us,
        read_gap_us: stats.max_read_gap_us,
        drain_took_us: stats.max_read_us,
        drains: stats.drains,
        drain_max: stats.max_drain,
        drain_sum: stats.sum_drain,
        pokes: stats.pokes,
        pokes_with_data: stats.pokes_with_data,
    }
}

/// `stats` with its window cleared: the marks of when each thing last
/// happened, and what the last drain got, stay.
pub open spec fn cleared(stats: ProbeStats) -> ProbeStats {
    ProbeStats {
        last_frame_us: stats.last_frame_us,
        last_update_us: stats.last_update_us,
        last_wakeup_us: stats.last_wakeup_us,
        last_read_us: stats.last_read_us,
        last_drain: stats.last_drain,
        last_drain_hit_empty: stats.last_drain_hit_empty,
        ..fresh_stats()
    }
}

/// Whether a summary is due at `now_us`, the last one having been written
/// at `last_us`.
pub fn summary_due(last_us: u64, now_us: u64) -> (due: bool)
    ensures
        due == (since(now_us, last_us) >= SUMMARY_EVERY_US),
{
    now_us.saturating_sub(last_us) >= SUMMARY_EVERY_US
}

/// Report the window, then clear it, so a stall shows as a row of its own
/// rather than as a high-water mark that never comes back down.
pub fn take_summary(stats: &mut ProbeStats) -> (summary: Summary)
    ensures
        summary == window_of(*old(stats)),
        *final(stats) == cleared(*old(stats)),
        summary.frames == old(stats).frames,
        summary.reads == old(stats).reads,
        summary.backlog == old(stats).max_backlog,
        summary.wait_us == old(stats).max_wait_us,
        summary.hold_us == old(stats).max_hold_us,
        summary.hold_sum_us == old(stats).sum_hold_us,
        summary.gap_us == old(stats).max_gap_us,
        summary.updates == old(stats).updates,
        summary.update_max_us == old(stats).max_update_us,
        summary.update_gap_us == old(stats).max_update_gap_us,
        summary.wakeups == old(stats).wakeups,
        summary.wakeup_gap_us == old(stats).max_wakeup_gap_us,
        summary.read_gap_us == old(stats).max_read_gap_us,
        summary.drain_took_us == old(stats).max_read_us,
        summary.drains == old(stats).drains,
        summary.drain_max == old(stats).max_drain,
        summary.drain_sum == old(stats).sum_drain,
        summary.pokes == old(stats).pokes,
        summary.pokes_with_data == old(stats).pokes_with_data,
{
    let summary = Summary {
        frames: stats.frames,
        reads: stats.reads,
        backlog: stats.max_backlog,
        wait_us: stats.max_wait_us,
        hold_us: stats.max_hold_us,
        hold_sum_us: stats.sum_hold_us,
        gap_us: stats.max_gap_us,
        updates: stats.updates,
        update_max_us: stats.max_update_us,
        update_gap_us: stats.max_update_gap_us,
        wakeups: stats.wakeups,
        wakeup_gap_us: stats.max_wakeup_gap_us,
        read_gap_us: stats.max_read_gap_us,
        drain_took_us: stats.max_read_us,
        drains: stats.drains,
        drain_max: stats.max_drain,
        drain_sum: stats.sum_drain,
        pokes: stats.pokes,
        pokes_with_data: stats.pokes_with_data,
    };
    let kept = ProbeStats::new();
    *stats = ProbeStats {
        last_frame_us: stats.last_frame_us,
        last_update_us: stats.last_update_us,
        last_wakeup_us: stats.last_wakeup_us,
        last_read_us: stats.last_read_us,
        last_drain: stats.last_drain,
        last_drain_hit_empty: stats.last_drain_hit_empty,
        ..kept
    };
    summary
}

/// A window reports the longest lock wait and the longest lock hold its
/// frames saw: with one frame in a freshly cleared window, exactly that
/// frame's wait and hold, and with a second frame, the larger of each.
pub proof fn a_summary_reports_the_longest_wait_and_hold(
    stats: ProbeStats,
    waited: u64,
    held: u64,
    now: u64,
    waited2: u64,
    held2: u64,
    now2: u64,
)
    ensures
        ({
            let one = after_frame(cleared(stats), waited, held, now);
            let two = after_frame(one, waited2, held2, now2);
            &&& window_of(one).wait_us == waited
            &&& window_of(one).hold_us == held
            &&& window_of(one).frames == 1
            &&& window_of(two).wait_us == if waited >= waited2 {
                waited
            } else {
                waited2
            }
            &&& window_of(two).hold_us == if held >= held2 {
                held
            } else {
                held2
            }
        }),
{
    let one = after_frame(cleared(stats), waited, held, now);
    assert(one.frames == 1);
}

/// A stall the watchdog has just seen.
#[derive(Debug, Clone, Copy, PartialEq, Eq, Structural)]
pub struct StallSeen {
    /// How long the reader has gone without a read.
    pub idle_us: u64,
    /// What the last drain got.
    pub last_drain: usize,
    /// Whether the last drain emptied the pipe.
    pub pipe_empty: bool,
}

/// A stall the watchdog has seen end.
#[derive(Debug, Clone, Copy, PartialEq, Eq, Structural)]
pub struct StallEnded {
    /// From the read the stall began after to the read that ended it.
    pub lasted_us: u64,
    /// What the read after the poke got.
    pub bytes: usize,
}

/// What one watchdog tick found.  On a stall, the watchdog samples the
/// terminal lock, reports, and wakes the read loop.
#[derive(Debug, Clone, Copy, PartialEq, Eq, Structural)]
pub struct WatchReport {
    pub ended: Option<StallEnded>,
    pub stall: Option<StallSeen>,
}

/// One watchdog tick at `now_us`.  `stalled_after` is the read the current
/// stall began after; a stall is over once another read takes its place.
/// Returns the probe after the tick, the new `stalled_after` and the report.
pub open spec fn spec_watch(stats: ProbeStats, stalled_after: Option<u64>, now_us: u64) -> (
    ProbeStats,
    Option<u64>,
    WatchReport,
) {
    let last_read = stats.last_read_us;
    let quiet = WatchReport { ended: None, stall: None };
    if last_read == 0 {
        (stats, stalled_after, quiet)
    } else if stalled_after == Some(last_read) {
        (stats, stalled_after, quiet)
    } else {
        let (after_end, ended) = match stalled_after {
            Some(start) => (
                ProbeStats {
                    pokes_with_data: if stats.last_drain > 0 {
                        stats.pokes_with_data.wrapping_add(1)
                    } else {
                        stats.pokes_with_data
                    },
                    ..stats
                },
                Some(StallEnded { lasted_us: since(last_read, start), bytes: stats.last_drain }),
            ),
            None => (stats, None),
        };
        let idle = since(now_us, last_read);
        if idle < STALL_AFTER_US {
            (after_end, None, WatchReport { ended, stall: None })
        } else {
            (
                after_end,
                Some(last_read),
                WatchReport {
                    ended,
                    stall: Some(
                        StallSeen {
                            idle_us: idle,
                            last_drain: stats.last_drain,
                            pipe_empty: stats.last_drain_hit_empty,
                        },
                    ),
                },
            )
        }
    }
}

/// One watchdog tick: see `spec_watch`.
pub fn watch_tick(stats: &mut ProbeStats, stalled_after: Option<u64>, now_us: u64) -> (r: (
    Option<u64>,
    WatchReport,
))
    ensures
        (*final(stats), r.0, r.1) == spec_watch(*old(stats), stalled_after, now_us),
{
    let last_read = stats.last_read_us;
    let quiet = WatchReport { ended: None, stall: None };
    if last_read == 0 {
        return (stalled_after, quiet);
    }
    let mut ended = None;
    match stalled_after {
        Some(start) => {
            if start == last_read {
                return (stalled_after, quiet);
            }
            let bytes = stats.last_drain;
            if bytes > 0 {
                stats.pokes_with_data = stats.pokes_with_data.wrapping_add(1);
            }
            ended = Some(StallEnded { lasted_us: last_read.saturating_sub(start), bytes });
        },
        None => {},
    }
    let idle = now_us.saturating_sub(last_read);
    if idle < STALL_AFTER_US {
        return (None, WatchReport { ended, stall: None });
    }
    let stall = StallSeen {
        idle_us: idle,
        last_drain: stats.last_drain,
        pipe_empty: stats.last_drain_hit_empty,
    };
    (Some(last_read), WatchReport { ended, stall: Some(stall) })
}

/// A stall is reported once per read it follows: until another read comes,
/// later ticks report nothing and change nothing.
pub proof fn a_stall_is_reported_once(
    stats: ProbeStats,
    stalled_after: Option<u64>,
    now: u64,
    later: u64,
)
    requires
        spec_watch(stats, stalled_after, now).2.stall is Some,
    ensures
        ({
            let (s1, a1, _) = spec_watch(stats, stalled_after, now);
            let (s2, a2, r2) = spec_watch(s1, a1, later);
            &&& s2 == s1
            &&& a2 == a1
            &&& r2.stall is None
            &&& r2.ended is None
        }),
{
}

/// The first read after a reported stall ends it, and the report spans from
/// the read the stall began after to that one.
pub proof fn the_next_read_ends_a_stall(
    stats: ProbeStats,
    stalled_after: Option<u64>,
    now: u64,
    remaining: usize,
    read_at: u64,
    later: u64,
)
    requires
        spec_watch(stats, stalled_after, now).2.stall is Some,
        read_at != 0,
        read_at != stats.last_read_us,
    ensures
        ({
            let (s1, a1, _) = spec_watch(stats, stalled_after, now);
            spec_watch(after_read(s1, remaining, read_at), a1, later).2.ended == Some(
                StallEnded {
                    lasted_us: since(read_at, stats.last_read_us),
                    bytes: stats.last_drain,
                },
            )
        }),
{
}

} // verus!
