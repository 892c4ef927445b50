//! Copies the PTY byte stream on its way through, so a second parser can see
//! the OSC sequences the terminal's own escape layer drops.
//!
//! The copy is all this layer does: the bytes go to a thread of their own,
//! and buffers cycle back through a return channel rather than being
//! allocated per read.  A tap that cannot keep up costs dropped reads, never
//! a blocked or failed read.

use std::sync::mpsc::{Receiver, SyncSender};

use vstd::prelude::*;

verus! {

/// How many reads may be in flight before the tap starts dropping them.
pub const QUEUE_DEPTH: usize = 64;

#[verifier::external_type_specification]
#[verifier::external_body]
#[verifier::reject_recursive_types(T)]
pub struct ExSyncSender<T>(SyncSender<T>);

#[verifier::external_type_specification]
#[verifier::external_body]
#[verifier::reject_recursive_types(T)]
pub struct ExReceiver<T>(Receiver<T>);

/// One read's worth of bytes on its way to the tap.
pub struct Chunk {
    pub bytes: Vec<u8>,
    /// Set when the queue was full and a read was dropped before this one.
    /// A hole in the stream makes framing meaningless, so the tap resets.
    pub gap_before: bool,
}

/// What became of a chunk offered to the tap's queue.
#[derive(Debug, Clone, Copy, PartialEq, Eq, Structural)]
pub enum SendOutcome {
    Sent,
    /// The queue was full; the chunk was dropped.
    Full,
    /// The tap thread is gone.
    Disconnected,
}

/// `SyncSender::try_send`, told apart by outcome.  Which one comes back
/// depends on the receiving thread, so nothing is promised about it.
#[verifier::external_body]
fn try_send(tx: &SyncSender<Chunk>, chunk: Chunk) -> (outcome: SendOutcome) {
    match tx.try_send(chunk) {
        Ok(()) => SendOutcome::Sent,
        Err(std::sync::mpsc::TrySendError::Full(_)) => SendOutcome::Full,
        Err(std::sync::mpsc::TrySendError::Disconnected(_)) => SendOutcome::Disconnected,
    }
}

/// `Receiver::try_recv`: a buffer the tap thread handed back, if one is
/// waiting.  What it holds is the tap thread's business.
#[verifier::external_body]
fn try_take_buffer(pool: &Receiver<Vec<u8>>) -> (buffer: Option<Vec<u8>>) {
    pool.try_recv().ok()
}

/// What the handle knows of the stream so far, replaced whole by each offer.
struct TapState {
    dropped: bool,
    dead: bool,
    /// Every read offered to the queue so far: its bytes, whether a read
    /// was dropped before it, and what the queue answered.
    offers: Ghost<Seq<(Seq<u8>, bool, SendOutcome)>>,
}

/// The read thread's half of the tap.
pub struct TapHandle {
    tx: SyncSender<Chunk>,
    pool: Receiver<Vec<u8>>,
    state: TapState,
    /// How many times a buffer was asked for from the pool.
    takes: Ghost<nat>,
}

/// The chunk carrying `filled`, built in a reused buffer: its old contents
/// are discarded.
pub fn make_chunk(buffer: Vec<u8>, filled: &[u8], gap_before: bool) -> (chunk: Chunk)
    ensures
        chunk.bytes@ == filled@,
        chunk.gap_before == gap_before,
{
    let mut bytes = buffer;
    bytes.clear();
    let mut i: usize = 0;
    while i < filled.len()
        invariant
            i <= filled.len(),
            bytes@ == filled@.take(i as int),
        decreases filled.len() - i,
    {
        bytes.push(filled[i]);
        assert(filled@.take(i as int).push(filled@[i as int]) =~= filled@.take(i + 1));
        i += 1;
    }
    assert(filled@.take(filled.len() as int) =~= filled@);
    Chunk { bytes, gap_before }
}

/// Whether a read was dropped since the last delivered chunk, once the
/// queue answered `outcome` to a handle where that was `dropped`.
pub open spec fn dropped_after(dropped: bool, outcome: SendOutcome) -> bool {
    match outcome {
        SendOutcome::Sent => false,
        SendOutcome::Full => true,
        SendOutcome::Disconnected => dropped,
    }
}

/// What one `offer` of `filled` does to a handle: a dead tap is left alone,
/// its buffer pool untouched; otherwise one buffer is asked for from the
/// pool and exactly one chunk, carrying `filled` and whether a read was
/// dropped before it, is offered to the queue, and the handle follows the
/// queue's answer.  The queue and the buffer pool stay the same.
pub open spec fn offered_one(before: TapHandle, after: TapHandle, filled: Seq<u8>) -> bool {
    &&& after.sender() == before.sender()
    &&& after.buffer_pool() == before.buffer_pool()
    &&& if before.is_dead() {
        &&& after.offers() == before.offers()
        &&& after.pool_takes() == before.pool_takes()
        &&& after.has_dropped() == before.has_dropped()
        &&& after.is_dead()
    } else {
        let outcome = after.offers().last().2;
        &&& after.pool_takes() == before.pool_takes() + 1
        &&& after.offers().len() == before.offers().len() + 1
        &&& after.offers().drop_last() == before.offers()
        &&& after.offers().last().0 == filled
        &&& after.offers().last().1 == before.has_dropped()
        &&& after.has_dropped() == dropped_after(before.has_dropped(), outcome)
        &&& after.is_dead() == (outcome == SendOutcome::Disconnected)
    }
}

/// Whether a read had been dropped, for want of room in the queue, before
/// the offer at `i` in a run of offers that began on a fresh handle.
pub open spec fn dropped_before(offers: Seq<(Seq<u8>, bool, SendOutcome)>, i: int) -> bool
    decreases i,
{
    if i <= 0 {
        false
    } else {
        dropped_after(dropped_before(offers, i - 1), offers[i - 1].2)
    }
}

/// Whether a handle's record of offers agrees with its state: every chunk's
/// gap flag, and the handle's own, is what the queue's answers so far make
/// it, and the handle is dead once the queue was found disconnected.  Every
/// handle keeps it.
#[verifier::type_invariant]
pub open spec fn honest_log(tap: TapHandle) -> bool {
    let log = tap.offers();
    &&& forall|i: int| 0 <= i < log.len() ==> (#[trigger] log[i]).1 == dropped_before(log, i)
    &&& tap.has_dropped() == dropped_before(log, log.len() as int)
    &&& tap.is_dead() == (log.len() > 0 && log.last().2 == SendOutcome::Disconnected)
    &&& forall|i: int| 0 <= i < log.len() - 1 ==> (#[trigger] log[i]).2 != SendOutcome::Disconnected
}

proof fn lemma_dropped_before_prefix(log: Seq<(Seq<u8>, bool, SendOutcome)>, i: int)
    requires
        0 <= i <= log.len(),
    ensures
        dropped_before(log, i) == dropped_before(log.take(i), i),
    decreases i,
{
    if i > 0 {
        lemma_dropped_before_prefix(log, i - 1);
        lemma_dropped_before_prefix(log.take(i), i - 1);
        assert(log.take(i).take(i - 1) =~= log.take(i - 1));
        assert(log.take(i)[i - 1] == log[i - 1]);
    }
}

/// Whether no offer strictly between `j` and `i` was taken by the queue.
pub open spec fn undelivered_between(offers: Seq<(Seq<u8>, bool, SendOutcome)>, j: int, i: int) -> bool {
    forall|k: int| j < k < i ==> (#[trigger] offers[k]).2 != SendOutcome::Sent
}

proof fn lemma_gap_has_a_cause(offers: Seq<(Seq<u8>, bool, SendOutcome)>, i: int) -> (j: int)
    requires
        0 <= i <= offers.len(),
        dropped_before(offers, i),
    ensures
        0 <= j < i,
        offers[j].2 == SendOutcome::Full,
        undelivered_between(offers, j, i),
    decreases i,
{
    if offers[i - 1].2 == SendOutcome::Full {
        i - 1
    } else {
        let j = lemma_gap_has_a_cause(offers, i - 1);
        assert(offers[i - 1].2 != SendOutcome::Sent);
        j
    }
}

proof fn lemma_cause_makes_a_gap(offers: Seq<(Seq<u8>, bool, SendOutcome)>, i: int, j: int)
    requires
        0 <= j < i <= offers.len(),
        offers[j].2 == SendOutcome::Full,
        undelivered_between(offers, j, i),
    ensures
        dropped_before(offers, i),
    decreases i,
{
    if j < i - 1 {
        assert(offers[i - 1].2 != SendOutcome::Sent);
        assert(undelivered_between(offers, j, i - 1));
        lemma_cause_makes_a_gap(offers, i - 1, j);
    }
}

/// A chunk announces a gap exactly when, since the last chunk the queue
/// took, some read was dropped because the queue was full.
pub proof fn gaps_mark_dropped_reads(offers: Seq<(Seq<u8>, bool, SendOutcome)>, i: int)
    requires
        0 <= i <= offers.len(),
    ensures
        dropped_before(offers, i) <==> exists|j: int|
            0 <= j < i && (#[trigger] offers[j]).2 == SendOutcome::Full && undelivered_between(
                offers,
                j,
                i,
            ),
{
    if dropped_before(offers, i) {
        let j = lemma_gap_has_a_cause(offers, i);
        assert(offers[j].2 == SendOutcome::Full);
    }
    if exists|j: int|
        0 <= j < i && (#[trigger] offers[j]).2 == SendOutcome::Full && undelivered_between(
            offers,
            j,
            i,
        ) {
        let j = choose|j: int|
            0 <= j < i && (#[trigger] offers[j]).2 == SendOutcome::Full && undelivered_between(
                offers,
                j,
                i,
            );
        lemma_cause_makes_a_gap(offers, i, j);
    }
}

/// A fresh handle's first offer carries no gap.
pub proof fn a_fresh_tap_announces_no_gap(before: TapHandle, after: TapHandle, filled: Seq<u8>)
    requires
        before.offers().len() == 0,
        !before.has_dropped(),
        !before.is_dead(),
        offered_one(before, after, filled),
    ensures
        after.offers().len() == 1,
        after.offers()[0].0 == filled,
        !after.offers()[0].1,
{
}

impl TapHandle {
    /// A handle that sends on `tx` and takes buffers back from `pool`, with
    /// nothing offered or dropped yet.
    pub fn new(tx: SyncSender<Chunk>, pool: Receiver<Vec<u8>>) -> (tap: Self)
        ensures
            tap.sender() == tx,
            tap.buffer_pool() == pool,
            !tap.has_dropped(),
            !tap.is_dead(),
            tap.offers() == Seq::<(Seq<u8>, bool, SendOutcome)>::empty(),
            tap.pool_takes() == 0,
            honest_log(tap),
    {
        let state = TapState { dropped: false, dead: false, offers: Ghost(Seq::empty()) };
        Self { tx, pool, state, takes: Ghost(0) }
    }

    /// The channel the tap thread hands buffers back on.
    pub fn pool(&self) -> (pool: &Receiver<Vec<u8>>)
        ensures
            *pool == self.buffer_pool(),
    {
        &self.pool
    }

    /// The queue chunks go to.
    pub closed spec fn sender(&self) -> SyncSender<Chunk> {
        self.tx
    }

    /// The channel buffers come back on.
    pub closed spec fn buffer_pool(&self) -> Receiver<Vec<u8>> {
        self.pool
    }

    /// The reads offered to the queue so far.
    pub closed spec fn offers(&self) -> Seq<(Seq<u8>, bool, SendOutcome)> {
        self.state.offers@
    }

    /// How many times a buffer was asked for from the pool so far.
    pub closed spec fn pool_takes(&self) -> nat {
        self.takes@
    }

    /// Whether a read was dropped since the last chunk that went through.
    pub closed spec fn has_dropped(&self) -> bool {
        self.state.dropped
    }

    /// Whether the tap thread is known to be gone.
    pub closed spec fn is_dead(&self) -> bool {
        self.state.dead
    }

    /// Offer one read to the tap.  Never blocks and never fails the read it
    /// was called from.  A dead tap is left alone; otherwise the chunk sent
    /// carries the read's bytes and whether one was dropped before it, in a
    /// buffer the tap thread handed back where one is waiting, and the
    /// handle follows whatever the queue answered: delivery closes the gap,
    /// a full queue opens one, and a vanished receiver ends copying.
    pub fn offer(&mut self, filled: &[u8])
        ensures
            offered_one(*old(self), *final(self), filled@),
            honest_log(*final(self)),
    {
        proof {
            use_type_invariant(&*self);
        }
        if self.state.dead {
            return;
        }
        let buffer = match try_take_buffer(&self.pool) {
            Some(b) => b,
            None => Vec::new(),
        };
        self.takes = Ghost(self.takes@ + 1);
        let gap_before = self.state.dropped;
        let chunk = make_chunk(buffer, filled, gap_before);
        let ghost handed = (chunk.bytes@, chunk.gap_before);
        let outcome = try_send(&self.tx, chunk);
        let dropped = match outcome {
            SendOutcome::Sent => false,
            SendOutcome::Full => true,
            SendOutcome::Disconnected => gap_before,
        };
        let dead = match outcome {
            SendOutcome::Disconnected => true,
            _ => false,
        };
        let ghost before = self.state.offers@;
        let ghost log = before.push((handed.0, handed.1, outcome));
        proof {
            assert(log.drop_last() =~= before);
            assert forall|i: int| 0 <= i < log.len() implies (#[trigger] log[i]).1
                == dropped_before(log, i) by {
                lemma_dropped_before_prefix(log, i);
                if i < before.len() {
                    assert(log[i] == before[i]);
                    lemma_dropped_before_prefix(before, i);
                    assert(log.take(i) =~= before.take(i));
                }
            }
            lemma_dropped_before_prefix(log, before.len() as int);
            assert(log.take(before.len() as int) =~= before);
            lemma_dropped_before_prefix(before, before.len() as int);
            assert(before.take(before.len() as int) =~= before);
            assert forall|i: int| 0 <= i < log.len() - 1 implies (#[trigger] log[i]).2
                != SendOutcome::Disconnected by {
                assert(log[i] == before[i]);
            }
        }
        self.state = TapState { dropped, dead, offers: Ghost(log) };
        proof {
            use_type_invariant(&*self);
        }
    }
}

/// A reader whose every non-empty read is also offered to the tap.
pub struct TeeReader<R> {
    pub inner: R,
    pub tap: Option<TapHandle>,
}

impl<R> TeeReader<R> {
    pub fn new(inner: R, tap: Option<TapHandle>) -> (reader: Self)
        ensures
            reader.inner == inner,
            reader.tap == tap,
    {
        Self { inner, tap }
    }

    /// The inner reader filled `filled`; copy it to the tap.  An empty read
    /// and a reader without a tap copy nothing.
    pub fn observe(&mut self, filled: &[u8])
        ensures
            final(self).inner == old(self).inner,
            final(self).tap is Some == old(self).tap is Some,
            filled.len() == 0 || old(self).tap is None ==> *final(self) == *old(self),
            filled.len() > 0 && old(self).tap is Some ==> offered_one(
                old(self).tap->0,
                final(self).tap->0,
                filled@,
            ),
            final(self).tap is Some ==> honest_log(final(self).tap->0),
    {
        if filled.len() > 0 {
            if let Some(tap) = self.tap.as_mut() {
                tap.offer(filled);
            }
        }
        if let Some(tap) = &self.tap {
            proof {
                use_type_invariant(tap);
            }
        }
    }
}

/// The PTY's own reader, seen as a plain reader.
pub struct PtyReader<P> {
    pub pty: P,
}

/// A PTY whose output is also copied to a tap.
pub struct TeePty<P> {
    pub reader: TeeReader<PtyReader<P>>,
}

impl<P> TeePty<P> {
    pub fn new(inner: P, tap: Option<TapHandle>) -> (pty: Self)
        ensures
            pty.reader.inner.pty == inner,
            pty.reader.tap == tap,
    {
        Self { reader: TeeReader::new(PtyReader { pty: inner }, tap) }
    }
}

} // verus!
