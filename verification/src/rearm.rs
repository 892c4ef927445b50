//! Staging for the console pipe: drain it ahead of the read loop, and hand
//! the loop one visit's worth at a time, saying whether bytes are still
//! staged behind the read so the caller can announce them.
//!
//! One announcement per visit is the ceiling: the visit it wakes hands back
//! everything the loop will take before it stops.  A drain that emptied the
//! pipe announces nothing at all, because reaching that empty read is what
//! makes the pipe install the waker that announces the next byte.

use vstd::prelude::*;

verus! {

/// The read loop's per-visit parse cap.
pub const MAX_LOCKED_READ: usize = 65535;

/// How much one read may hand back.  A read carrying the whole cap ends the
/// visit by itself, which is what holds the announcement to one per visit.
pub const HANDBACK: usize = 65535;

/// How much one visit may pull out of the console pipe ahead of the loop:
/// the pipe's own capacity, so the thread filling it never parks.
pub const DRAIN_AHEAD: usize = 1048576;

/// Why a read failed.
#[derive(Debug, Clone, Copy, PartialEq, Eq, Structural)]
pub enum ReadErrorKind {
    /// A signal cut the read short; retrying is fine.
    Interrupted,
    /// Nothing is available right now.
    WouldBlock,
    /// Anything else, which ends the drain with an error.
    Other,
}

/// Something bytes are read out of.  `pending` is what it will hand out, in
/// order; a read returns a prefix of it, and an empty read means there is
/// nothing left.
pub trait ByteSource {
    spec fn pending(&self) -> Seq<u8>;

    /// Whether every read succeeds.
    spec fn never_errs(&self) -> bool;

    /// How many interrupted reads may still come; each one uses one up.
    spec fn interrupts_left(&self) -> nat;

    fn read_into(&mut self, max: usize) -> (r: Result<Vec<u8>, ReadErrorKind>)
        requires
            max > 0,
        ensures
            final(self).never_errs() == old(self).never_errs(),
            r matches Ok(bytes) ==> {
                &&& bytes.len() <= max
                &&& bytes.len() <= old(self).pending().len()
                &&& bytes@ == old(self).pending().take(bytes.len() as int)
                &&& final(self).pending() == old(self).pending().skip(bytes.len() as int)
                &&& (bytes.len() == 0 <==> old(self).pending().len() == 0)
            },
            r is Err ==> !old(self).never_errs(),
            r matches Err(ReadErrorKind::Interrupted) ==> {
                &&& final(self).pending() == old(self).pending()
                &&& final(self).interrupts_left() < old(self).interrupts_left()
            },
            r matches Err(ReadErrorKind::WouldBlock) ==> final(self).pending() == old(
                self,
            ).pending(),
    ;
}

/// An in-memory source, read front to back.
pub struct ByteCursor {
    data: Vec<u8>,
    pos: usize,
}

impl ByteCursor {
    #[verifier::type_invariant]
    spec fn inv(&self) -> bool {
        self.pos <= self.data.len()
    }

    pub fn new(data: Vec<u8>) -> (cursor: Self)
        ensures
            cursor.pending() == data@,
            cursor.never_errs(),
    {
        let cursor = ByteCursor { data, pos: 0 };
        assert(cursor.data@.skip(0) =~= cursor.data@);
        cursor
    }
}

impl ByteSource for ByteCursor {
    closed spec fn pending(&self) -> Seq<u8> {
        self.data@.skip(self.pos as int)
    }

    open spec fn never_errs(&self) -> bool {
        true
    }

    open spec fn interrupts_left(&self) -> nat {
        0
    }

    fn read_into(&mut self, max: usize) -> (r: Result<Vec<u8>, ReadErrorKind>) {
        proof {
            use_type_invariant(&*self);
        }
        let left = self.data.len() - self.pos;
        let n = if left < max {
            left
        } else {
            max
        };
        let mut out: Vec<u8> = Vec::new();
        let mut i: usize = 0;
        while i < n
            invariant
                i <= n <= self.data.len() - self.pos,
                self.pos <= self.data.len(),
                out@ == self.data@.subrange(self.pos as int, self.pos + i),
            decreases n - i,
        {
            out.push(self.data[self.pos + i]);
            assert(self.data@.subrange(self.pos as int, self.pos + i).push(self.data@[self.pos + i])
                =~= self.data@.subrange(self.pos as int, self.pos + i + 1));
            i += 1;
        }
        let ghost before = self.data@.skip(self.pos as int);
        assert(out@ =~= before.take(n as int));
        self.pos = self.pos + n;
        assert(self.data@.skip(self.pos as int) =~= before.skip(n as int));
        Ok(out)
    }
}

/// Bytes taken out of the console pipe ahead of the read loop, and how far
/// the loop has got through them.
pub struct Staging {
    buf: Vec<u8>,
    taken: usize,
}

/// What a read loop has still to be handed: the staged bytes it has not
/// had yet, then what the source has not given up.
pub open spec fn still_to_come(staging: Staging, pending: Seq<u8>) -> Seq<u8> {
    staging.staged().skip(staging.handed() as int) + pending
}

/// What one `take` does for a caller whose buffer holds `room` bytes, with
/// a source that never fails and held `pending`: once every staged byte has
/// been handed back it refills from the source first, then hands back
/// `got`, the next stretch of the staged bytes, and answers how much that
/// was and whether bytes are still staged behind it.
pub open spec fn visit(
    before: Staging,
    pending: Seq<u8>,
    room: nat,
    after: Staging,
    pending_after: Seq<u8>,
    answer: (usize, bool),
    got: Seq<u8>,
) -> bool {
    let refilled = before.handed() == before.staged().len();
    let start: int = if refilled {
        0
    } else {
        before.handed() as int
    };
    &&& refilled ==> {
        &&& after.staged().len() <= pending.len()
        &&& after.staged() == pending.take(after.staged().len() as int)
        &&& pending_after == pending.skip(after.staged().len() as int)
        &&& (after.staged().len() >= DRAIN_AHEAD || pending_after.len() == 0)
    }
    &&& !refilled ==> after.staged() == before.staged() && pending_after == pending
    &&& answer.0 == vstd::math::min(
        vstd::math::min(room as int, HANDBACK as int),
        after.staged().len() - start,
    )
    &&& after.handed() == start + answer.0
    &&& answer.1 == (after.handed() < after.staged().len())
    &&& got == after.staged().subrange(start, after.handed() as int)
}

/// All of `parts`, one after the other.
pub open spec fn concat_all(parts: Seq<Seq<u8>>) -> Seq<u8>
    decreases parts.len(),
{
    if parts.len() == 0 {
        Seq::empty()
    } else {
        concat_all(parts.drop_last()) + parts.last()
    }
}

proof fn lemma_nothing_lost(handed: Seq<Seq<u8>>, rest: Seq<Seq<u8>>)
    requires
        rest.len() == handed.len() + 1,
        forall|i: int| 0 <= i < handed.len() ==> #[trigger] handed[i] + rest[i + 1] == rest[i],
    ensures
        concat_all(handed) + rest.last() == rest[0],
    decreases handed.len(),
{
    if handed.len() > 0 {
        let n = handed.len() - 1;
        lemma_nothing_lost(handed.drop_last(), rest.drop_last());
        assert(rest.drop_last().last() == rest[n]);
        assert(handed[n] + rest[n + 1] == rest[n]);
        assert(concat_all(handed) + rest.last() =~= concat_all(handed.drop_last()) + (handed[n]
            + rest[n + 1]));
    }
}

/// Over any run of takes, no byte is lost or repeated: when take `i` moves
/// the staging from `states[i]` to `states[i + 1]` and the source from
/// `pendings[i]` to `pendings[i + 1]`, handing back `got[i]`, as
/// `Staging::take` ensures of every call that succeeds, the bytes handed
/// back, followed by what is still to come, are what was to come at first.
pub proof fn a_drain_loses_and_repeats_nothing(
    states: Seq<Staging>,
    pendings: Seq<Seq<u8>>,
    got: Seq<Seq<u8>>,
)
    requires
        states.len() == got.len() + 1,
        pendings.len() == got.len() + 1,
        forall|i: int|
            0 <= i < got.len() ==> #[trigger] got[i] + still_to_come(states[i + 1], pendings[i + 1])
                == still_to_come(states[i], pendings[i]),
    ensures
        concat_all(got) + still_to_come(states.last(), pendings.last()) == still_to_come(
            states[0],
            pendings[0],
        ),
{
    let rest = Seq::new(states.len(), |i: int| still_to_come(states[i], pendings[i]));
    assert forall|i: int| 0 <= i < got.len() implies #[trigger] got[i] + rest[i + 1] == rest[i] by {
        assert(got[i] + still_to_come(states[i + 1], pendings[i + 1]) == still_to_come(
            states[i],
            pendings[i],
        ));
    }
    lemma_nothing_lost(got, rest);
}

/// How many of the first `i` answers handed back any bytes.
pub open spec fn visits_with_bytes(answers: Seq<(usize, bool)>, i: int) -> nat
    decreases i,
{
    if i <= 0 || i > answers.len() {
        0
    } else {
        visits_with_bytes(answers, i - 1) + if answers[i - 1].0 > 0 {
            1nat
        } else {
            0nat
        }
    }
}

/// How many of the first `i` answers said bytes were still staged behind.
pub open spec fn announcements(answers: Seq<(usize, bool)>, i: int) -> nat
    decreases i,
{
    if i <= 0 || i > answers.len() {
        0
    } else {
        announcements(answers, i - 1) + if answers[i - 1].1 {
            1nat
        } else {
            0nat
        }
    }
}

proof fn lemma_visit_count(total: nat)
    ensures
        forall|j: int|
            0 <= j ==> (j < (total + HANDBACK - 1) / (HANDBACK as int) <==> #[trigger] (j
                * HANDBACK) < total),
{
    let h = HANDBACK as int;
    let c = (total + h - 1) / h;
    assert(c * h >= total && (c - 1) * h < total) by (nonlinear_arith)
        requires
            h == 65535,
            c == (total + h - 1) / h,
            total >= 0,
    ;
    assert forall|j: int| 0 <= j implies (j < c <==> #[trigger] (j * HANDBACK) < total) by {
        if j < c {
            assert(j * h <= (c - 1) * h) by (nonlinear_arith)
                requires
                    j <= c - 1,
                    h == 65535,
            ;
        } else {
            assert(j * h >= c * h) by (nonlinear_arith)
                requires
                    j >= c,
                    h == 65535,
            ;
        }
    }
}

/// How many visits a drain of `total` staged bytes takes to hand them all
/// back, `HANDBACK` at most per visit.
pub open spec fn visits_needed(total: nat) -> int {
    (total + HANDBACK - 1) / (HANDBACK as int)
}

/// What the drain's `k` first visits leave behind, on a run of visits
/// from `states[0]`, whose staged bytes had all been handed back, with the
/// source holding `pendings[0]`.
spec fn drained_so_far(
    states: Seq<Staging>,
    pendings: Seq<Seq<u8>>,
    answers: Seq<(usize, bool)>,
    got: Seq<Seq<u8>>,
    k: int,
) -> bool {
    let all = pendings[0];
    let total = all.len();
    let c = visits_needed(total);
    &&& k >= 1 ==> pendings[k].len() == 0
    &&& 1 <= k <= c ==> states[k].staged() == all && states[k].handed() == vstd::math::min(
        k * HANDBACK,
        total as int,
    )
    &&& k >= 1 && k > c ==> states[k].staged().len() == 0 && states[k].handed() == 0
    &&& forall|i: int|
        0 <= i < k ==> (#[trigger] answers[i]).0 == (if i < c {
            vstd::math::min(HANDBACK as int, total - i * HANDBACK)
        } else {
            0
        }) && answers[i].1 == (i + 1 < c)
    &&& concat_all(got.take(k)) == all.take(vstd::math::min(k * HANDBACK, total as int))
    &&& visits_with_bytes(answers, k) == vstd::math::min(k, c)
    &&& announcements(answers, k) == vstd::math::max(0, vstd::math::min(k, c - 1))
}

proof fn lemma_drain_step(
    states: Seq<Staging>,
    pendings: Seq<Seq<u8>>,
    rooms: Seq<nat>,
    answers: Seq<(usize, bool)>,
    got: Seq<Seq<u8>>,
    k: int,
)
    requires
        0 <= k < answers.len(),
        states.len() == answers.len() + 1,
        pendings.len() == answers.len() + 1,
        rooms.len() == answers.len(),
        got.len() == answers.len(),
        states[0].handed() == states[0].staged().len(),
        pendings[0].len() <= DRAIN_AHEAD,
        rooms[k] >= HANDBACK,
        visit(states[k], pendings[k], rooms[k], states[k + 1], pendings[k + 1], answers[k], got[k]),
        drained_so_far(states, pendings, answers, got, k),
    ensures
        drained_so_far(states, pendings, answers, got, k + 1),
{
    let all = pendings[0];
    let total = all.len();
    let c = visits_needed(total);
    lemma_visit_count(total);
    let h = HANDBACK as int;
    assert(((k * h) < total) == (k < c));
    assert(((k + 1) * h < total) == (k + 1 < c));
    assert((k + 1) * h == k * h + h);
    let before = states[k];
    let after = states[k + 1];
    let read = answers[k].0 as int;
    if k == 0 {
        assert(after.staged().len() == total) by {
            if after.staged().len() < total {
                assert(pendings[1].len() == total - after.staged().len());
            }
        }
        assert(all.take(total as int) =~= all);
    } else if k < c {
        assert(k * h < total);
    } else {
        assert(before.staged().len() == before.handed());
    }
    assert(got.take(k + 1).drop_last() =~= got.take(k));
    assert(got.take(k + 1).last() == got[k]);
    let prior = got.take(k);
    assert(concat_all(got.take(k + 1)) == concat_all(prior) + got[k]);
    if k < c {
        let lo = vstd::math::min(k * h, total as int);
        let hi = vstd::math::min((k + 1) * h, total as int);
        assert(got[k] =~= all.subrange(lo, hi));
        assert(all.take(lo) + all.subrange(lo, hi) =~= all.take(hi));
    } else {
        assert(got[k] =~= Seq::<u8>::empty());
        assert(concat_all(prior) + got[k] =~= concat_all(prior));
    }
    assert forall|i: int| 0 <= i < k + 1 implies (#[trigger] answers[i]).0 == (if i < c {
        vstd::math::min(HANDBACK as int, total - i * HANDBACK)
    } else {
        0
    }) && answers[i].1 == (i + 1 < c) by {
        if i < k {
            assert(drained_so_far(states, pendings, answers, got, k));
        }
    }
}

proof fn lemma_drain_prefix(
    states: Seq<Staging>,
    pendings: Seq<Seq<u8>>,
    rooms: Seq<nat>,
    answers: Seq<(usize, bool)>,
    got: Seq<Seq<u8>>,
    k: int,
)
    requires
        0 <= k <= answers.len(),
        states.len() == answers.len() + 1,
        pendings.len() == answers.len() + 1,
        rooms.len() == answers.len(),
        got.len() == answers.len(),
        states[0].handed() == states[0].staged().len(),
        pendings[0].len() <= DRAIN_AHEAD,
        forall|i: int|
            0 <= i < answers.len() ==> #[trigger] rooms[i] >= HANDBACK && visit(
                states[i],
                pendings[i],
                rooms[i],
                states[i + 1],
                pendings[i + 1],
                answers[i],
                got[i],
            ),
    ensures
        drained_so_far(states, pendings, answers, got, k),
    decreases k,
{
    if k == 0 {
        assert(got.take(0) =~= Seq::<Seq<u8>>::empty());
        assert(pendings[0].take(0) =~= Seq::<u8>::empty());
    } else {
        lemma_drain_prefix(states, pendings, rooms, answers, got, k - 1);
        assert(rooms[k - 1] >= HANDBACK);
        lemma_drain_step(states, pendings, rooms, answers, got, k - 1);
    }
}

/// A drain of a source that never fails and holds at most `DRAIN_AHEAD`
/// bytes, run as a series of visits of `Staging::take` from a staging whose
/// bytes were all handed back, with a caller's buffer holding a whole
/// `HANDBACK` each time: visit `i` hands back the next `HANDBACK` bytes or
/// what is left of them, in order, so the bytes handed back are the
/// source's own, none lost or repeated; the visits that hand back bytes
/// number `visits_needed(total)`, and every one of them but the last, and
/// only those, says bytes are still behind it.  Once all is handed back,
/// each further visit hands back nothing and announces nothing.
pub proof fn a_drain_announces_once_per_visit(
    states: Seq<Staging>,
    pendings: Seq<Seq<u8>>,
    rooms: Seq<nat>,
    answers: Seq<(usize, bool)>,
    got: Seq<Seq<u8>>,
)
    requires
        states.len() == answers.len() + 1,
        pendings.len() == answers.len() + 1,
        rooms.len() == answers.len(),
        got.len() == answers.len(),
        states[0].handed() == states[0].staged().len(),
        pendings[0].len() <= DRAIN_AHEAD,
        forall|i: int|
            0 <= i < answers.len() ==> #[trigger] rooms[i] >= HANDBACK && visit(
                states[i],
                pendings[i],
                rooms[i],
                states[i + 1],
                pendings[i + 1],
                answers[i],
                got[i],
            ),
    ensures
        forall|i: int|
            0 <= i < answers.len() ==> (#[trigger] answers[i]).0 == (if i < visits_needed(
                pendings[0].len(),
            ) {
                vstd::math::min(HANDBACK as int, pendings[0].len() - i * HANDBACK)
            } else {
                0
            }) && answers[i].1 == (i + 1 < visits_needed(pendings[0].len())),
        concat_all(got) == pendings[0].take(
            vstd::math::min(answers.len() * HANDBACK, pendings[0].len() as int),
        ),
        visits_with_bytes(answers, answers.len() as int) == vstd::math::min(
            answers.len() as int,
            visits_needed(pendings[0].len()),
        ),
        announcements(answers, answers.len() as int) == vstd::math::max(
            0,
            vstd::math::min(answers.len() as int, visits_needed(pendings[0].len()) - 1),
        ),
{
    let n = answers.len() as int;
    lemma_drain_prefix(states, pendings, rooms, answers, got, n);
    assert(got.take(n) =~= got);
}

impl Staging {
    #[verifier::type_invariant]
    spec fn inv(&self) -> bool {
        self.taken <= self.buf.len()
    }

    /// Everything the last drain staged.
    pub closed spec fn staged(&self) -> Seq<u8> {
        self.buf@
    }

    /// How much of it the loop has been handed.
    pub closed spec fn handed(&self) -> nat {
        self.taken as nat
    }

    pub fn new() -> (staging: Self)
        ensures
            staging.staged().len() == 0,
            staging.handed() == 0,
    {
        Staging { buf: Vec::new(), taken: 0 }
    }

    /// Empty `source` into the buffer, `HANDBACK` at a time, until the buffer
    /// holds `DRAIN_AHEAD` or a read comes up empty.  Stopping on the empty
    /// read is what lets the pipe install the waker that announces the next
    /// byte.  An interrupted read is retried, a read that would block ends
    /// the drain, and any other failure is returned.
    pub fn refill<S: ByteSource>(&mut self, source: &mut S) -> (r: Result<(), ReadErrorKind>)
        ensures
            final(self).handed() == 0,
            final(self).staged() == old(source).pending().take(final(self).staged().len() as int),
            r is Ok ==> final(source).pending() == old(source).pending().skip(
                final(self).staged().len() as int,
            ),
            final(self).staged().len() < DRAIN_AHEAD + HANDBACK,
            final(self).staged().len() <= old(source).pending().len(),
            r is Err ==> !old(source).never_errs(),
            r is Ok && old(source).never_errs() ==> final(self).staged().len() >= DRAIN_AHEAD
                || final(source).pending().len() == 0,
    {
        let ghost orig = source.pending();
        let mut buf: Vec<u8> = Vec::new();
        let mut result: Result<(), ReadErrorKind> = Ok(());
        assert(orig.skip(0) =~= orig);
        assert(orig.take(0) =~= Seq::<u8>::empty());
        while buf.len() < DRAIN_AHEAD
            invariant_except_break
                result is Ok,
                source.pending() == orig.skip(buf.len() as int),
            invariant
                buf.len() < DRAIN_AHEAD + HANDBACK,
                buf@ == orig.take(buf.len() as int),
                source.never_errs() == old(source).never_errs(),
                orig == old(source).pending(),
                buf.len() <= orig.len(),
            ensures
                result is Ok ==> source.pending() == orig.skip(buf.len() as int),
                result is Ok ==> buf.len() >= DRAIN_AHEAD || source.pending().len() == 0
                    || !source.never_errs(),
                result is Err ==> !source.never_errs(),
            decreases DRAIN_AHEAD + HANDBACK - buf.len(), source.interrupts_left(),
        {
            match source.read_into(HANDBACK) {
                Ok(bytes) => {
                    if bytes.len() == 0 {
                        break;
                    }
                    let ghost before = buf@;
                    let mut i: usize = 0;
                    while i < bytes.len()
                        invariant
                            i <= bytes.len(),
                            buf@ == before + bytes@.take(i as int),
                        decreases bytes.len() - i,
                    {
                        buf.push(bytes[i]);
                        assert(before + bytes@.take(i as int).push(bytes@[i as int]) =~= before
                            + bytes@.take(i + 1));
                        i += 1;
                    }
                    assert(bytes@.take(bytes.len() as int) =~= bytes@);
                    assert(orig.take(buf.len() as int) =~= before + orig.skip(before.len() as int).take(
                        bytes.len() as int,
                    ));
                    assert(orig.skip(before.len() as int).skip(bytes.len() as int) =~= orig.skip(
                        buf.len() as int,
                    ));
                },
                Err(ReadErrorKind::Interrupted) => {},
                Err(ReadErrorKind::WouldBlock) => {
                    break;
                },
                Err(e) => {
                    result = Err(e);
                    break;
                },
            }
        }
        *self = Staging { buf, taken: 0 };
        result
    }

    /// Hand the read loop one visit's worth, refilling first when the
    /// buffer has run out.  Returns how much was handed back and whether
    /// bytes are still staged behind it, which is what the caller has to
    /// announce.
    #[verifier::rlimit(40)]
    pub fn take<S: ByteSource>(&mut self, out: &mut Vec<u8>, source: &mut S) -> (r: Result<
        (usize, bool),
        ReadErrorKind,
    >)
        ensures
            final(out).len() == old(out).len(),
            r matches Ok((read, behind)) ==> {
                let start = final(self).handed() - read;
                &&& read <= old(out).len()
                &&& read <= HANDBACK
                &&& read == vstd::math::min(
                    vstd::math::min(old(out).len() as int, HANDBACK as int),
                    final(self).staged().len() - start,
                )
                &&& 0 <= start
                &&& final(out)@.take(read as int) == final(self).staged().subrange(
                    start,
                    final(self).handed() as int,
                )
                &&& final(out)@.skip(read as int) == old(out)@.skip(read as int)
                &&& behind == (final(self).handed() < final(self).staged().len())
            },
            old(self).handed() < old(self).staged().len() ==> {
                &&& r is Ok
                &&& final(self).staged() == old(self).staged()
                &&& final(self).handed() - old(self).handed() == r->Ok_0.0
                &&& final(source).pending() == old(source).pending()
            },
            old(self).handed() == old(self).staged().len() && r is Ok ==> {
                &&& final(self).staged().len() <= old(source).pending().len()
                &&& final(self).staged() == old(source).pending().take(
                    final(self).staged().len() as int,
                )
                &&& final(source).pending() == old(source).pending().skip(
                    final(self).staged().len() as int,
                )
                &&& old(source).never_errs() ==> final(self).staged().len() >= DRAIN_AHEAD
                    || final(source).pending().len() == 0
            },
            r matches Ok((read, _)) ==> final(out)@.take(read as int) + still_to_come(
                *final(self),
                final(source).pending(),
            ) == still_to_come(*old(self), old(source).pending()),
            old(self).handed() == old(self).staged().len() && old(source).never_errs() ==> {
                let pipe = old(source).pending().len();
                &&& r is Ok
                &&& pipe <= HANDBACK && pipe <= old(out).len() ==> r->Ok_0.0 == pipe
                    && !r->Ok_0.1
                &&& pipe > HANDBACK && old(out).len() >= HANDBACK ==> r->Ok_0.0 == HANDBACK
                    && r->Ok_0.1
            },
            r is Err ==> !old(source).never_errs(),
            old(source).never_errs() ==> (r matches Ok(answer) && visit(
                *old(self),
                old(source).pending(),
                old(out).len() as nat,
                *final(self),
                final(source).pending(),
                answer,
                final(out)@.take(answer.0 as int),
            )),
    {
        proof {
            use_type_invariant(&*self);
        }
        let ghost pipe = source.pending();
        if self.taken == self.buf.len() {
            match self.refill(source) {
                Ok(()) => {},
                Err(e) => return Err(e),
            }
            proof {
                if source.pending().len() == 0 {
                    assert(self.buf@.len() == pipe.len());
                }
            }
        }
        proof {
            use_type_invariant(&*self);
        }
        let room = if out.len() < HANDBACK {
            out.len()
        } else {
            HANDBACK
        };
        let left = self.buf.len() - self.taken;
        let read = if room < left {
            room
        } else {
            left
        };
        let start = self.taken;
        let ghost old_out = out@;
        let mut i: usize = 0;
        while i < read
            invariant
                i <= read <= out.len(),
                start + read <= self.buf.len(),
                out.len() == old_out.len(),
                forall|k: int| 0 <= k < i ==> out@[k] == self.buf@[start + k],
                forall|k: int| i <= k < out.len() ==> out@[k] == old_out[k],
            decreases read - i,
        {
            out.set(i, self.buf[start + i]);
            i += 1;
        }
        self.taken = start + read;
        assert(out@.take(read as int) =~= self.buf@.subrange(start as int, (start + read) as int));
        assert(out@.skip(read as int) =~= old_out.skip(read as int));
        proof {
            let staged = self.buf@;
            assert(staged.subrange(start as int, (start + read) as int) + staged.skip(
                (start + read) as int,
            ) =~= staged.skip(start as int));
            if old(self).handed() == old(self).staged().len() {
                assert(old(self).staged().skip(old(self).handed() as int) =~= Seq::<u8>::empty());
                assert(start == 0);
                assert(staged.skip(0) + source.pending() =~= pipe);
            }
        }
        Ok((read, self.taken < self.buf.len()))
    }
}

} // verus!
