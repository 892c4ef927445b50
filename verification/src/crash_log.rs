//! Why alacritree died: one crash artifact per GUI process, a single writer
//! that never shares its file.
//!
//! The recorder decides; the caller does the file work.  A record is only
//! written while the recorder is armed (a log directory was chosen), enabled
//! (the preference allows it) and not broken (no write has failed yet).  The
//! artifact is created exclusively: a file already sitting at a name is
//! somebody else's and is never appended to, and the next ordinal is tried
//! instead, up to a bound.

use vstd::prelude::*;
use crate::logdir::{artifact_name, crash_prefix, set_ordinal, spec_name, ProcessId};
use crate::text::{dec_digits, extend_chars, push_decimal, push_str, string_of};

verus! {

broadcast use vstd::string::group_string_axioms;

/// How many exclusive creates the allocator tries before giving up.
pub const CREATE_ATTEMPTS: u32 = 32;

/// The recorder's state.
pub struct Recorder {
    /// Whether a log directory has been chosen.
    pub armed: bool,
    /// The preference; on until known, so an early crash is still recorded.
    pub enabled: bool,
    /// Latched by the first write failure, so a broken disk is reported once.
    pub broken: bool,
    /// Panics that could not be recorded because the recorder was busy.
    pub skipped: usize,
    pub version: String,
    /// Where artifacts live.
    pub dir: Option<String>,
    /// The name of the artifact this process created itself, once it has.
    /// Only this one is ever reopened for append.
    pub artifact: Option<String>,
}

/// `t<secs> <body>` and a line end.
pub open spec fn spec_line(secs: nat, body: Seq<char>) -> Seq<char> {
    seq!['t'] + dec_digits(secs) + seq![' '] + body + seq!['\n']
}

/// What the exit adds to the artifact: the count of skipped panic records,
/// where there were any, then how the app ended.
pub open spec fn spec_exit_event(skipped: nat, result: Result<(), Seq<char>>, secs: nat) -> Seq<
    char,
> {
    let skipped_line = if skipped > 0 {
        spec_line(secs, "panic records skipped: "@ + dec_digits(skipped))
    } else {
        Seq::empty()
    };
    let exit_line = match result {
        Ok(()) => spec_line(secs, "exit ok"@),
        Err(e) => spec_line(secs, "exit error: "@ + e),
    };
    skipped_line + exit_line
}

/// The artifact's first line.
pub open spec fn spec_header(version: Seq<char>, pid: nat, secs: nat) -> Seq<char> {
    spec_line(secs, "start "@ + version + " pid="@ + dec_digits(pid))
}

/// Each backtrace line, indented.
pub open spec fn indented(lines: Seq<Seq<char>>) -> Seq<char>
    decreases lines.len(),
{
    if lines.len() == 0 {
        Seq::empty()
    } else {
        indented(lines.drop_last()) + seq![' ', ' '] + lines.last() + seq!['\n']
    }
}

/// A panic's record: the thread, where it happened, the payload and the
/// backtrace.
pub open spec fn spec_panic_event(
    secs: nat,
    thread: Option<Seq<char>>,
    location: Option<(Seq<char>, nat)>,
    payload: Seq<char>,
    backtrace: Seq<Seq<char>>,
) -> Seq<char> {
    let thread_name = match thread {
        Some(t) => t,
        None => "unnamed"@,
    };
    let place = match location {
        Some((file, line)) => file + seq![':'] + dec_digits(line),
        None => "unknown location"@,
    };
    spec_line(secs, "PANIC thread="@ + thread_name) + seq![' ', ' '] + "at "@ + place + seq!['\n']
        + seq![' ', ' '] + payload + seq!['\n'] + indented(backtrace)
}

/// Where the next record goes.
pub enum ArtifactPlan {
    /// No directory was chosen: nothing can be written.
    Nowhere,
    /// Reopen this process's own artifact for append; if that fails (it was
    /// removed underneath us), create a new one under `fallback`.
    Reopen { name: String, fallback: ProcessId },
    /// Create a new artifact under this identity.
    Create(ProcessId),
}

/// How an exclusive create went.
#[derive(Debug, Clone, Copy, PartialEq, Eq, Structural)]
pub enum CreateOutcome {
    Created,
    AlreadyExists,
    Failed,
}

/// What the allocator does after one exclusive create.
#[derive(Debug, Clone, Copy, PartialEq, Eq, Structural)]
pub enum Attempt {
    /// The artifact exists under this identity: write the header into it.
    Done(ProcessId),
    /// The name was taken: try this identity next.
    Retry(ProcessId),
    /// Give up; crash logging goes off.
    GiveUp,
}

/// The allocator's step after trying `tried` as attempt number `attempt`
/// (counting from zero).
pub open spec fn spec_next_attempt(tried: ProcessId, attempt: u32, outcome: CreateOutcome) -> Attempt {
    match outcome {
        CreateOutcome::Created => Attempt::Done(tried),
        CreateOutcome::AlreadyExists => if attempt + 1 < CREATE_ATTEMPTS {
            Attempt::Retry(ProcessId { ordinal: (tried.ordinal + 1) as u32, ..tried })
        } else {
            Attempt::GiveUp
        },
        CreateOutcome::Failed => Attempt::GiveUp,
    }
}

/// One exclusive create's result, and what follows.  A collision is debris
/// under an identity believed unique: it is left alone and the next ordinal
/// is tried.
pub fn next_attempt(tried: ProcessId, attempt: u32, outcome: CreateOutcome) -> (next: Attempt)
    requires
        outcome == CreateOutcome::AlreadyExists ==> tried.ordinal < u32::MAX,
    ensures
        next == spec_next_attempt(tried, attempt, outcome),
{
    match outcome {
        CreateOutcome::Created => Attempt::Done(tried),
        CreateOutcome::AlreadyExists => {
            let next = ProcessId { ordinal: tried.ordinal + 1, ..tried };
            if attempt < CREATE_ATTEMPTS - 1 {
                Attempt::Retry(next)
            } else {
                Attempt::GiveUp
            }
        },
        CreateOutcome::Failed => Attempt::GiveUp,
    }
}

fn copy_string(s: &String) -> (out: String)
    ensures
        out@ == s@,
{
    let mut v: Vec<char> = Vec::new();
    push_str(&mut v, s.as_str());
    string_of(&v)
}

fn push_line(out: &mut Vec<char>, secs: u64, body: &Vec<char>)
    ensures
        final(out)@ == old(out)@ + spec_line(secs as nat, body@),
{
    out.push('t');
    push_decimal(out, secs as u128);
    out.push(' ');
    extend_chars(out, body);
    out.push('\n');
    assert(final(out)@ =~= old(out)@ + spec_line(secs as nat, body@));
}

impl Recorder {
    /// Disarmed, enabled, nothing written.
    pub fn new() -> (recorder: Self)
        ensures
            !recorder.armed,
            recorder.enabled,
            !recorder.broken,
            recorder.skipped == 0,
            recorder.version@ == Seq::<char>::empty(),
            recorder.dir is None,
            recorder.artifact is None,
    {
        Recorder {
            armed: false,
            enabled: true,
            broken: false,
            skipped: 0,
            version: String::new(),
            dir: None,
            artifact: None,
        }
    }

    /// Arm the recorder once the caller has tried to create `dir`.  A
    /// directory that could not be created breaks the recorder instead.
    pub fn install(&mut self, dir: String, version: String, created: bool)
        ensures
            created ==> {
                &&& final(self).armed
                &&& final(self).dir == Some(dir)
                &&& final(self).version == version
                &&& final(self).broken == old(self).broken
            },
            !created ==> final(self).broken && final(self).armed == old(self).armed
                && final(self).dir == old(self).dir && final(self).version == old(self).version,
            final(self).enabled == old(self).enabled,
            final(self).skipped == old(self).skipped,
            final(self).artifact == old(self).artifact,
    {
        if !created {
            self.broken = true;
            return;
        }
        self.version = version;
        self.dir = Some(dir);
        self.armed = true;
    }

    pub fn set_enabled(&mut self, enabled: bool)
        ensures
            final(self).enabled == enabled,
            final(self).armed == old(self).armed,
            final(self).broken == old(self).broken,
            final(self).skipped == old(self).skipped,
            final(self).version == old(self).version,
            final(self).dir == old(self).dir,
            final(self).artifact == old(self).artifact,
    {
        self.enabled = enabled;
    }

    pub open spec fn spec_writable(&self) -> bool {
        self.enabled && !self.broken && self.armed
    }

    /// Whether anything may be written now.
    pub fn writable(&self) -> (w: bool)
        ensures
            w == self.spec_writable(),
    {
        self.enabled && !self.broken && self.armed
    }

    /// Whether to open the session's crash file now that the preference is
    /// known.
    pub fn session_begin(&self) -> (create: bool)
        ensures
            create == self.spec_writable(),
    {
        self.writable()
    }

    /// The exit's record, or nothing where nothing may be written.
    pub fn record_exit(&self, result: &Result<(), String>, secs: u64) -> (event: Option<String>)
        ensures
            !self.spec_writable() ==> event is None,
            self.spec_writable() ==> (event matches Some(e) && e@ == spec_exit_event(
                self.skipped as nat,
                match result {
                    Ok(()) => Ok(()),
                    Err(m) => Err(m@),
                },
                secs as nat,
            )),
    {
        if !self.writable() {
            return None;
        }
        let mut out: Vec<char> = Vec::new();
        if self.skipped > 0 {
            let mut body: Vec<char> = Vec::new();
            push_str(&mut body, "panic records skipped: ");
            push_decimal(&mut body, self.skipped as u128);
            push_line(&mut out, secs, &body);
        }
        let ghost before = out@;
        let mut body: Vec<char> = Vec::new();
        match result {
            Ok(()) => push_str(&mut body, "exit ok"),
            Err(m) => {
                push_str(&mut body, "exit error: ");
                push_str(&mut body, m.as_str());
            },
        }
        push_line(&mut out, secs, &body);
        assert(out@ =~= spec_exit_event(
            self.skipped as nat,
            match result {
                Ok(()) => Ok(()),
                Err(m) => Err(m@),
            },
            secs as nat,
        ));
        Some(string_of(&out))
    }

    /// A panic's record, or nothing where nothing may be written.
    pub fn record_panic(
        &self,
        secs: u64,
        thread: Option<&str>,
        location: Option<(&str, u32)>,
        payload: &str,
        backtrace: &Vec<String>,
    ) -> (event: Option<String>)
        ensures
            !self.spec_writable() ==> event is None,
            self.spec_writable() ==> (event matches Some(e) && e@ == spec_panic_event(
                secs as nat,
                match thread {
                    Some(t) => Some(t@),
                    None => None,
                },
                match location {
                    Some((f, l)) => Some((f@, l as nat)),
                    None => None,
                },
                payload@,
                backtrace@.map_values(|l: String| l@),
            )),
    {
        if !self.writable() {
            return None;
        }
        let mut out: Vec<char> = Vec::new();
        let mut head: Vec<char> = Vec::new();
        push_str(&mut head, "PANIC thread=");
        match thread {
            Some(t) => push_str(&mut head, t),
            None => push_str(&mut head, "unnamed"),
        }
        push_line(&mut out, secs, &head);
        push_str(&mut out, "  at ");
        match location {
            Some((file, line)) => {
                push_str(&mut out, file);
                out.push(':');
                push_decimal(&mut out, line as u128);
            },
            None => push_str(&mut out, "unknown location"),
        }
        out.push('\n');
        push_str(&mut out, "  ");
        push_str(&mut out, payload);
        out.push('\n');
        let ghost lines = backtrace@.map_values(|l: String| l@);
        let ghost prefix = out@;
        let mut i: usize = 0;
        assert(lines.take(0) =~= Seq::<Seq<char>>::empty());
        while i < backtrace.len()
            invariant
                i <= backtrace.len(),
                lines == backtrace@.map_values(|l: String| l@),
                out@ == prefix + indented(lines.take(i as int)),
            decreases backtrace.len() - i,
        {
            push_str(&mut out, "  ");
            push_str(&mut out, backtrace[i].as_str());
            out.push('\n');
            proof {
                reveal_strlit("  ");
            }
            assert(lines.take(i + 1).drop_last() =~= lines.take(i as int));
            assert(lines.take(i + 1).last() == backtrace@[i as int]@);
            assert(out@ =~= prefix + indented(lines.take(i + 1)));
            i += 1;
        }
        assert(lines.take(backtrace.len() as int) =~= lines);
        proof {
            reveal_strlit("PANIC thread=");
            reveal_strlit("unnamed");
            reveal_strlit("  at ");
            reveal_strlit("unknown location");
            reveal_strlit("  ");
            reveal_strlit("at ");
        }
        assert(out@ =~= spec_panic_event(
            secs as nat,
            match thread {
                Some(t) => Some(t@),
                None => None,
            },
            match location {
                Some((f, l)) => Some((f@, l as nat)),
                None => None,
            },
            payload@,
            lines,
        ));
        Some(string_of(&out))
    }

    /// A panic record was skipped because the recorder was busy.
    pub fn panic_skipped(&mut self)
        ensures
            final(self).skipped == old(self).skipped.wrapping_add(1),
            final(self).armed == old(self).armed,
            final(self).enabled == old(self).enabled,
            final(self).broken == old(self).broken,
            final(self).version == old(self).version,
            final(self).dir == old(self).dir,
            final(self).artifact == old(self).artifact,
    {
        self.skipped = self.skipped.wrapping_add(1);
    }

    /// Whether the next record would go into a fresh artifact, and so be
    /// preceded by a header.
    pub open spec fn plans_creation(&self) -> bool {
        self.dir is Some && self.artifact is None
    }

    /// Where the next record goes.  Only an artifact this process created
    /// itself is reopened; otherwise a new one is allocated under `identity`.
    pub fn plan_artifact(&self, identity: &ProcessId) -> (plan: ArtifactPlan)
        ensures
            (plan is Create) == self.plans_creation(),
            self.dir is None ==> plan is Nowhere,
            self.dir is Some ==> match self.artifact {
                Some(name) => (plan matches ArtifactPlan::Reopen { name: n, fallback } && n@
                    == name@ && fallback == *identity),
                None => plan == ArtifactPlan::Create(*identity),
            },
    {
        if self.dir.is_none() {
            return ArtifactPlan::Nowhere;
        }
        match &self.artifact {
            Some(name) => ArtifactPlan::Reopen { name: copy_string(name), fallback: *identity },
            None => ArtifactPlan::Create(*identity),
        }
    }

    /// The header for the artifact just created under `id`.
    pub fn header(&self, id: &ProcessId, secs: u64) -> (header: String)
        ensures
            header@ == spec_header(self.version@, id.pid as nat, secs as nat),
    {
        let mut body: Vec<char> = Vec::new();
        push_str(&mut body, "start ");
        push_str(&mut body, self.version.as_str());
        push_str(&mut body, " pid=");
        push_decimal(&mut body, id.pid as u128);
        let mut out: Vec<char> = Vec::new();
        push_line(&mut out, secs, &body);
        assert(out@ =~= spec_header(self.version@, id.pid as nat, secs as nat));
        string_of(&out)
    }

    /// The artifact was created under `created` and its header written:
    /// it is this process's own from now on, and the process identity keeps
    /// the ordinal the allocator settled on.
    pub fn artifact_created(&mut self, identity: &mut ProcessId, created: &ProcessId)
        ensures
            final(self).artifact matches Some(name) && name@ == spec_name(
                crash_prefix(),
                *created,
            ),
            *final(identity) == (ProcessId { ordinal: created.ordinal, ..*old(identity) }),
            final(self).armed == old(self).armed,
            final(self).enabled == old(self).enabled,
            final(self).broken == old(self).broken,
            final(self).skipped == old(self).skipped,
            final(self).version == old(self).version,
            final(self).dir == old(self).dir,
    {
        set_ordinal(identity, created.ordinal);
        self.artifact = Some(artifact_name(created));
    }

    /// A write failed: crash logging goes off.  Returns whether this is the
    /// first failure, which is the only one worth reporting.
    pub fn fail_once(&mut self) -> (report: bool)
        ensures
            report == !old(self).broken,
            final(self).broken,
            !final(self).spec_writable(),
            final(self).armed == old(self).armed,
            final(self).enabled == old(self).enabled,
            final(self).skipped == old(self).skipped,
            final(self).version == old(self).version,
            final(self).dir == old(self).dir,
            final(self).artifact == old(self).artifact,
    {
        let report = !self.broken;
        self.broken = true;
        report
    }

    /// Start over, wholesale, recording into `dir`: armed, enabled, nothing
    /// skipped or created, and the process identity back at ordinal zero.
    pub fn reset_for_tests(&mut self, dir: String, identity: &mut ProcessId)
        ensures
            final(self).armed,
            final(self).enabled,
            !final(self).broken,
            final(self).skipped == 0,
            final(self).version@ == Seq::<char>::empty(),
            final(self).dir == Some(dir),
            final(self).artifact is None,
            *final(identity) == (ProcessId { ordinal: 0, ..*old(identity) }),
    {
        *self = Recorder::new();
        self.dir = Some(dir);
        self.armed = true;
        crate::logdir::reset_identity_for_tests(identity);
    }

    /// The name the artifact for `identity` has in the log directory, where
    /// one was chosen.
    pub fn artifact_path_for_tests(&self, identity: &ProcessId) -> (name: Option<String>)
        ensures
            self.dir is None ==> name is None,
            self.dir is Some ==> (name matches Some(n) && n@ == spec_name(
                crash_prefix(),
                *identity,
            )),
    {
        if self.dir.is_none() {
            None
        } else {
            Some(artifact_name(identity))
        }
    }
}

/// `ENDSESSION_CLOSEAPP`: an installer's Restart Manager is closing the app
/// to replace a file it holds.
pub const ENDSESSION_CLOSEAPP: u32 = 0x0000_0001;

/// `ENDSESSION_LOGOFF`: the user is logging off.
pub const ENDSESSION_LOGOFF: u32 = 0x8000_0000;

/// Why the operating system is ending the session the app runs in.
#[derive(Debug, Clone, Copy, PartialEq, Eq, Structural)]
pub enum ExitReason {
    OsCloseApp,
    OsLogoff,
    OsShutdown,
}

/// The reason a session-end message's flags name.  A Restart Manager
/// shutdown during a logoff sets both flags, so the installer, the more
/// specific answer, is tested first.
pub open spec fn spec_session_end(flags: u32) -> ExitReason {
    if flags & ENDSESSION_CLOSEAPP != 0 {
        ExitReason::OsCloseApp
    } else if flags & ENDSESSION_LOGOFF != 0 {
        ExitReason::OsLogoff
    } else {
        ExitReason::OsShutdown
    }
}

/// The reason a session-end message names, from its `lparam`, whose low 32
/// bits hold the flags.
pub fn classify_session_end(lparam: isize) -> (reason: ExitReason)
    ensures
        reason == spec_session_end(lparam as u32),
{
    let flags = lparam as u32;
    if flags & ENDSESSION_CLOSEAPP != 0 {
        ExitReason::OsCloseApp
    } else if flags & ENDSESSION_LOGOFF != 0 {
        ExitReason::OsLogoff
    } else {
        ExitReason::OsShutdown
    }
}

/// Once this process has an artifact of its own, no later record plans a
/// second one: along any run of recorder states in which the artifact, once
/// known, stays known (every operation here but `reset_for_tests` keeps it),
/// the header written at creation stays the artifact's only header.
pub proof fn one_header_per_artifact(run: Seq<Recorder>)
    requires
        run.len() > 0,
        run[0].artifact is Some,
        forall|k: int|
            0 <= k < run.len() - 1 ==> ((#[trigger] run[k]).artifact is Some ==> run[k
                + 1].artifact is Some),
    ensures
        forall|k: int| 0 <= k < run.len() ==> !(#[trigger] run[k]).plans_creation(),
{
    assert forall|k: int| 0 <= k < run.len() implies !(#[trigger] run[k]).plans_creation() by {
        lemma_artifact_stays(run, k);
    }
}

proof fn lemma_artifact_stays(run: Seq<Recorder>, k: int)
    requires
        0 <= k < run.len(),
        run[0].artifact is Some,
        forall|j: int|
            0 <= j < run.len() - 1 ==> ((#[trigger] run[j]).artifact is Some ==> run[j
                + 1].artifact is Some),
    ensures
        run[k].artifact is Some,
    decreases k,
{
    if k > 0 {
        lemma_artifact_stays(run, k - 1);
        assert(run[k - 1].artifact is Some ==> run[k].artifact is Some);
    }
}

/// A collision never overwrites: each retry moves to the next ordinal under
/// the same start and pid, and the allocator gives up after a bounded
/// number of tries.
pub proof fn collisions_move_to_the_next_ordinal(tried: ProcessId, attempt: u32)
    requires
        tried.ordinal < u32::MAX,
    ensures
        attempt + 1 < CREATE_ATTEMPTS ==> spec_next_attempt(
            tried,
            attempt,
            CreateOutcome::AlreadyExists,
        ) == Attempt::Retry(ProcessId { ordinal: (tried.ordinal + 1) as u32, ..tried }),
        attempt + 1 >= CREATE_ATTEMPTS ==> spec_next_attempt(
            tried,
            attempt,
            CreateOutcome::AlreadyExists,
        ) == Attempt::GiveUp,
{
}

} // verus!
