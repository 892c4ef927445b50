//! Ablation switches and synthetic keystrokes for the load-latency
//! diagnosis.
//!
//! Removing one mechanism and re-measuring says what caused a slow frame.
//! The switches come from one comma-separated setting:
//!
//! ```text
//! sidebars,gitpoll   drop both from the frame
//! repaint=8          coalesce output-driven repaints to 8ms
//! ```
//!
//! Times here are plain nanosecond counts from a clock the caller owns.

use vstd::prelude::*;
use crate::text::{chars_of, copy_range, parse_unsigned, parse_unsigned_in, spells};

verus! {

broadcast use vstd::string::group_string_axioms;

/// Which mechanisms a diagnosis run leaves out.
#[derive(Debug, Clone, Copy, PartialEq, Eq, Structural)]
pub struct Switches {
    pub grid: bool,
    pub sidebars: bool,
    pub jobs: bool,
    pub git_poll: bool,
    /// Shortest gap between two repaints asked for by arriving output, in
    /// milliseconds.
    pub repaint_ms: Option<u64>,
}

/// Nothing ablated.
pub open spec fn no_switches() -> Switches {
    Switches { grid: false, sidebars: false, jobs: false, git_poll: false, repaint_ms: None }
}

impl Default for Switches {
    fn default() -> (switches: Self)
        ensures
            switches == no_switches(),
    {
        Switches { grid: false, sidebars: false, jobs: false, git_poll: false, repaint_ms: None }
    }
}

/// `char::is_whitespace`: the Unicode `White_Space` property.
pub open spec fn is_white_space(c: char) -> bool {
    ||| '\u{9}' <= c <= '\u{d}'
    ||| c == ' '
    ||| c == '\u{85}'
    ||| c == '\u{a0}'
    ||| c == '\u{1680}'
    ||| '\u{2000}' <= c <= '\u{200a}'
    ||| c == '\u{2028}'
    ||| c == '\u{2029}'
    ||| c == '\u{202f}'
    ||| c == '\u{205f}'
    ||| c == '\u{3000}'
}

/// `s` without its leading white space.
pub open spec fn trim_start(s: Seq<char>) -> Seq<char>
    decreases s.len(),
{
    if s.len() > 0 && is_white_space(s[0]) {
        trim_start(s.skip(1))
    } else {
        s
    }
}

/// `s` without its trailing white space.
pub open spec fn trim_end(s: Seq<char>) -> Seq<char>
    decreases s.len(),
{
    if s.len() > 0 && is_white_space(s.last()) {
        trim_end(s.drop_last())
    } else {
        s
    }
}

/// `str::trim`.
pub open spec fn trim(s: Seq<char>) -> Seq<char> {
    trim_end(trim_start(s))
}

/// Where `c` first occurs in `s`, or -1.
pub open spec fn first_index_of(s: Seq<char>, c: char) -> int
    decreases s.len(),
{
    if s.len() == 0 {
        -1
    } else if s[0] == c {
        0
    } else {
        let rest = first_index_of(s.skip(1), c);
        if rest < 0 {
            -1
        } else {
            rest + 1
        }
    }
}

/// Where `c` last occurs in `s`, or -1.
pub open spec fn last_index_of(s: Seq<char>, c: char) -> int
    decreases s.len(),
{
    if s.len() == 0 {
        -1
    } else if s.last() == c {
        s.len() - 1
    } else {
        last_index_of(s.drop_last(), c)
    }
}

/// One trimmed, non-empty token: a name, optionally `=` and a value.
/// Unknown names change nothing.
pub open spec fn spec_apply_token(sw: Switches, token: Seq<char>) -> Switches {
    let eq = first_index_of(token, '=');
    let name = if eq < 0 { token } else { token.take(eq) };
    let value = if eq < 0 { Seq::<char>::empty() } else { token.skip(eq + 1) };
    if name == "grid"@ {
        Switches { grid: true, ..sw }
    } else if name == "sidebars"@ {
        Switches { sidebars: true, ..sw }
    } else if name == "jobs"@ {
        Switches { jobs: true, git_poll: true, ..sw }
    } else if name == "gitpoll"@ {
        Switches { git_poll: true, ..sw }
    } else if name == "repaint"@ {
        Switches {
            repaint_ms: match parse_unsigned(value, u64::MAX as nat) {
                Some(ms) => Some(ms as u64),
                None => None,
            },
            ..sw
        }
    } else {
        sw
    }
}

/// One comma-separated piece: trimmed, and skipped when nothing is left.
pub open spec fn spec_apply_piece(sw: Switches, piece: Seq<char>) -> Switches {
    let token = trim(piece);
    if token.len() == 0 {
        sw
    } else {
        spec_apply_token(sw, token)
    }
}

/// The switches a setting names, its pieces applied left to right.
pub open spec fn spec_switches(raw: Seq<char>) -> Switches
    decreases raw.len(),
{
    let i = last_index_of(raw, ',');
    if 0 <= i < raw.len() {
        spec_apply_piece(spec_switches(raw.take(i)), raw.skip(i + 1))
    } else {
        spec_apply_piece(no_switches(), raw)
    }
}

fn white_space(c: char) -> (ws: bool)
    ensures
        ws == is_white_space(c),
{
    ('\u{9}' <= c && c <= '\u{d}') || c == ' ' || c == '\u{85}' || c == '\u{a0}' || c
        == '\u{1680}' || ('\u{2000}' <= c && c <= '\u{200a}') || c == '\u{2028}' || c
        == '\u{2029}' || c == '\u{202f}' || c == '\u{205f}' || c == '\u{3000}'
}

/// The bounds of `v[lo..hi]` with its white space trimmed off both ends.
fn trim_range(v: &Vec<char>, lo: usize, hi: usize) -> (r: (usize, usize))
    requires
        lo <= hi <= v.len(),
    ensures
        lo <= r.0 <= r.1 <= hi,
        v@.subrange(r.0 as int, r.1 as int) == trim(v@.subrange(lo as int, hi as int)),
{
    let mut a = lo;
    while a < hi && white_space(v[a])
        invariant
            lo <= a <= hi <= v.len(),
            trim_start(v@.subrange(lo as int, hi as int)) == trim_start(
                v@.subrange(a as int, hi as int),
            ),
        decreases hi - a,
    {
        assert(v@.subrange(a as int, hi as int).skip(1) =~= v@.subrange(a + 1, hi as int));
        a += 1;
    }
    assert(trim_start(v@.subrange(a as int, hi as int)) == v@.subrange(a as int, hi as int));
    let mut b = hi;
    while b > a && white_space(v[b - 1])
        invariant
            lo <= a <= b <= hi <= v.len(),
            trim_end(v@.subrange(a as int, hi as int)) == trim_end(
                v@.subrange(a as int, b as int),
            ),
        decreases b - a,
    {
        assert(v@.subrange(a as int, b as int).drop_last() =~= v@.subrange(a as int, b - 1));
        b -= 1;
    }
    assert(trim_end(v@.subrange(a as int, b as int)) == v@.subrange(a as int, b as int));
    (a, b)
}

proof fn lemma_first_index(s: Seq<char>, c: char, e: int)
    requires
        0 <= e <= s.len(),
        forall|k: int| 0 <= k < e ==> s[k] != c,
        e < s.len() ==> s[e] == c,
    ensures
        first_index_of(s, c) == (if e < s.len() { e } else { -1 }),
    decreases e,
{
    if e > 0 {
        let rest = s.skip(1);
        assert forall|k: int| 0 <= k < e - 1 implies rest[k] != c by {
            assert(rest[k] == s[k + 1]);
        }
        if e < s.len() {
            assert(rest[e - 1] == s[e]);
        }
        lemma_first_index(rest, c, e - 1);
        assert(s[0] != c);
    }
}

proof fn lemma_last_index(s: Seq<char>, c: char, start: int)
    requires
        0 <= start <= s.len(),
        forall|k: int| start <= k < s.len() ==> s[k] != c,
        start > 0 ==> s[start - 1] == c,
    ensures
        last_index_of(s, c) == start - 1,
    decreases s.len() - start,
{
    if start < s.len() {
        let shorter = s.drop_last();
        assert forall|k: int| start <= k < shorter.len() implies shorter[k] != c by {
            assert(shorter[k] == s[k]);
        }
        if start > 0 {
            assert(shorter[start - 1] == s[start - 1]);
        }
        lemma_last_index(shorter, c, start);
        assert(s.last() == s[s.len() - 1]);
    }
}

fn apply_token(sw: Switches, token: &Vec<char>) -> (out: Switches)
    ensures
        out == spec_apply_token(sw, token@),
{
    let mut e: usize = 0;
    while e < token.len() && token[e] != '='
        invariant
            e <= token.len(),
            forall|k: int| 0 <= k < e ==> token@[k] != '=',
        decreases token.len() - e,
    {
        e += 1;
    }
    proof {
        lemma_first_index(token@, '=', e as int);
    }
    let name = copy_range(token, 0, e);
    assert(e == token.len() ==> name@ =~= token@);
    let value_start = if e < token.len() { e + 1 } else { e };
    assert(e < token.len() ==> token@.skip(e + 1) =~= token@.subrange(
        value_start as int,
        token.len() as int,
    ));
    assert(e == token.len() ==> token@.subrange(value_start as int, token.len() as int)
        =~= Seq::<char>::empty());
    if spells(&name, "grid") {
        Switches { grid: true, ..sw }
    } else if spells(&name, "sidebars") {
        Switches { sidebars: true, ..sw }
    } else if spells(&name, "jobs") {
        Switches { jobs: true, git_poll: true, ..sw }
    } else if spells(&name, "gitpoll") {
        Switches { git_poll: true, ..sw }
    } else if spells(&name, "repaint") {
        let ms = parse_unsigned_in(token, value_start, token.len(), u64::MAX as u128);
        let repaint_ms = match ms {
            Some(v) => Some(v as u64),
            None => None,
        };
        Switches { repaint_ms, ..sw }
    } else {
        sw
    }
}

fn apply_piece(sw: Switches, v: &Vec<char>, lo: usize, hi: usize) -> (out: Switches)
    requires
        lo <= hi <= v.len(),
    ensures
        out == spec_apply_piece(sw, v@.subrange(lo as int, hi as int)),
{
    let (a, b) = trim_range(v, lo, hi);
    if a == b {
        sw
    } else {
        let token = copy_range(v, a, b);
        apply_token(sw, &token)
    }
}

impl Switches {
    /// Read the switches out of a comma-separated setting.  Pieces are
    /// trimmed, empty ones skipped, and later pieces win where two set the
    /// same thing.
    pub fn parse(raw: &str) -> (switches: Switches)
        ensures
            switches == spec_switches(raw@),
    {
        let v = chars_of(raw);
        let mut sw = Switches::default();
        let mut start: usize = 0;
        let mut i: usize = 0;
        while i < v.len()
            invariant
                start <= i <= v.len(),
                v@ == raw@,
                start == 0 ==> sw == no_switches(),
                start > 0 ==> v@[start - 1] == ',' && sw == spec_switches(v@.take(start - 1)),
                forall|k: int| start <= k < i ==> v@[k] != ',',
            decreases v.len() - i,
        {
            if v[i] == ',' {
                let next = apply_piece(sw, &v, start, i);
                proof {
                    let pre = v@.take(i as int);
                    assert forall|k: int| start <= k < pre.len() implies pre[k] != ',' by {
                        assert(pre[k] == v@[k]);
                    }
                    if start > 0 {
                        assert(pre[start - 1] == v@[start - 1]);
                        assert(pre.take(start - 1) =~= v@.take(start - 1));
                    }
                    lemma_last_index(pre, ',', start as int);
                    assert(pre.skip(start as int) =~= v@.subrange(start as int, i as int));
                    assert(pre.take(0) =~= Seq::<char>::empty());
                    if start == 0 {
                        assert(spec_switches(pre) == spec_apply_piece(no_switches(), pre));
                    }
                }
                sw = next;
                start = i + 1;
            }
            i += 1;
        }
        let out = apply_piece(sw, &v, start, v.len());
        proof {
            lemma_last_index(v@, ',', start as int);
            assert(v@.skip(start as int) =~= v@.subrange(start as int, v.len() as int));
            assert(v@.subrange(0, v.len() as int) =~= v@);
        }
        out
    }
}

/// Whether the terminal grid should be left unpainted.
pub fn skip_grid(switches: &Switches) -> (skip: bool)
    ensures
        skip == switches.grid,
{
    switches.grid
}

/// Whether both sidebars and the git panel should be left out of the frame.
pub fn skip_sidebars(switches: &Switches) -> (skip: bool)
    ensures
        skip == switches.sidebars,
{
    switches.sidebars
}

/// Whether background jobs other than the git poller should stay unspawned.
pub fn pause_jobs(switches: &Switches) -> (pause: bool)
    ensures
        pause == switches.jobs,
{
    switches.jobs
}

/// Whether the git status poller should stay unspawned.
pub fn pause_git_poll(switches: &Switches) -> (pause: bool)
    ensures
        pause == switches.git_poll,
{
    switches.git_poll
}

/// A setting that pauses jobs also pauses the git poller: the switch names
/// the class, so no job of it is left running.
pub proof fn pausing_jobs_pauses_the_poller(raw: Seq<char>)
    ensures
        spec_switches(raw).jobs ==> spec_switches(raw).git_poll,
    decreases raw.len(),
{
    let i = last_index_of(raw, ',');
    if 0 <= i < raw.len() {
        pausing_jobs_pauses_the_poller(raw.take(i));
    }
}

/// Whether `raw[lo..hi]` is one of the comma-separated pieces of `raw`.
pub open spec fn is_piece(raw: Seq<char>, lo: int, hi: int) -> bool {
    &&& 0 <= lo <= hi <= raw.len()
    &&& lo == 0 || raw[lo - 1] == ','
    &&& hi == raw.len() || raw[hi] == ','
    &&& forall|k: int| lo <= k < hi ==> raw[k] != ','
}

/// The name a piece gives: trimmed, and cut at its first `=`.
pub open spec fn piece_name(piece: Seq<char>) -> Seq<char> {
    let token = trim(piece);
    let eq = first_index_of(token, '=');
    if eq < 0 {
        token
    } else {
        token.take(eq)
    }
}

/// Whether some piece of `raw` names `name`.
pub open spec fn names(raw: Seq<char>, name: Seq<char>) -> bool {
    exists|lo: int, hi: int| #[trigger] is_piece(raw, lo, hi) && piece_name(raw.subrange(lo, hi)) == name
}

proof fn lemma_piece_poll(sw: Switches, piece: Seq<char>)
    ensures
        spec_apply_piece(sw, piece).git_poll == (sw.git_poll || piece_name(piece) == "gitpoll"@
            || piece_name(piece) == "jobs"@),
{
    reveal_strlit("gitpoll");
    reveal_strlit("jobs");
    reveal_strlit("grid");
    reveal_strlit("sidebars");
    reveal_strlit("repaint");
    assert("grid"@.len() != "gitpoll"@.len());
    assert("sidebars"@.len() != "gitpoll"@.len());
    assert("repaint"@[0] != "gitpoll"@[0]);
    assert("grid"@[0] != "jobs"@[0]);
    assert("sidebars"@.len() != "jobs"@.len());
    assert("repaint"@.len() != "jobs"@.len());
    if trim(piece).len() == 0 {
        assert(first_index_of(trim(piece), '=') == -1);
        assert(piece_name(piece).len() == 0);
    }
}

proof fn lemma_names_split(raw: Seq<char>, i: int, name: Seq<char>)
    requires
        0 <= i < raw.len(),
        raw[i] == ',',
        forall|k: int| i < k < raw.len() ==> raw[k] != ',',
    ensures
        names(raw, name) == (names(raw.take(i), name) || piece_name(raw.skip(i + 1)) == name),
{
    let pre = raw.take(i);
    assert(raw.skip(i + 1) =~= raw.subrange(i + 1, raw.len() as int));
    assert(is_piece(raw, i + 1, raw.len() as int));
    if names(raw, name) {
        let (lo, hi) = choose|lo: int, hi: int| #[trigger] is_piece(raw, lo, hi) && piece_name(
            raw.subrange(lo, hi),
        ) == name;
        if hi <= i {
            assert(pre.subrange(lo, hi) =~= raw.subrange(lo, hi));
            assert(is_piece(pre, lo, hi));
        } else {
            if lo <= i {
                assert(raw[i] != ',');
            }
            if lo > i + 1 {
                assert(raw[lo - 1] != ',');
            }
            if hi < raw.len() {
                assert(raw[hi] != ',');
            }
        }
    }
    if names(pre, name) {
        let (lo, hi) = choose|lo: int, hi: int| #[trigger] is_piece(pre, lo, hi) && piece_name(
            pre.subrange(lo, hi),
        ) == name;
        assert(pre.subrange(lo, hi) =~= raw.subrange(lo, hi));
        assert forall|k: int| lo <= k < hi implies raw[k] != ',' by {
            assert(pre[k] == raw[k]);
        }
        if lo > 0 {
            assert(pre[lo - 1] == raw[lo - 1]);
        }
        if hi < i {
            assert(pre[hi] == raw[hi]);
        }
        assert(is_piece(raw, lo, hi));
    }
}

proof fn lemma_names_whole(raw: Seq<char>, name: Seq<char>)
    requires
        forall|k: int| 0 <= k < raw.len() ==> raw[k] != ',',
    ensures
        names(raw, name) == (piece_name(raw) == name),
{
    assert(raw.subrange(0, raw.len() as int) =~= raw);
    assert(is_piece(raw, 0, raw.len() as int));
    if names(raw, name) {
        let (lo, hi) = choose|lo: int, hi: int| #[trigger] is_piece(raw, lo, hi) && piece_name(
            raw.subrange(lo, hi),
        ) == name;
        if lo > 0 {
            assert(raw[lo - 1] != ',');
        }
        if hi < raw.len() {
            assert(raw[hi] != ',');
        }
    }
}

proof fn lemma_last_comma(raw: Seq<char>)
    ensures
        -1 <= last_index_of(raw, ',') < raw.len(),
        0 <= last_index_of(raw, ',') ==> raw[last_index_of(raw, ',')] == ',',
        forall|k: int| last_index_of(raw, ',') < k < raw.len() ==> raw[k] != ',',
    decreases raw.len(),
{
    if raw.len() > 0 && raw.last() != ',' {
        lemma_last_comma(raw.drop_last());
        let shorter = raw.drop_last();
        assert forall|k: int| last_index_of(raw, ',') < k < raw.len() implies raw[k] != ',' by {
            if k < raw.len() - 1 {
                assert(raw[k] == shorter[k]);
            }
        }
    }
}

/// The git poller is paused exactly when some piece of the setting names
/// `gitpoll` or `jobs`: pausing the job class never leaves the poller
/// running, and nothing else pauses it.
pub proof fn the_poller_pauses_for_its_names(raw: Seq<char>)
    ensures
        spec_switches(raw).git_poll == (names(raw, "gitpoll"@) || names(raw, "jobs"@)),
    decreases raw.len(),
{
    lemma_last_comma(raw);
    let i = last_index_of(raw, ',');
    if 0 <= i < raw.len() {
        the_poller_pauses_for_its_names(raw.take(i));
        lemma_piece_poll(spec_switches(raw.take(i)), raw.skip(i + 1));
        lemma_names_split(raw, i, "gitpoll"@);
        lemma_names_split(raw, i, "jobs"@);
    } else {
        lemma_piece_poll(no_switches(), raw);
        lemma_names_whole(raw, "gitpoll"@);
        lemma_names_whole(raw, "jobs"@);
    }
}

proof fn lemma_piece_fields(sw: Switches, piece: Seq<char>)
    ensures
        spec_apply_piece(sw, piece).grid == (sw.grid || piece_name(piece) == "grid"@),
        spec_apply_piece(sw, piece).sidebars == (sw.sidebars || piece_name(piece)
            == "sidebars"@),
        spec_apply_piece(sw, piece).jobs == (sw.jobs || piece_name(piece) == "jobs"@),
        spec_apply_piece(sw, piece).git_poll == (sw.git_poll || piece_name(piece) == "gitpoll"@
            || piece_name(piece) == "jobs"@),
{
    reveal_strlit("gitpoll");
    reveal_strlit("jobs");
    reveal_strlit("grid");
    reveal_strlit("sidebars");
    reveal_strlit("repaint");
    assert("grid"@.len() == 4 && "grid"@[0] == 'g');
    assert("jobs"@.len() == 4 && "jobs"@[0] == 'j');
    assert("sidebars"@.len() == 8);
    assert("gitpoll"@.len() == 7 && "gitpoll"@[0] == 'g');
    assert("repaint"@.len() == 7 && "repaint"@[0] == 'r');
    lemma_piece_poll(sw, piece);
    if trim(piece).len() == 0 {
        assert(first_index_of(trim(piece), '=') == -1);
        assert(piece_name(piece).len() == 0);
    }
}

/// Each switch is set exactly when some piece of the setting names it:
/// `grid`, `sidebars` and `jobs` by their own names alone, and the git
/// poller by `gitpoll` or by the job class `jobs`.  No switch turns another
/// on, and nothing else turns any of them on.
pub proof fn the_switches_follow_their_names(raw: Seq<char>)
    ensures
        spec_switches(raw).grid == names(raw, "grid"@),
        spec_switches(raw).sidebars == names(raw, "sidebars"@),
        spec_switches(raw).jobs == names(raw, "jobs"@),
        spec_switches(raw).git_poll == (names(raw, "gitpoll"@) || names(raw, "jobs"@)),
    decreases raw.len(),
{
    lemma_last_comma(raw);
    let i = last_index_of(raw, ',');
    if 0 <= i < raw.len() {
        the_switches_follow_their_names(raw.take(i));
        lemma_piece_fields(spec_switches(raw.take(i)), raw.skip(i + 1));
        lemma_names_split(raw, i, "grid"@);
        lemma_names_split(raw, i, "sidebars"@);
        lemma_names_split(raw, i, "jobs"@);
        lemma_names_split(raw, i, "gitpoll"@);
    } else {
        lemma_piece_fields(no_switches(), raw);
        lemma_names_whole(raw, "grid"@);
        lemma_names_whole(raw, "sidebars"@);
        lemma_names_whole(raw, "jobs"@);
        lemma_names_whole(raw, "gitpoll"@);
    }
}

/// How to ask for the frame that shows arriving output.
#[derive(Debug, Clone, Copy, PartialEq, Eq, Structural)]
pub enum RepaintRequest {
    /// Repaint at once.
    Now,
    /// Repaint once this many nanoseconds have passed.
    After(u128),
}

/// What to ask for on behalf of output arriving at `now_ns`, given when the
/// last output-driven repaint went through (`last_ns`, zero for never), and
/// the new value of that mark.
pub open spec fn spec_output_repaint(interval_ms: Option<u64>, now_ns: u64, last_ns: u64) -> (
    RepaintRequest,
    u64,
) {
    match interval_ms {
        None => (RepaintRequest::Now, last_ns),
        Some(ms) => {
            let since: int = if now_ns >= last_ns { now_ns - last_ns } else { 0 };
            let interval: int = ms * 1_000_000;
            if last_ns == 0 || since >= interval {
                (RepaintRequest::Now, now_ns)
            } else {
                (RepaintRequest::After((interval - since) as u128), last_ns)
            }
        },
    }
}

/// Unablated, output repaints at once.  Under `repaint=<ms>` a frame that
/// would land inside the interval is deferred to its end, so streaming
/// output stops setting the frame rate.
pub fn output_repaint(interval_ms: Option<u64>, now_ns: u64, last_ns: u64) -> (r: (
    RepaintRequest,
    u64,
))
    ensures
        r == spec_output_repaint(interval_ms, now_ns, last_ns),
{
    match interval_ms {
        None => (RepaintRequest::Now, last_ns),
        Some(ms) => {
            let since = now_ns.saturating_sub(last_ns) as u128;
            let interval = ms as u128 * 1_000_000;
            if last_ns == 0 || since >= interval {
                (RepaintRequest::Now, now_ns)
            } else {
                (RepaintRequest::After(interval - since), last_ns)
            }
        },
    }
}

/// A synthetic typist: one keystroke per interval, from a start time on.
#[derive(Debug)]
pub struct SynthKeys {
    interval_ns: u128,
    next_ns: u128,
}

/// What one frame gets from the typist.
#[derive(Debug, Clone, Copy, PartialEq, Eq, Structural)]
pub struct Keystroke {
    /// The character to type this frame, if one is due.
    pub text: Option<char>,
    /// How far behind its schedule a due keystroke is.
    pub late_ns: u128,
    /// How long until the frame that carries the next keystroke.
    pub wake_after_ns: u128,
}

/// The typist's interval and first keystroke, from the keystroke setting (a
/// count of milliseconds) and the optional delay setting (seconds).  A
/// keystroke setting that is not a number means no typist; a delay that is
/// missing or not a number means one interval.
pub open spec fn spec_synth(keys: Seq<char>, delay: Option<Seq<char>>, now_ns: u64) -> Option<
    (nat, nat),
> {
    match parse_unsigned(trim(keys), u64::MAX as nat) {
        None => None,
        Some(ms) => {
            let interval = (if ms == 0 { 1 } else { ms }) * 1_000_000;
            let wait = match delay {
                Some(d) => match parse_unsigned(trim(d), u64::MAX as nat) {
                    Some(secs) => secs * 1_000_000_000,
                    None => interval,
                },
                None => interval,
            };
            Some((interval, (now_ns + wait) as nat))
        },
    }
}

/// The characters of an optional setting.
pub open spec fn option_chars(s: Option<&str>) -> Option<Seq<char>> {
    match s {
        Some(d) => Some(d@),
        None => None,
    }
}

/// Whether a keystroke is due at `now`.
pub open spec fn is_due(keys: SynthKeys, now: nat) -> bool {
    now >= keys.next_at()
}

fn parse_u64_trimmed(raw: &str) -> (n: Option<u64>)
    ensures
        n matches Some(v) ==> parse_unsigned(trim(raw@), u64::MAX as nat) == Some(v as nat),
        n is None ==> parse_unsigned(trim(raw@), u64::MAX as nat) is None,
{
    let v = chars_of(raw);
    let (a, b) = trim_range(&v, 0, v.len());
    assert(v@.subrange(0, v.len() as int) =~= raw@);
    match parse_unsigned_in(&v, a, b, u64::MAX as u128) {
        Some(n) => Some(n as u64),
        None => None,
    }
}

impl SynthKeys {
    /// An interval is at most `u64::MAX` milliseconds, and the next
    /// keystroke at most that or `u64::MAX` seconds past a `u64` clock.
    #[verifier::type_invariant]
    spec fn bounded(&self) -> bool {
        &&& self.interval_ns <= u64::MAX as nat * 1_000_000
        &&& self.next_ns <= u64::MAX as nat + u64::MAX as nat * 1_000_000_000
    }

    /// Nanoseconds between two keystrokes.
    pub closed spec fn interval(&self) -> nat {
        self.interval_ns as nat
    }

    /// When the next keystroke is due.
    pub closed spec fn next_at(&self) -> nat {
        self.next_ns as nat
    }

    /// A typist if `keys` names an interval in milliseconds, otherwise
    /// nothing.  `delay` holds it back for that many seconds first, so a run
    /// measures typing rather than a shell that is still starting.
    pub fn from_settings(keys: &str, delay: Option<&str>, now_ns: u64) -> (typist: Option<
        SynthKeys,
    >)
        ensures
            match spec_synth(keys@, option_chars(delay), now_ns) {
                None => typist is None,
                Some((interval, next)) => typist matches Some(t) && t.interval() == interval
                    && t.next_at() == next,
            },
    {
        let millis = match parse_u64_trimmed(keys) {
            Some(ms) => ms,
            None => return None,
        };
        let interval_ms: u128 = if millis == 0 { 1 } else { millis as u128 };
        let interval_ns = interval_ms * 1_000_000;
        let wait_ns = match delay {
            Some(d) => match parse_u64_trimmed(d) {
                Some(secs) => secs as u128 * 1_000_000_000,
                None => interval_ns,
            },
            None => interval_ns,
        };
        Some(SynthKeys { interval_ns, next_ns: now_ns as u128 + wait_ns })
    }

    /// This frame's keystroke, if one is due at `now_ns`.  The typist holds
    /// its cadence by asking for the frame that carries the next one.
    pub fn inject(&mut self, now_ns: u64) -> (key: Keystroke)
        ensures
            final(self).interval() == old(self).interval(),
            is_due(*old(self), now_ns as nat) ==> {
                &&& key.text == Some('a')
                &&& key.late_ns == now_ns - old(self).next_at()
                &&& final(self).next_at() == now_ns + old(self).interval()
            },
            !is_due(*old(self), now_ns as nat) ==> {
                &&& key.text is None
                &&& key.late_ns == 0
                &&& final(self).next_at() == old(self).next_at()
            },
            key.wake_after_ns == final(self).next_at() - now_ns,
    {
        proof {
            use_type_invariant(&*self);
        }
        let now = now_ns as u128;
        let mut text = None;
        let mut late_ns: u128 = 0;
        if now >= self.next_ns {
            text = Some('a');
            late_ns = now - self.next_ns;
            self.next_ns = now + self.interval_ns;
        }
        Keystroke { text, late_ns, wake_after_ns: self.next_ns - now }
    }
}

/// A typist that fired at `now` does not fire again until the interval has
/// passed, so a sample measures typing rather than a burst.
pub proof fn a_keystroke_is_due_once_per_interval(
    before: SynthKeys,
    after: SynthKeys,
    now: nat,
    later: nat,
)
    requires
        is_due(before, now),
        after.interval() == before.interval(),
        after.next_at() == now + before.interval(),
        now <= later < now + before.interval(),
    ensures
        !is_due(after, later),
        is_due(after, now + before.interval()),
{
}

} // verus!
