//! The OSC sequences the terminal's own escape layer recognises and drops,
//! read off a copy of the PTY byte stream: what each one means, and the
//! byte scanner that bounds how long a sequence may run.

use vstd::prelude::*;
use vstd::utf8::{decode_utf8, encode_utf8, valid_utf8};

use crate::text::{chars_of, copy_range, extend_chars, parse_unsigned, parse_unsigned_in, spells, string_of};

verus! {

broadcast use vstd::string::group_string_axioms;

/// What the shell on the other end of the PTY spells a path like.  A WSL
/// session on Windows is `Unix`: the payload is a Linux path, and the
/// translation to a Windows one happens later, against the session's distro.
#[derive(Debug, Clone, Copy, PartialEq, Eq, Structural)]
pub enum ShellPlatform {
    Unix,
    Windows,
}

/// The ConEmu progress states, already bounded.
#[derive(Debug, Clone, Copy, PartialEq, Eq, Structural)]
pub enum Progress {
    Clear,
    Running(u8),
    Error(u8),
    Indeterminate,
    Paused(u8),
}

/// The xterm pointer shapes alacritree has a cursor for.
#[derive(Debug, Clone, Copy, PartialEq, Eq, Structural)]
pub enum PointerShape {
    Default,
    PointingHand,
    Text,
    Crosshair,
    Wait,
    Progress,
    Help,
    Move,
    NotAllowed,
}

#[derive(Debug, Clone, PartialEq, Eq)]
pub enum OscEvent {
    /// `None` clears the reported directory.  The path is still the shell's
    /// own spelling: WSL translation needs the session's distro.
    Cwd(Option<String>),
    Notify(String),
    Progress(Progress),
    PointerShape(PointerShape),
}

/// Which OSC features the `[vt]` config section turns on.
#[derive(Debug, Clone, Copy, PartialEq, Eq, Structural)]
pub struct VtConfig {
    pub report_cwd: bool,
    pub notify: bool,
    pub progress: bool,
    pub pointer_shape: bool,
}

impl VtConfig {
    /// Whether any sequence is worth tapping the stream for.
    pub fn any_enabled(&self) -> (any: bool)
        ensures
            any == (self.report_cwd || self.notify || self.progress || self.pointer_shape),
    {
        self.report_cwd || self.notify || self.progress || self.pointer_shape
    }
}

/// What the tap judges OSC sequences by: the enabled features, this
/// machine's host name (which the caller looks up), and the shell's
/// platform.
pub struct TapPolicy {
    pub vt: VtConfig,
    pub hostname: String,
    pub shell: ShellPlatform,
}

/// An event's meaning, with every string taken by its characters.
pub enum EventView {
    Cwd(Option<Seq<char>>),
    Notify(Seq<char>),
    Progress(Progress),
    PointerShape(PointerShape),
}

pub open spec fn event_view(event: OscEvent) -> EventView {
    match event {
        OscEvent::Cwd(None) => EventView::Cwd(None),
        OscEvent::Cwd(Some(path)) => EventView::Cwd(Some(path@)),
        OscEvent::Notify(body) => EventView::Notify(body@),
        OscEvent::Progress(p) => EventView::Progress(p),
        OscEvent::PointerShape(s) => EventView::PointerShape(s),
    }
}

/// What `String::from_utf8_lossy` makes of a byte string.
pub uninterp spec fn utf8_lossy(bytes: Seq<u8>) -> Seq<char>;

/// `String::from_utf8_lossy`: valid UTF-8 comes back as the text it encodes,
/// anything else with each invalid run replaced.
#[verifier::external_body]
pub(crate) fn lossy_string(bytes: &[u8]) -> (text: String)
    ensures
        text@ == utf8_lossy(bytes@),
        valid_utf8(bytes@) ==> text@ == decode_utf8(bytes@),
{
    String::from_utf8_lossy(bytes).into_owned()
}

/// `str::from_utf8`: the text, exactly when the bytes are valid UTF-8.
#[verifier::external_body]
fn exact_string(bytes: &[u8]) -> (text: Option<String>)
    ensures
        text is Some <==> valid_utf8(bytes@),
        text matches Some(t) ==> t@ == decode_utf8(bytes@),
{
    match std::str::from_utf8(bytes) {
        Ok(s) => Some(s.to_string()),
        Err(_) => None,
    }
}

/// The parameters' bytes.
pub open spec fn param_views(params: Seq<&[u8]>) -> Seq<Seq<u8>> {
    params.map_values(|p: &[u8]| p@)
}

/// The text `from_utf8_lossy` gives for `bytes`: what they encode where
/// they are valid UTF-8, the lossy decoding otherwise.
pub open spec fn lossy_text(bytes: Seq<u8>) -> Seq<char> {
    if valid_utf8(bytes) {
        decode_utf8(bytes)
    } else {
        utf8_lossy(bytes)
    }
}

/// `parts` decoded lossily and joined with `;`.
pub open spec fn join_lossy(parts: Seq<Seq<u8>>) -> Seq<char>
    decreases parts.len(),
{
    if parts.len() == 0 {
        Seq::empty()
    } else if parts.len() == 1 {
        lossy_text(parts[0])
    } else {
        join_lossy(parts.drop_last()) + seq![';'] + lossy_text(parts.last())
    }
}

/// The parameters from `from` on, put back together: the escape layer
/// splits OSC parameters on semicolons, so any payload that may legally hold
/// one is rejoined.  Nothing when `from` is past the end.
pub open spec fn spec_rejoin(params: Seq<Seq<u8>>, from: int) -> Option<Seq<char>> {
    if from > params.len() {
        None
    } else {
        Some(join_lossy(params.subrange(from, params.len() as int)))
    }
}

fn rejoin(params: &[&[u8]], from: usize) -> (joined: Option<String>)
    ensures
        joined matches Some(j) ==> spec_rejoin(param_views(params@), from as int) == Some(j@),
        joined is None ==> spec_rejoin(param_views(params@), from as int) is None,
{
    if from > params.len() {
        return None;
    }
    let ghost views = param_views(params@);
    let mut out: Vec<char> = Vec::new();
    let mut i = from;
    while i < params.len()
        invariant
            from <= i <= params.len(),
            views == param_views(params@),
            out@ == join_lossy(views.subrange(from as int, i as int)),
        decreases params.len() - i,
    {
        let part = lossy_string(params[i]);
        let ghost sub = views.subrange(from as int, i + 1);
        assert(sub.drop_last() =~= views.subrange(from as int, i as int));
        assert(sub.last() == params@[i as int]@);
        if i > from {
            out.push(';');
        } else {
            assert(views.subrange(from as int, i as int) =~= Seq::<Seq<u8>>::empty());
        }
        extend_chars(&mut out, &chars_of(part.as_str()));
        assert(out@ =~= join_lossy(sub));
        i += 1;
    }
    assert(views.subrange(from as int, params.len() as int) =~= views.subrange(
        from as int,
        views.len() as int,
    ));
    Some(string_of(&out))
}

/// Whether `c` is an ASCII letter.
pub open spec fn is_ascii_alpha(c: char) -> bool {
    ('a' <= c && c <= 'z') || ('A' <= c && c <= 'Z')
}

/// `X:/` or `X:\`, for an ASCII drive letter `X`.
pub open spec fn spec_drive_rooted(path: Seq<char>) -> bool {
    path.len() >= 3 && is_ascii_alpha(path[0]) && path[1] == ':' && (path[2] == '/' || path[2]
        == '\\')
}

/// Whether `path` begins with two slashes of either kind, which is UNC on
/// Windows.
pub open spec fn spec_unc(path: Seq<char>) -> bool {
    path.len() >= 2 && ((path[0] == '\\' && path[1] == '\\') || (path[0] == '/' && path[1] == '/'))
}

/// The guard the rest of the design rests on.  A path beginning `\\` or
/// `//` is UNC on Windows: touching it opens an SMB connection to a host
/// the payload named, and the payload need not come from a remote shell at
/// all.  Anything not rooted for the shell's own platform is dropped too.
pub open spec fn spec_rooted(path: Seq<char>, shell: ShellPlatform) -> Option<Seq<char>> {
    if spec_unc(path) {
        None
    } else if (match shell {
        ShellPlatform::Unix => path.len() >= 1 && path[0] == '/',
        ShellPlatform::Windows => spec_drive_rooted(path),
    }) {
        Some(path)
    } else {
        None
    }
}

/// One pair of surrounding double quotes removed, when both are there.
pub open spec fn spec_unquote(raw: Seq<char>) -> Seq<char> {
    if raw.len() >= 2 && raw[0] == '"' && raw.last() == '"' {
        raw.subrange(1, raw.len() - 1)
    } else {
        raw
    }
}

fn is_drive_rooted(path: &Vec<char>, from: usize) -> (rooted: bool)
    requires
        from <= path.len(),
    ensures
        rooted == spec_drive_rooted(path@.skip(from as int)),
{
    if path.len() - from < 3 {
        return false;
    }
    let c = path[from];
    let alpha = ('a' <= c && c <= 'z') || ('A' <= c && c <= 'Z');
    alpha && path[from + 1] == ':' && (path[from + 2] == '/' || path[from + 2] == '\\')
}

fn rooted(path: &Vec<char>, shell: ShellPlatform) -> (r: Option<String>)
    ensures
        r matches Some(p) ==> spec_rooted(path@, shell) == Some(p@),
        r is None ==> spec_rooted(path@, shell) is None,
{
    if path.len() >= 2 && ((path[0] == '\\' && path[1] == '\\') || (path[0] == '/' && path[1]
        == '/')) {
        return None;
    }
    let ok = match shell {
        ShellPlatform::Unix => path.len() >= 1 && path[0] == '/',
        ShellPlatform::Windows => is_drive_rooted(path, 0),
    };
    assert(path@.skip(0) =~= path@);
    if ok {
        Some(string_of(path))
    } else {
        None
    }
}

fn unquote(raw: &Vec<char>) -> (out: Vec<char>)
    ensures
        out@ == spec_unquote(raw@),
{
    if raw.len() >= 2 && raw[0] == '"' && raw[raw.len() - 1] == '"' {
        let mut out: Vec<char> = Vec::new();
        let mut i: usize = 1;
        while i < raw.len() - 1
            invariant
                1 <= i <= raw.len() - 1,
                raw.len() >= 2,
                out@ == raw@.subrange(1, i as int),
            decreases raw.len() - 1 - i,
        {
            out.push(raw[i]);
            assert(raw@.subrange(1, i as int).push(raw@[i as int]) =~= raw@.subrange(1, i + 1));
            i += 1;
        }
        out
    } else {
        let mut out: Vec<char> = Vec::new();
        extend_chars(&mut out, raw);
        assert(out@ =~= raw@);
        out
    }
}

/// `c` with an ASCII capital lowered.
pub open spec fn ascii_lower(c: char) -> char {
    if 'A' <= c && c <= 'Z' {
        ((c as u32) + 32) as char
    } else {
        c
    }
}

/// `str::eq_ignore_ascii_case`.
pub open spec fn eq_ignore_ascii_case(a: Seq<char>, b: Seq<char>) -> bool {
    a.len() == b.len() && forall|i: int| 0 <= i < a.len() ==> #[trigger] ascii_lower(a[i])
        == ascii_lower(b[i])
}

fn lower(c: char) -> (l: char)
    ensures
        l == ascii_lower(c),
{
    if 'A' <= c && c <= 'Z' {
        ((c as u32) + 32) as u8 as char
    } else {
        c
    }
}

/// Whether `a[lo..hi]` matches `b` ignoring ASCII case.
fn eq_ignore_case_in(a: &Vec<char>, lo: usize, hi: usize, b: &Vec<char>) -> (same: bool)
    requires
        lo <= hi <= a.len(),
    ensures
        same == eq_ignore_ascii_case(a@.subrange(lo as int, hi as int), b@),
{
    if hi - lo != b.len() {
        return false;
    }
    let ghost sa = a@.subrange(lo as int, hi as int);
    let mut i: usize = 0;
    while i < b.len()
        invariant
            i <= b.len(),
            hi - lo == b.len(),
            lo <= hi <= a.len(),
            sa == a@.subrange(lo as int, hi as int),
            forall|k: int| 0 <= k < i ==> #[trigger] ascii_lower(sa[k]) == ascii_lower(b@[k]),
        decreases b.len() - i,
    {
        if lower(a[lo + i]) != lower(b[i]) {
            assert(sa[i as int] == a@[lo + i]);
            return false;
        }
        assert(sa[i as int] == a@[lo + i]);
        i += 1;
    }
    true
}

/// The value of an ASCII hex digit byte, read as a character.
pub open spec fn hex_value(b: u8) -> Option<nat> {
    if 48 <= b <= 57 {
        Some((b - 48) as nat)
    } else if 97 <= b <= 102 {
        Some((b - 87) as nat)
    } else if 65 <= b <= 70 {
        Some((b - 55) as nat)
    } else {
        None
    }
}

fn hex_digit(b: u8) -> (v: Option<u8>)
    ensures
        v matches Some(d) ==> hex_value(b) == Some(d as nat) && d < 16,
        v is None ==> hex_value(b) is None,
{
    if 48 <= b && b <= 57 {
        Some(b - 48)
    } else if 97 <= b && b <= 102 {
        Some(b - 87)
    } else if 65 <= b && b <= 70 {
        Some(b - 55)
    } else {
        None
    }
}

/// `%XX` escapes resolved to their byte; a `%` without two hex digits after
/// it makes the whole decode fail.
pub open spec fn percent_bytes(b: Seq<u8>) -> Option<Seq<u8>>
    decreases b.len(),
{
    if b.len() == 0 {
        Some(Seq::empty())
    } else if b[0] == 37 {
        if b.len() < 3 {
            None
        } else {
            match (hex_value(b[1]), hex_value(b[2])) {
                (Some(hi), Some(lo)) => match percent_bytes(b.skip(3)) {
                    Some(rest) => Some(seq![(hi * 16 + lo) as u8] + rest),
                    None => None,
                },
                _ => None,
            }
        }
    } else {
        match percent_bytes(b.skip(1)) {
            Some(rest) => Some(seq![b[0]] + rest),
            None => None,
        }
    }
}

/// Percent-decoding of `path`'s UTF-8, read back as text.
pub open spec fn spec_percent_decode(path: Seq<char>) -> Option<Seq<char>> {
    match percent_bytes(encode_utf8(path)) {
        Some(bytes) => if valid_utf8(bytes) {
            Some(decode_utf8(bytes))
        } else {
            None
        },
        None => None,
    }
}

fn percent_decode(path: &String) -> (decoded: Option<Vec<char>>)
    ensures
        decoded matches Some(d) ==> spec_percent_decode(path@) == Some(d@),
        decoded is None ==> spec_percent_decode(path@) is None,
{
    let bytes = path.as_str().as_bytes();
    let ghost b = bytes@;
    assert(b == encode_utf8(path@));
    let mut out: Vec<u8> = Vec::new();
    let mut i: usize = 0;
    assert(b.skip(0) =~= b);
    proof {
        match percent_bytes(b) {
            Some(rest) => {
                assert(out@ + rest =~= rest);
            },
            None => {},
        }
    }
    while i < bytes.len()
        invariant
            i <= bytes.len(),
            b == bytes@,
            b == encode_utf8(path@),
            percent_bytes(b) == (match percent_bytes(b.skip(i as int)) {
                Some(rest) => Some(out@ + rest),
                None => None,
            }),
        decreases bytes.len() - i,
    {
        let ghost t = b.skip(i as int);
        assert(t[0] == bytes@[i as int]);
        if bytes[i] == 37 {
            if bytes.len() - i < 3 {
                assert(percent_bytes(t) is None);
                return None;
            }
            let hi = match hex_digit(bytes[i + 1]) {
                Some(h) => h,
                None => {
                    assert(t[1] == bytes@[i + 1]);
                    assert(percent_bytes(t) is None);
                    return None;
                },
            };
            let lo = match hex_digit(bytes[i + 2]) {
                Some(l) => l,
                None => {
                    assert(t[1] == bytes@[i + 1]);
                    assert(t[2] == bytes@[i + 2]);
                    assert(percent_bytes(t) is None);
                    return None;
                },
            };
            assert(t[1] == bytes@[i + 1]);
            assert(t[2] == bytes@[i + 2]);
            assert(t.skip(3) =~= b.skip(i + 3));
            let byte = hi * 16 + lo;
            proof {
                match percent_bytes(b.skip(i + 3)) {
                    Some(rest) => {
                        assert(out@ + (seq![byte] + rest) =~= out@.push(byte) + rest);
                    },
                    None => {},
                }
            }
            out.push(byte);
            i += 3;
        } else {
            assert(t.skip(1) =~= b.skip(i + 1));
            let byte = bytes[i];
            proof {
                match percent_bytes(b.skip(i + 1)) {
                    Some(rest) => {
                        assert(out@ + (seq![byte] + rest) =~= out@.push(byte) + rest);
                    },
                    None => {},
                }
            }
            out.push(byte);
            i += 1;
        }
    }
    assert(b.skip(i as int) =~= Seq::<u8>::empty());
    assert(out@ + Seq::<u8>::empty() =~= out@);
    match exact_string(out.as_slice()) {
        Some(text) => Some(chars_of(text.as_str())),
        None => None,
    }
}

/// Where the first `/` in `s` is, or `s.len()` when there is none.
pub open spec fn first_slash(s: Seq<char>) -> int
    decreases s.len(),
{
    if s.len() == 0 {
        0
    } else if s[0] == '/' {
        0
    } else {
        1 + first_slash(s.skip(1))
    }
}

proof fn lemma_first_slash_bounds(s: Seq<char>)
    ensures
        0 <= first_slash(s) <= s.len(),
    decreases s.len(),
{
    if s.len() > 0 && s[0] != '/' {
        lemma_first_slash_bounds(s.skip(1));
    }
}

/// `file://`.
pub open spec fn file_scheme() -> Seq<char> {
    seq!['f', 'i', 'l', 'e', ':', '/', '/']
}

/// The local path a `file://` URL names, decoded, with the slash in front of
/// a drive letter dropped: `/C:/src` is how a Windows path travels in a file
/// URL.  Nothing for another scheme, for a host other than this machine,
/// or for escapes that do not decode.
///
/// The host check filters shells that honestly name a remote host, which is
/// the common accident.  It stops nobody writing bytes with intent, who
/// simply writes `localhost`, so nothing downstream may lean on it.
pub open spec fn spec_file_url_path(url: Seq<char>, hostname: Seq<char>) -> Option<Seq<char>> {
    if url.len() >= 7 && url.take(7) == file_scheme() {
        let rest = url.skip(7);
        let h = first_slash(rest);
        let host = rest.take(h);
        let path = rest.skip(h);
        let local = host.len() == 0 || eq_ignore_ascii_case(host, "localhost"@) || (hostname.len()
            > 0 && eq_ignore_ascii_case(host, hostname));
        if !local {
            None
        } else {
            match spec_percent_decode(path) {
                Some(d) => Some(
                    if d.len() >= 1 && d[0] == '/' && spec_drive_rooted(d.skip(1)) {
                        d.skip(1)
                    } else {
                        d
                    },
                ),
                None => None,
            }
        }
    } else {
        None
    }
}

fn file_url_path(url: &Vec<char>, hostname: &Vec<char>) -> (path: Option<Vec<char>>)
    ensures
        path matches Some(p) ==> spec_file_url_path(url@, hostname@) == Some(p@),
        path is None ==> spec_file_url_path(url@, hostname@) is None,
{
    let scheme = chars_of("file://");
    proof {
        reveal_strlit("file://");
    }
    assert(scheme@ =~= file_scheme());
    if url.len() < 7 {
        return None;
    }
    let mut k: usize = 0;
    while k < 7
        invariant
            k <= 7 <= url.len(),
            scheme@ == file_scheme(),
            forall|j: int| 0 <= j < k ==> url@[j] == scheme@[j],
        decreases 7 - k,
    {
        if url[k] != scheme[k] {
            assert(url@.take(7)[k as int] != file_scheme()[k as int]);
            return None;
        }
        k += 1;
    }
    assert(url@.take(7) =~= file_scheme());
    let ghost rest = url@.skip(7);
    let mut i: usize = 7;
    assert(rest.skip(0) =~= rest);
    while i < url.len() && url[i] != '/'
        invariant
            7 <= i <= url.len(),
            rest == url@.skip(7),
            first_slash(rest) == (i - 7) + first_slash(rest.skip(i - 7)),
        decreases url.len() - i,
    {
        assert(rest.skip(i - 7).skip(1) =~= rest.skip(i - 6));
        assert(rest.skip(i - 7)[0] == url@[i as int]);
        i += 1;
    }
    proof {
        if i < url.len() {
            assert(rest.skip(i - 7)[0] == url@[i as int]);
        } else {
            assert(rest.skip(i - 7).len() == 0);
        }
    }
    assert(first_slash(rest) == i - 7);
    assert(rest.take(i - 7) =~= url@.subrange(7, i as int));
    assert(rest.skip(i - 7) =~= url@.subrange(i as int, url.len() as int));
    let localhost = chars_of("localhost");
    let local = i == 7 || eq_ignore_case_in(url, 7, i, &localhost) || (hostname.len() > 0
        && eq_ignore_case_in(url, 7, i, hostname));
    if !local {
        return None;
    }
    let raw_path = string_of(&copy_range(url, i, url.len()));
    match percent_decode(&raw_path) {
        Some(d) => {
            if d.len() >= 1 && d[0] == '/' && is_drive_rooted(&d, 1) {
                Some(copy_range(&d, 1, d.len()))
            } else {
                Some(d)
            }
        },
        None => None,
    }
}

/// The xterm pointer names alacritree has a cursor for.  An unknown name
/// leaves the current shape alone: not understanding a request is not a
/// request to reset.
pub open spec fn spec_pointer_shape(name: Seq<char>) -> Option<PointerShape> {
    if name == "default"@ || name == "left_ptr"@ || name == "arrow"@ {
        Some(PointerShape::Default)
    } else if name == "pointer"@ || name == "hand"@ || name == "hand2"@ {
        Some(PointerShape::PointingHand)
    } else if name == "text"@ || name == "xterm"@ || name == "ibeam"@ {
        Some(PointerShape::Text)
    } else if name == "crosshair"@ || name == "cross"@ {
        Some(PointerShape::Crosshair)
    } else if name == "wait"@ || name == "watch"@ {
        Some(PointerShape::Wait)
    } else if name == "progress"@ {
        Some(PointerShape::Progress)
    } else if name == "help"@ || name == "question_arrow"@ {
        Some(PointerShape::Help)
    } else if name == "move"@ || name == "fleur"@ {
        Some(PointerShape::Move)
    } else if name == "not-allowed"@ || name == "crossed_circle"@ {
        Some(PointerShape::NotAllowed)
    } else {
        None
    }
}

proof fn lemma_pointer_names_differ()
    ensures
        "default"@.len() == 7 && "default"@[0] == 'd',
        "left_ptr"@.len() == 8 && "left_ptr"@[0] == 'l',
        "arrow"@.len() == 5 && "arrow"@[0] == 'a',
        "pointer"@.len() == 7 && "pointer"@[0] == 'p',
        "hand"@.len() == 4 && "hand"@[0] == 'h' && "hand"@[1] == 'a',
        "hand2"@.len() == 5 && "hand2"@[0] == 'h',
        "text"@.len() == 4 && "text"@[0] == 't',
        "xterm"@.len() == 5 && "xterm"@[0] == 'x',
        "ibeam"@.len() == 5 && "ibeam"@[0] == 'i',
        "crosshair"@.len() == 9,
        "cross"@.len() == 5 && "cross"@[0] == 'c',
        "wait"@.len() == 4 && "wait"@[0] == 'w',
        "watch"@.len() == 5 && "watch"@[0] == 'w',
        "progress"@.len() == 8 && "progress"@[0] == 'p',
        "help"@.len() == 4 && "help"@[0] == 'h' && "help"@[1] == 'e',
        "question_arrow"@.len() == 14 && "question_arrow"@[0] == 'q',
        "move"@.len() == 4 && "move"@[0] == 'm',
        "fleur"@.len() == 5 && "fleur"@[0] == 'f',
        "not-allowed"@.len() == 11,
        "crossed_circle"@.len() == 14 && "crossed_circle"@[0] == 'c',
{
    reveal_strlit("default");
    reveal_strlit("left_ptr");
    reveal_strlit("arrow");
    reveal_strlit("pointer");
    reveal_strlit("hand");
    reveal_strlit("hand2");
    reveal_strlit("text");
    reveal_strlit("xterm");
    reveal_strlit("ibeam");
    reveal_strlit("crosshair");
    reveal_strlit("cross");
    reveal_strlit("wait");
    reveal_strlit("watch");
    reveal_strlit("progress");
    reveal_strlit("help");
    reveal_strlit("question_arrow");
    reveal_strlit("move");
    reveal_strlit("fleur");
    reveal_strlit("not-allowed");
    reveal_strlit("crossed_circle");
}

/// Each xterm pointer name gives the cursor xterm documents for it, and
/// only its names give it: `default`, `left_ptr` and `arrow` the arrow;
/// `pointer`, `hand` and `hand2` the pointing hand; `text`, `xterm` and
/// `ibeam` the I-beam; `crosshair` and `cross` the crosshair; `wait` and
/// `watch` the busy cursor; `progress` the working-in-background cursor;
/// `help` and `question_arrow` the help cursor; `move` and `fleur` the move
/// cursor; `not-allowed` and `crossed_circle` the not-allowed cursor.  Any
/// other name gives none, and leaves the pointer as it is.
pub proof fn pointer_names_give_their_documented_shapes(name: Seq<char>)
    ensures
        (spec_pointer_shape(name) == Some(PointerShape::Default)) == (name == "default"@ || name
            == "left_ptr"@ || name == "arrow"@),
        (spec_pointer_shape(name) == Some(PointerShape::PointingHand)) == (name == "pointer"@
            || name == "hand"@ || name == "hand2"@),
        (spec_pointer_shape(name) == Some(PointerShape::Text)) == (name == "text"@ || name
            == "xterm"@ || name == "ibeam"@),
        (spec_pointer_shape(name) == Some(PointerShape::Crosshair)) == (name == "crosshair"@
            || name == "cross"@),
        (spec_pointer_shape(name) == Some(PointerShape::Wait)) == (name == "wait"@ || name
            == "watch"@),
        (spec_pointer_shape(name) == Some(PointerShape::Progress)) == (name == "progress"@),
        (spec_pointer_shape(name) == Some(PointerShape::Help)) == (name == "help"@ || name
            == "question_arrow"@),
        (spec_pointer_shape(name) == Some(PointerShape::Move)) == (name == "move"@ || name
            == "fleur"@),
        (spec_pointer_shape(name) == Some(PointerShape::NotAllowed)) == (name == "not-allowed"@
            || name == "crossed_circle"@),
{
    lemma_pointer_names_differ();
}

fn pointer_shape(name: &Vec<char>) -> (shape: Option<PointerShape>)
    ensures
        shape == spec_pointer_shape(name@),
{
    if spells(name, "default") || spells(name, "left_ptr") || spells(name, "arrow") {
        Some(PointerShape::Default)
    } else if spells(name, "pointer") || spells(name, "hand") || spells(name, "hand2") {
        Some(PointerShape::PointingHand)
    } else if spells(name, "text") || spells(name, "xterm") || spells(name, "ibeam") {
        Some(PointerShape::Text)
    } else if spells(name, "crosshair") || spells(name, "cross") {
        Some(PointerShape::Crosshair)
    } else if spells(name, "wait") || spells(name, "watch") {
        Some(PointerShape::Wait)
    } else if spells(name, "progress") {
        Some(PointerShape::Progress)
    } else if spells(name, "help") || spells(name, "question_arrow") {
        Some(PointerShape::Help)
    } else if spells(name, "move") || spells(name, "fleur") {
        Some(PointerShape::Move)
    } else if spells(name, "not-allowed") || spells(name, "crossed_circle") {
        Some(PointerShape::NotAllowed)
    } else {
        None
    }
}

/// One ConEmu progress field: empty means zero, anything else must be an
/// unsigned number, and numbers above a hundred clamp.
pub open spec fn spec_progress_field(raw: Seq<u8>) -> Option<u8> {
    if raw.len() == 0 {
        Some(0)
    } else if valid_utf8(raw) {
        match parse_unsigned(decode_utf8(raw), u32::MAX as nat) {
            Some(n) => Some(if n > 100 { 100u8 } else { n as u8 }),
            None => None,
        }
    } else {
        None
    }
}

/// Windows Terminal's `DoConEmuAction` sets these bounds: a state above the
/// highest defined one rejects the whole sequence, progress above a hundred
/// clamps, and an absent or empty state means zero.
pub open spec fn spec_progress(params: Seq<Seq<u8>>) -> Option<Progress> {
    let state = if params.len() > 2 {
        spec_progress_field(params[2])
    } else {
        Some(0u8)
    };
    let value = if params.len() > 3 {
        spec_progress_field(params[3])
    } else {
        Some(0u8)
    };
    match (state, value) {
        (Some(st), Some(v)) => if st == 0 {
            Some(Progress::Clear)
        } else if st == 1 {
            Some(Progress::Running(v))
        } else if st == 2 {
            Some(Progress::Error(v))
        } else if st == 3 {
            Some(Progress::Indeterminate)
        } else if st == 4 {
            Some(Progress::Paused(v))
        } else {
            None
        },
        _ => None,
    }
}

fn progress_field(raw: &[u8]) -> (field: Option<u8>)
    ensures
        field == spec_progress_field(raw@),
{
    if raw.len() == 0 {
        return Some(0);
    }
    match exact_string(raw) {
        Some(text) => {
            let cs = chars_of(text.as_str());
            assert(cs@.subrange(0, cs.len() as int) =~= cs@);
            match parse_unsigned_in(&cs, 0, cs.len(), u32::MAX as u128) {
                Some(n) => Some(
                    if n > 100 {
                        100
                    } else {
                        n as u8
                    },
                ),
                None => None,
            }
        },
        None => None,
    }
}

fn progress(params: &[&[u8]]) -> (p: Option<Progress>)
    ensures
        p == spec_progress(param_views(params@)),
{
    let state = if params.len() > 2 {
        progress_field(params[2])
    } else {
        Some(0)
    };
    let value = if params.len() > 3 {
        progress_field(params[3])
    } else {
        Some(0)
    };
    match (state, value) {
        (Some(st), Some(v)) => if st == 0 {
            Some(Progress::Clear)
        } else if st == 1 {
            Some(Progress::Running(v))
        } else if st == 2 {
            Some(Progress::Error(v))
        } else if st == 3 {
            Some(Progress::Indeterminate)
        } else if st == 4 {
            Some(Progress::Paused(v))
        } else {
            None
        },
        _ => None,
    }
}

/// `notify`, the only `777` command understood.
pub open spec fn notify_bytes() -> Seq<u8> {
    seq![110u8, 111u8, 116u8, 105u8, 102u8, 121u8]
}

/// A non-empty run of ASCII digits.
pub open spec fn digit_run(field: Seq<u8>) -> bool {
    field.len() > 0 && forall|i: int| 0 <= i < field.len() ==> 48 <= #[trigger] field[i] <= 57
}

/// A rejoined body, kept only when it says something.
pub open spec fn non_empty_body(joined: Option<Seq<char>>) -> Option<EventView> {
    match joined {
        Some(body) => if body.len() > 0 {
            Some(EventView::Notify(body))
        } else {
            None
        },
        None => None,
    }
}

/// OSC 9 carries two unrelated protocols.  A digit-run first field selects
/// ConEmu, so `9;9 items remaining` stays a notification.
pub open spec fn spec_classify_osc9(
    params: Seq<Seq<u8>>,
    vt: VtConfig,
    shell: ShellPlatform,
) -> Option<EventView> {
    if params.len() > 1 && digit_run(params[1]) {
        let sub = params[1];
        if sub == seq![52u8] {
            if params.len() < 3 || !vt.progress {
                None
            } else {
                match spec_progress(params) {
                    Some(p) => Some(EventView::Progress(p)),
                    None => None,
                }
            }
        } else if sub == seq![57u8] {
            if !vt.report_cwd {
                None
            } else {
                match spec_rejoin(params, 2) {
                    Some(raw) => match spec_rooted(spec_unquote(raw), shell) {
                        Some(path) => Some(EventView::Cwd(Some(path))),
                        None => None,
                    },
                    None => None,
                }
            }
        } else {
            None
        }
    } else if !vt.notify {
        None
    } else {
        non_empty_body(spec_rejoin(params, 1))
    }
}

/// What an OSC sequence with these parameters means to alacritree, if
/// anything: OSC 7 and 9;9 report the working directory, 9 and 777 notify,
/// 9;4 reports progress and 22 asks for a pointer shape, each only while its
/// `[vt]` key is on.
pub open spec fn spec_classify(
    params: Seq<Seq<u8>>,
    vt: VtConfig,
    hostname: Seq<char>,
    shell: ShellPlatform,
) -> Option<EventView> {
    if params.len() == 0 {
        None
    } else if params[0] == seq![55u8] {
        if !vt.report_cwd {
            None
        } else {
            let payload = join_lossy(params.subrange(1, params.len() as int));
            if payload.len() == 0 {
                Some(EventView::Cwd(None))
            } else {
                match spec_file_url_path(payload, hostname) {
                    Some(path) => match spec_rooted(path, shell) {
                        Some(r) => Some(EventView::Cwd(Some(r))),
                        None => None,
                    },
                    None => None,
                }
            }
        }
    } else if params[0] == seq![57u8] {
        spec_classify_osc9(params, vt, shell)
    } else if params[0] == seq![55u8, 55u8, 55u8] {
        if !vt.notify || params.len() < 2 || params[1] != notify_bytes() {
            None
        } else {
            non_empty_body(spec_rejoin(params, 3))
        }
    } else if params[0] == seq![50u8, 50u8] {
        if !vt.pointer_shape {
            None
        } else {
            match spec_pointer_shape(join_lossy(params.subrange(1, params.len() as int))) {
                Some(shape) => Some(EventView::PointerShape(shape)),
                None => None,
            }
        }
    } else {
        None
    }
}

/// The view of an optional event.
pub open spec fn option_view(event: Option<OscEvent>) -> Option<EventView> {
    match event {
        Some(e) => Some(event_view(e)),
        None => None,
    }
}

fn is_digit_run(field: &[u8]) -> (run: bool)
    ensures
        run == digit_run(field@),
{
    if field.len() == 0 {
        return false;
    }
    let mut i: usize = 0;
    while i < field.len()
        invariant
            i <= field.len(),
            forall|k: int| 0 <= k < i ==> 48 <= #[trigger] field@[k] <= 57,
        decreases field.len() - i,
    {
        if field[i] < 48 || field[i] > 57 {
            return false;
        }
        i += 1;
    }
    true
}

fn is_bytes(field: &[u8], a: u8, b: u8, c: u8, n: usize) -> (same: bool)
    requires
        1 <= n <= 3,
    ensures
        same == (field@ == (if n == 1 {
            seq![a]
        } else if n == 2 {
            seq![a, b]
        } else {
            seq![a, b, c]
        })),
{
    if field.len() != n {
        return false;
    }
    let r = field[0] == a && (n < 2 || field[1] == b) && (n < 3 || field[2] == c);
    proof {
        if n == 1 {
            assert(r ==> field@ =~= seq![a]);
        } else if n == 2 {
            assert(r ==> field@ =~= seq![a, b]);
        } else {
            assert(r ==> field@ =~= seq![a, b, c]);
        }
    }
    r
}

fn is_notify(field: &[u8]) -> (same: bool)
    ensures
        same == (field@ == notify_bytes()),
{
    let r = field.len() == 6 && field[0] == 110 && field[1] == 111 && field[2] == 116 && field[3]
        == 105 && field[4] == 102 && field[5] == 121;
    assert(r ==> field@ =~= notify_bytes());
    r
}

fn notify_body(joined: Option<String>) -> (event: Option<OscEvent>)
    ensures
        option_view(event) == non_empty_body(
            match joined {
                Some(j) => Some(j@),
                None => None,
            },
        ),
{
    match joined {
        Some(body) => {
            if body.as_str().is_empty() {
                None
            } else {
                Some(OscEvent::Notify(body))
            }
        },
        None => None,
    }
}

fn classify_osc9(params: &[&[u8]], policy: &TapPolicy) -> (event: Option<OscEvent>)
    requires
        params.len() >= 1,
    ensures
        option_view(event) == spec_classify_osc9(param_views(params@), policy.vt, policy.shell),
{
    let ghost views = param_views(params@);
    if params.len() > 1 && is_digit_run(params[1]) {
        if is_bytes(params[1], 52, 0, 0, 1) {
            if params.len() < 3 || !policy.vt.progress {
                None
            } else {
                match progress(params) {
                    Some(p) => Some(OscEvent::Progress(p)),
                    None => None,
                }
            }
        } else if is_bytes(params[1], 57, 0, 0, 1) {
            if !policy.vt.report_cwd {
                None
            } else {
                match rejoin(params, 2) {
                    Some(raw) => {
                        let path = unquote(&chars_of(raw.as_str()));
                        match rooted(&path, policy.shell) {
                            Some(r) => Some(OscEvent::Cwd(Some(r))),
                            None => None,
                        }
                    },
                    None => None,
                }
            }
        } else {
            None
        }
    } else if !policy.vt.notify {
        None
    } else {
        notify_body(rejoin(params, 1))
    }
}

/// What an OSC sequence means to alacritree, if anything.
pub fn classify(params: &[&[u8]], policy: &TapPolicy) -> (event: Option<OscEvent>)
    ensures
        option_view(event) == spec_classify(
            param_views(params@),
            policy.vt,
            policy.hostname@,
            policy.shell,
        ),
{
    let ghost views = param_views(params@);
    if params.len() == 0 {
        return None;
    }
    let first = params[0];
    assert(views[0] == first@);
    if is_bytes(first, 55, 0, 0, 1) {
        if !policy.vt.report_cwd {
            return None;
        }
        let payload = match rejoin(params, 1) {
            Some(p) => p,
            None => return None,
        };
        if payload.as_str().is_empty() {
            return Some(OscEvent::Cwd(None));
        }
        let url = chars_of(payload.as_str());
        let host = chars_of(policy.hostname.as_str());
        match file_url_path(&url, &host) {
            Some(path) => match rooted(&path, policy.shell) {
                Some(r) => Some(OscEvent::Cwd(Some(r))),
                None => None,
            },
            None => None,
        }
    } else if is_bytes(first, 57, 0, 0, 1) {
        classify_osc9(params, policy)
    } else if is_bytes(first, 55, 55, 55, 3) {
        if !policy.vt.notify || params.len() < 2 || !is_notify(params[1]) {
            return None;
        }
        notify_body(rejoin(params, 3))
    } else if is_bytes(first, 50, 50, 0, 2) {
        if !policy.vt.pointer_shape {
            return None;
        }
        match rejoin(params, 1) {
            Some(name) => match pointer_shape(&chars_of(name.as_str())) {
                Some(shape) => Some(OscEvent::PointerShape(shape)),
                None => None,
            },
            None => None,
        }
    } else {
        None
    }
}

/// A working directory the tap reports is never UNC, and is rooted for the
/// shell's own platform: absolute for a Unix shell, drive-rooted for a
/// Windows one.  Both routes, OSC 7 and OSC 9;9, pass the same guard.
pub proof fn reported_directories_are_rooted(
    params: Seq<Seq<u8>>,
    vt: VtConfig,
    hostname: Seq<char>,
    shell: ShellPlatform,
)
    ensures
        spec_classify(params, vt, hostname, shell) matches Some(EventView::Cwd(Some(path))) ==> {
            &&& !spec_unc(path)
            &&& match shell {
                ShellPlatform::Unix => path.len() >= 1 && path[0] == '/',
                ShellPlatform::Windows => spec_drive_rooted(path),
            }
        },
{
}

/// A `[vt]` key that is off silences its sequences: no directory without
/// `report_cwd`, no notification without `notify`, no progress without
/// `progress` and no pointer shape without `pointer_shape`.
pub proof fn disabled_keys_silence_their_sequences(
    params: Seq<Seq<u8>>,
    vt: VtConfig,
    hostname: Seq<char>,
    shell: ShellPlatform,
)
    ensures
        !vt.report_cwd ==> !(spec_classify(params, vt, hostname, shell) matches Some(
            EventView::Cwd(_),
        )),
        !vt.notify ==> !(spec_classify(params, vt, hostname, shell) matches Some(
            EventView::Notify(_),
        )),
        !vt.progress ==> !(spec_classify(params, vt, hostname, shell) matches Some(
            EventView::Progress(_),
        )),
        !vt.pointer_shape ==> !(spec_classify(params, vt, hostname, shell) matches Some(
            EventView::PointerShape(_),
        )),
{
}

/// OSC 22 sets the pointer to the shape its parameters name, taken whole
/// (rejoined on `;`), while `[vt] pointer_shape` is on; a name with no
/// shape asks for nothing.
pub proof fn osc_22_asks_for_the_named_shape(
    params: Seq<Seq<u8>>,
    vt: VtConfig,
    hostname: Seq<char>,
    shell: ShellPlatform,
    shape: PointerShape,
)
    requires
        params.len() >= 1,
        params[0] == seq![50u8, 50u8],
        vt.pointer_shape,
    ensures
        (spec_classify(params, vt, hostname, shell) == Some(EventView::PointerShape(shape)))
            == (spec_pointer_shape(join_lossy(params.subrange(1, params.len() as int))) == Some(
            shape,
        )),
        spec_classify(params, vt, hostname, shell) is None == spec_pointer_shape(
            join_lossy(params.subrange(1, params.len() as int)),
        ) is None,
{
    assert(params[0] != seq![55u8]);
    assert(params[0] != seq![57u8]);
    assert(params[0] != seq![55u8, 55u8, 55u8]);
}

/// An OSC 777 notification, `777;notify;title;body...`, carries as its body
/// every parameter after the title, each decoded and rejoined with `;`, so
/// a body holding semicolons arrives whole; an empty body, a missing title
/// or another verb than `notify` gives no notification, and neither does
/// anything while `[vt] notify` is off.
pub proof fn a_notification_body_is_everything_after_the_title(
    params: Seq<Seq<u8>>,
    vt: VtConfig,
    hostname: Seq<char>,
    shell: ShellPlatform,
)
    requires
        params.len() >= 1,
        params[0] == seq![55u8, 55u8, 55u8],
    ensures
        !vt.notify ==> spec_classify(params, vt, hostname, shell) is None,
        params.len() < 3 ==> spec_classify(params, vt, hostname, shell) is None,
        params.len() >= 2 && params[1] != notify_bytes() ==> spec_classify(
            params,
            vt,
            hostname,
            shell,
        ) is None,
        vt.notify && params.len() >= 3 && params[1] == notify_bytes() ==> spec_classify(
            params,
            vt,
            hostname,
            shell,
        ) == (if join_lossy(params.subrange(3, params.len() as int)).len() > 0 {
            Some(EventView::Notify(join_lossy(params.subrange(3, params.len() as int))))
        } else {
            None
        }),
{
    assert(params[0].len() == 3);
    assert(seq![55u8].len() == 1);
    assert(seq![57u8].len() == 1);
    assert(seq![50u8, 50u8].len() == 2);
}

/// Rejoining puts a `;` back between every two parameters and nothing
/// else: the parts before the last, then `;`, then the last part's text.
pub proof fn rejoining_puts_back_each_semicolon(parts: Seq<Seq<u8>>, last: Seq<u8>)
    ensures
        parts.len() == 0 ==> join_lossy(parts.push(last)) == lossy_text(last),
        parts.len() > 0 ==> join_lossy(parts.push(last)) == join_lossy(parts) + seq![';']
            + lossy_text(last),
{
    assert(parts.push(last).drop_last() =~= parts);
    assert(parts.push(last).last() == last);
    if parts.len() == 0 {
        assert(parts.push(last)[0] == last);
    }
}


pub const MAX_PENDING: usize = 1048576;

/// Where the byte scanner is relative to an OSC sequence.
#[derive(Debug, Clone, Copy, PartialEq, Eq, Structural)]
pub enum ScanState {
    Ground,
    Escape,
    Osc,
}

/// One byte through the scanner: the state after it, and the length of the
/// OSC sequence in progress.  A terminator, a cancel or a new escape ends
/// the sequence; any other byte inside one lengthens it.
pub open spec fn scan_step(state: ScanState, pending: usize, byte: u8) -> (ScanState, usize) {
    match state {
        ScanState::Ground => if byte == 0x1b {
            (ScanState::Escape, pending)
        } else {
            (ScanState::Ground, pending)
        },
        ScanState::Escape => if byte == 0x5d {
            (ScanState::Osc, 0)
        } else if byte == 0x1b {
            (ScanState::Escape, pending)
        } else if byte == 0x18 || byte == 0x1a {
            (ScanState::Ground, pending)
        } else if byte <= 0x17 || byte == 0x19 || (0x1c <= byte && byte <= 0x1f) || byte >= 0x7f {
            (ScanState::Escape, pending)
        } else {
            (ScanState::Ground, pending)
        },
        ScanState::Osc => if byte == 0x07 || byte == 0x18 || byte == 0x1a {
            (ScanState::Ground, 0)
        } else if byte == 0x1b {
            (ScanState::Escape, 0)
        } else {
            (ScanState::Osc, if pending == usize::MAX { pending } else { (pending + 1) as usize })
        },
    }
}

/// The scanner after a run of bytes.
pub open spec fn scan_all(state: ScanState, pending: usize, bytes: Seq<u8>) -> (ScanState, usize)
    decreases bytes.len(),
{
    if bytes.len() == 0 {
        (state, pending)
    } else {
        let (s, p) = scan_all(state, pending, bytes.drop_last());
        scan_step(s, p, bytes.last())
    }
}

/// The tap's half of the parser: the policy OSC sequences are judged by, and
/// a byte scanner that bounds how long one sequence may run.
pub struct Sink {
    pub policy: TapPolicy,
    pub pending: usize,
    pub scan_state: ScanState,
}

impl Sink {
    pub fn new(policy: TapPolicy) -> (sink: Self)
        ensures
            sink.pending == 0,
            sink.scan_state == ScanState::Ground,
            sink.policy == policy,
    {
        Sink { policy, pending: 0, scan_state: ScanState::Ground }
    }

    pub fn reset_pending(&mut self)
        ensures
            final(self).pending == 0,
            final(self).scan_state == ScanState::Ground,
            final(self).policy == old(self).policy,
    {
        self.pending = 0;
        self.scan_state = ScanState::Ground;
    }

    fn step(&mut self, byte: u8)
        ensures
            (final(self).scan_state, final(self).pending) == scan_step(
                old(self).scan_state,
                old(self).pending,
                byte,
            ),
            final(self).policy == old(self).policy,
    {
        match self.scan_state {
            ScanState::Ground => {
                if byte == 0x1b {
                    self.scan_state = ScanState::Escape;
                }
            },
            ScanState::Escape => {
                if byte == 0x5d {
                    self.pending = 0;
                    self.scan_state = ScanState::Osc;
                } else if byte == 0x1b {
                } else if byte == 0x18 || byte == 0x1a {
                    self.scan_state = ScanState::Ground;
                } else if byte <= 0x17 || byte == 0x19 || (0x1c <= byte && byte <= 0x1f) || byte
                    >= 0x7f {
                } else {
                    self.scan_state = ScanState::Ground;
                }
            },
            ScanState::Osc => {
                if byte == 0x07 || byte == 0x18 || byte == 0x1a {
                    self.reset_pending();
                } else if byte == 0x1b {
                    self.pending = 0;
                    self.scan_state = ScanState::Escape;
                } else {
                    self.pending = self.pending.saturating_add(1);
                }
            },
        }
    }

    /// Run the scanner over one chunk.
    pub fn scan(&mut self, bytes: &[u8])
        ensures
            (final(self).scan_state, final(self).pending) == scan_all(
                old(self).scan_state,
                old(self).pending,
                bytes@,
            ),
            final(self).policy == old(self).policy,
    {
        let mut i: usize = 0;
        assert(bytes@.take(0) =~= Seq::<u8>::empty());
        while i < bytes.len()
            invariant
                i <= bytes.len(),
                self.policy == old(self).policy,
                (self.scan_state, self.pending) == scan_all(
                    old(self).scan_state,
                    old(self).pending,
                    bytes@.take(i as int),
                ),
            decreases bytes.len() - i,
        {
            assert(bytes@.take(i + 1).drop_last() =~= bytes@.take(i as int));
            self.step(bytes[i]);
            i += 1;
        }
        assert(bytes@.take(bytes.len() as int) =~= bytes@);
    }

    /// A chunk is about to be fed.  After a hole in the stream framing means
    /// nothing, so the answer is whether the parser must start over; the
    /// scanner starts over with it.
    pub fn begin_chunk(&mut self, gap_before: bool) -> (restart: bool)
        ensures
            restart == gap_before,
            gap_before ==> final(self).pending == 0 && final(self).scan_state == ScanState::Ground,
            !gap_before ==> *final(self) == *old(self),
    {
        if gap_before {
            self.reset_pending();
        }
        gap_before
    }

    /// A chunk has been fed to the parser.  Scans it, and answers whether
    /// the sequence in progress has run past `MAX_PENDING`, in which case
    /// the parser must start over and the scanner has.
    pub fn end_chunk(&mut self, bytes: &[u8]) -> (restart: bool)
        ensures
            final(self).pending <= MAX_PENDING,
            final(self).policy == old(self).policy,
            ({
                let (st, p) = scan_all(old(self).scan_state, old(self).pending, bytes@);
                if p > MAX_PENDING {
                    restart && final(self).pending == 0 && final(self).scan_state
                        == ScanState::Ground
                } else {
                    !restart && final(self).pending == p && final(self).scan_state == st
                }
            }),
    {
        self.scan(bytes);
        if self.pending > MAX_PENDING {
            self.reset_pending();
            true
        } else {
            false
        }
    }

    /// The parser finished an OSC sequence: its length no longer counts, and
    /// the event it carries, if any, is returned for delivery.
    pub fn osc_dispatch(&mut self, params: &[&[u8]]) -> (event: Option<OscEvent>)
        ensures
            final(self).pending == 0,
            final(self).scan_state == old(self).scan_state,
            final(self).policy == old(self).policy,
            option_view(event) == spec_classify(
                param_views(params@),
                old(self).policy.vt,
                old(self).policy.hostname@,
                old(self).policy.shell,
            ),
    {
        self.pending = 0;
        classify(params, &self.policy)
    }
}

} // verus!
