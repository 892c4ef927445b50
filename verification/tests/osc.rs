use alacritree::osc::{
    MAX_PENDING, OscEvent, PointerShape, Progress, ShellPlatform, Sink, TapPolicy, VtConfig,
    classify,
};
use alacritree::tap::Chunk;

fn policy(shell: ShellPlatform) -> TapPolicy {
    TapPolicy {
        vt: VtConfig { report_cwd: true, notify: true, progress: true, pointer_shape: true },
        hostname: "LEVPC".to_string(),
        shell,
    }
}

fn osc(payload: &[&str], shell: ShellPlatform) -> Option<OscEvent> {
    let owned: Vec<&[u8]> = payload.iter().map(|s| s.as_bytes()).collect();
    classify(&owned, &policy(shell))
}

#[test]
fn osc7_accepts_every_spelling_of_a_local_host() {
    for host in ["", "localhost", "levpc", "LEVPC"] {
        assert_eq!(
            osc(&["7", &format!("file://{host}/home/dev/src")], ShellPlatform::Unix),
            Some(OscEvent::Cwd(Some("/home/dev/src".into()))),
            "host {host:?}",
        );
    }
}

#[test]
fn osc7_rejects_a_foreign_host_and_a_foreign_scheme() {
    assert_eq!(osc(&["7", "file://remote/home/dev"], ShellPlatform::Unix), None);
    assert_eq!(osc(&["7", "http://localhost/home/dev"], ShellPlatform::Unix), None);
}

#[test]
fn osc7_decodes_percent_escapes() {
    assert_eq!(
        osc(&["7", "file:///home/dev/my%20src"], ShellPlatform::Unix),
        Some(OscEvent::Cwd(Some("/home/dev/my src".into()))),
    );
}

#[test]
fn osc7_strips_the_slash_before_a_drive_letter() {
    assert_eq!(
        osc(&["7", "file:///C:/src"], ShellPlatform::Windows),
        Some(OscEvent::Cwd(Some("C:/src".into()))),
    );
}

#[test]
fn osc7_treats_an_empty_payload_as_a_reset() {
    assert_eq!(osc(&["7", ""], ShellPlatform::Unix), Some(OscEvent::Cwd(None)));
}

#[test]
fn a_unc_path_is_refused_by_both_routes() {
    assert_eq!(osc(&["9", "9", r"\\evil\share"], ShellPlatform::Windows), None);
    assert_eq!(osc(&["7", "file:////evil/share"], ShellPlatform::Windows), None);
}

#[test]
fn an_unrooted_path_is_refused() {
    for path in ["src/thing", "~/src", "C:thing"] {
        assert_eq!(osc(&["9", "9", path], ShellPlatform::Windows), None, "path {path:?}");
    }
}

#[test]
fn osc9_9_strips_one_pair_of_quotes_and_keeps_the_remainder() {
    assert_eq!(
        osc(&["9", "9", "\"D:/src\""], ShellPlatform::Windows),
        Some(OscEvent::Cwd(Some("D:/src".into()))),
    );
    assert_eq!(
        osc(&["9", "9", "D:/a", "b"], ShellPlatform::Windows),
        Some(OscEvent::Cwd(Some("D:/a;b".into()))),
    );
}

#[test]
fn osc9_tells_a_conemu_subcommand_from_a_notification() {
    assert_eq!(
        osc(&["9", "9 items remaining"], ShellPlatform::Unix),
        Some(OscEvent::Notify("9 items remaining".into())),
    );
    assert_eq!(
        osc(&["9", "build finished"], ShellPlatform::Unix),
        Some(OscEvent::Notify("build finished".into())),
    );
}

#[test]
fn osc9_drops_unsupported_digit_run_subcommands() {
    for payload in [
        &["9", "1", "500"][..],
        &["9", "2", "msg"][..],
        &["9", "3", "x"][..],
        &["9", "5"][..],
        &["9", "11", "x"][..],
        &["9", "12"][..],
        &["9", "4"][..],
    ] {
        assert_eq!(osc(payload, ShellPlatform::Unix), None, "payload {payload:?}");
    }
}

#[test]
fn osc777_takes_the_body_after_the_title() {
    assert_eq!(
        osc(&["777", "notify", "cargo", "build failed"], ShellPlatform::Unix),
        Some(OscEvent::Notify("build failed".into())),
    );
}

#[test]
fn osc9_4_follows_windows_terminals_bounds() {
    let unix = ShellPlatform::Unix;
    assert_eq!(osc(&["9", "4", "0"], unix), Some(OscEvent::Progress(Progress::Clear)));
    assert_eq!(osc(&["9", "4", "1", "50"], unix), Some(OscEvent::Progress(Progress::Running(50))));
    assert_eq!(
        osc(&["9", "4", "1", "900"], unix),
        Some(OscEvent::Progress(Progress::Running(100)))
    );
    assert_eq!(osc(&["9", "4", "3"], unix), Some(OscEvent::Progress(Progress::Indeterminate)));
    assert_eq!(osc(&["9", "4", ""], unix), Some(OscEvent::Progress(Progress::Clear)));
    assert_eq!(osc(&["9", "4", "5"], unix), None);
}

#[test]
fn osc9_4_rejects_malformed_present_fields() {
    for payload in
        [&["9", "4", "bad"][..], &["9", "4", "1", "bad"][..], &["9", "4", "3", "bad"][..]]
    {
        assert_eq!(osc(payload, ShellPlatform::Unix), None, "payload {payload:?}");
    }
}

#[test]
fn osc22_maps_known_names_and_ignores_the_rest() {
    assert_eq!(
        osc(&["22", "pointer"], ShellPlatform::Unix),
        Some(OscEvent::PointerShape(PointerShape::PointingHand)),
    );
    assert_eq!(osc(&["22", "no-such-cursor"], ShellPlatform::Unix), None);
}

#[test]
fn a_disabled_key_silences_its_sequence() {
    let mut p = policy(ShellPlatform::Unix);
    p.vt.report_cwd = false;
    let owned: Vec<&[u8]> = vec![b"7", b"file:///home/dev"];
    assert_eq!(classify(&owned, &p), None);
}

#[test]
fn paused_and_error_progress_carry_their_value() {
    let unix = ShellPlatform::Unix;
    assert_eq!(osc(&["9", "4", "2", "7"], unix), Some(OscEvent::Progress(Progress::Error(7))));
    assert_eq!(osc(&["9", "4", "4", "+12"], unix), Some(OscEvent::Progress(Progress::Paused(12))));
    assert_eq!(osc(&["9", "4", "1", ""], unix), Some(OscEvent::Progress(Progress::Running(0))));
}

#[test]
fn a_bad_escape_or_a_foreign_hostname_is_refused() {
    assert_eq!(osc(&["7", "file:///home/%zz"], ShellPlatform::Unix), None);
    assert_eq!(osc(&["7", "file:///home/%2"], ShellPlatform::Unix), None);
    assert_eq!(osc(&["7", "file:///home/%ff"], ShellPlatform::Unix), None);
    assert_eq!(osc(&["7", "file://LocalHost"], ShellPlatform::Unix), None);
    assert_eq!(osc(&["8", "file:///tmp"], ShellPlatform::Unix), None);
    assert_eq!(osc(&[], ShellPlatform::Unix), None);
    assert_eq!(osc(&["777", "notify", "title"], ShellPlatform::Unix), None);
    assert_eq!(osc(&["777", "notify", "title", ""], ShellPlatform::Unix), None);
    assert_eq!(osc(&["777", "other", "t", "b"], ShellPlatform::Unix), None);
    assert_eq!(osc(&["9", ""], ShellPlatform::Unix), None);
}

#[test]
fn every_pointer_name_maps_to_its_shape() {
    let cases = [
        ("left_ptr", PointerShape::Default),
        ("hand2", PointerShape::PointingHand),
        ("ibeam", PointerShape::Text),
        ("cross", PointerShape::Crosshair),
        ("watch", PointerShape::Wait),
        ("progress", PointerShape::Progress),
        ("question_arrow", PointerShape::Help),
        ("fleur", PointerShape::Move),
        ("crossed_circle", PointerShape::NotAllowed),
    ];
    for (name, shape) in cases {
        assert_eq!(osc(&["22", name], ShellPlatform::Unix), Some(OscEvent::PointerShape(shape)));
    }
}

/// Drives the escape parser over a chunk the way the tap thread does.
struct Tap {
    parser: vte::Parser,
    sink: Sink,
    events: Vec<OscEvent>,
}

struct Dispatch<'a> {
    sink: &'a mut Sink,
    events: &'a mut Vec<OscEvent>,
}

impl vte::Perform for Dispatch<'_> {
    fn osc_dispatch(&mut self, params: &[&[u8]], _bell_terminated: bool) {
        if let Some(event) = self.sink.osc_dispatch(params) {
            self.events.push(event);
        }
    }
}

impl Tap {
    fn new() -> Self {
        Tap { parser: vte::Parser::new(), sink: Sink::new(policy(ShellPlatform::Unix)), events: Vec::new() }
    }

    fn feed(&mut self, chunk: &Chunk) {
        if self.sink.begin_chunk(chunk.gap_before) {
            self.parser = vte::Parser::new();
        }
        let mut dispatch = Dispatch { sink: &mut self.sink, events: &mut self.events };
        self.parser.advance(&mut dispatch, &chunk.bytes);
        if self.sink.end_chunk(&chunk.bytes) {
            self.parser = vte::Parser::new();
        }
    }

    fn take(&mut self) -> Vec<OscEvent> {
        std::mem::take(&mut self.events)
    }
}

fn chunk(bytes: &[u8], gap_before: bool) -> Chunk {
    Chunk { bytes: bytes.to_vec(), gap_before }
}

#[test]
fn a_sequence_split_across_chunks_still_dispatches() {
    let mut tap = Tap::new();

    tap.feed(&chunk(b"\x1b]7;file:///home/", false));
    assert!(tap.take().is_empty(), "nothing is complete yet");

    tap.feed(&chunk(b"dev/src\x1b\\", false));
    assert_eq!(tap.take(), vec![OscEvent::Cwd(Some("/home/dev/src".into()))]);
}

#[test]
fn ordinary_output_before_a_split_sequence_does_not_reset_the_parser() {
    let mut tap = Tap::new();
    let mut prefix = vec![b'x'; MAX_PENDING + 1];
    prefix.extend_from_slice(b"\x1b]7;file:///home/");

    tap.feed(&chunk(&prefix, false));
    assert!(tap.take().is_empty(), "nothing is complete yet");

    tap.feed(&chunk(b"dev/src\x1b\\", false));
    assert_eq!(tap.take(), vec![OscEvent::Cwd(Some("/home/dev/src".into()))]);
}

#[test]
fn osc_terminations_reset_the_pending_byte_bound() {
    for terminator in [0x07, 0x18, 0x1a, 0x1b] {
        let mut tap = Tap::new();
        let mut prefix = b"\x1b]0;ignored".to_vec();
        prefix.push(terminator);
        prefix.extend(vec![b'x'; MAX_PENDING + 1]);
        prefix.extend_from_slice(b"\x1b]7;file:///home/");

        tap.feed(&chunk(&prefix, false));
        assert!(tap.take().is_empty(), "nothing is complete yet");

        tap.feed(&chunk(b"dev/src\x1b\\", false));
        assert_eq!(tap.take(), vec![OscEvent::Cwd(Some("/home/dev/src".into()))]);
    }
}

#[test]
fn a_gap_discards_the_sequence_it_interrupted() {
    let mut tap = Tap::new();

    tap.feed(&chunk(b"\x1b]7;file:///home/", false));
    tap.feed(&chunk(b"dev/src\x1b\\", true));
    assert!(tap.take().is_empty(), "a hole in the stream must not be framed across");

    tap.feed(&chunk(b"\x1b]7;file:///tmp\x1b\\", false));
    assert_eq!(tap.take(), vec![OscEvent::Cwd(Some("/tmp".into()))]);
}

#[test]
fn an_unterminated_sequence_does_not_grow_without_bound() {
    let mut tap = Tap::new();

    tap.feed(&chunk(b"\x1b]7;", false));
    let flood = vec![b'x'; MAX_PENDING + 1];
    tap.feed(&chunk(&flood, false));
    assert_eq!(tap.sink.pending, 0);

    tap.feed(&chunk(b"\x1b]7;file:///tmp\x1b\\", false));
    assert_eq!(tap.take(), vec![OscEvent::Cwd(Some("/tmp".into()))]);
}
