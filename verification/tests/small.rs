use alacritree::faces::{Face, FallbackFace, SortedFont, Variant, select_fallbacks};
use alacritree::upstream::{UpstreamState, upstream_tooltip};

#[test]
fn face_maps_bold_and_italic_flags() {
    assert_eq!(Face::new(false, false), Face::Normal);
    assert_eq!(Face::new(true, false), Face::Bold);
    assert_eq!(Face::new(false, true), Face::Italic);
    assert_eq!(Face::new(true, true), Face::BoldItalic);
}

#[test]
fn upstream_name_is_exposed_for_tracked_states_only() {
    assert_eq!(
        UpstreamState::Level { upstream: "origin/x".into() }.upstream_name(),
        Some("origin/x")
    );
    assert_eq!(
        UpstreamState::Diverged { upstream: "origin/x".into(), ahead: 1, behind: 2 }
            .upstream_name(),
        Some("origin/x")
    );
    assert_eq!(
        UpstreamState::Gone { upstream: "origin/x".into() }.upstream_name(),
        Some("origin/x")
    );
    assert_eq!(UpstreamState::Untracked.upstream_name(), None);
}

#[test]
fn the_upstream_tooltip_names_the_ref() {
    assert_eq!(
        upstream_tooltip(&UpstreamState::Level { upstream: "origin/x".into() }),
        "tracks origin/x"
    );
    assert_eq!(
        upstream_tooltip(&UpstreamState::Diverged {
            upstream: "origin/x".into(),
            ahead: 12,
            behind: 0
        }),
        "tracks origin/x \u{2014} 12 ahead, 0 behind"
    );
    assert_eq!(
        upstream_tooltip(&UpstreamState::Gone { upstream: "origin/x".into() }),
        "origin/x is missing locally"
    );
    assert_eq!(upstream_tooltip(&UpstreamState::Untracked), "no upstream configured");
}

#[test]
fn variants_are_labelled_for_logs() {
    assert_eq!(Variant::Normal.label(), "regular");
    assert_eq!(Variant::BoldItalic.label(), "bold italic");
}

fn font(path: Option<&str>, index: Option<i32>) -> SortedFont {
    SortedFont { path: path.map(String::from), face_index: index }
}

#[test]
fn fallbacks_skip_loaded_files_and_stop_at_the_limit() {
    let sorted = vec![
        font(Some("/a.ttf"), Some(0)),
        font(None, None),
        font(Some("/loaded.ttf"), Some(1)),
        font(Some("/b.ttc"), Some(-3)),
        font(Some("/c.ttc"), Some(2)),
        font(Some("/d.ttf"), None),
    ];
    let picked = select_fallbacks(&sorted, &vec!["/loaded.ttf".to_string()], 3);
    let picked: Vec<(String, u32)> =
        picked.into_iter().map(|FallbackFace { path, face_index }| (path, face_index)).collect();
    assert_eq!(picked, vec![
        ("/a.ttf".to_string(), 0),
        ("/b.ttc".to_string(), 0),
        ("/c.ttc".to_string(), 2)
    ]);
}
