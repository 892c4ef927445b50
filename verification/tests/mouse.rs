use alacritree::mouse::{InputKind, MouseHide};

fn key(pressed: bool) -> InputKind {
    if pressed {
        InputKind::KeyPressed
    } else {
        InputKind::KeyReleased
    }
}

fn click() -> InputKind {
    InputKind::PointerButton
}

#[test]
fn typing_hides_the_pointer() {
    let mut hide = MouseHide::new();
    hide.observe(true, &[key(true)]);
    assert!(hide.hidden());
}

#[test]
fn a_quiet_frame_leaves_the_pointer_where_it_was() {
    let mut hide = MouseHide::new();
    hide.observe(true, &[key(true)]);
    hide.observe(true, &[]);
    assert!(hide.hidden());
}

#[test]
fn moving_the_pointer_brings_it_back() {
    let mut hide = MouseHide::new();
    hide.observe(true, &[key(true)]);
    hide.observe(true, &[InputKind::PointerMoved]);
    assert!(!hide.hidden());
}

#[test]
fn a_click_brings_it_back() {
    let mut hide = MouseHide::new();
    hide.observe(true, &[key(true)]);
    hide.observe(true, &[click()]);
    assert!(!hide.hidden());
}

#[test]
fn a_wheel_tick_brings_it_back() {
    let mut hide = MouseHide::new();
    hide.observe(true, &[key(true)]);
    hide.observe(true, &[InputKind::MouseWheel]);
    assert!(!hide.hidden());
}

#[test]
fn the_last_event_of_a_mixed_frame_decides() {
    let mut hide = MouseHide::new();
    hide.observe(true, &[key(true), InputKind::PointerMoved]);
    assert!(!hide.hidden());

    let mut hide = MouseHide::new();
    hide.observe(true, &[InputKind::PointerMoved, key(true)]);
    assert!(hide.hidden());
}

#[test]
fn a_key_release_on_its_own_does_not_hide() {
    let mut hide = MouseHide::new();
    hide.observe(true, &[key(false)]);
    assert!(!hide.hidden());
}

#[test]
fn the_option_being_off_keeps_the_pointer_visible() {
    let mut hide = MouseHide::new();
    hide.observe(false, &[key(true)]);
    assert!(!hide.hidden());
}

#[test]
fn turning_the_option_off_reveals_a_hidden_pointer() {
    let mut hide = MouseHide::new();
    hide.observe(true, &[key(true)]);
    hide.observe(false, &[]);
    assert!(!hide.hidden());
}

#[test]
fn typed_text_hides_and_a_touch_shows() {
    let mut hide = MouseHide::new();
    hide.observe(true, &[InputKind::Text, InputKind::Other]);
    assert!(hide.hidden());
    hide.observe(true, &[InputKind::Touch, InputKind::KeyReleased]);
    assert!(!hide.hidden());
}
