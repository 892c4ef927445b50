use alacritree::env_block::{env_block, EnvPair};

fn wide(s: &str) -> Vec<u16> {
    s.encode_utf16().collect()
}

fn pair(k: &str, v: &str) -> EnvPair {
    (wide(k), wide(v))
}

fn block(entries: &[&str]) -> Vec<u16> {
    let mut out = Vec::new();
    for e in entries {
        out.extend(wide(e));
        out.push(0);
    }
    out.push(0);
    out
}

#[test]
fn nothing_configured_means_the_child_inherits() {
    assert_eq!(env_block(&vec![], &vec![pair("PATH", "C:\\bin")]), None);
}

#[test]
fn configured_variables_come_first_and_win() {
    let custom = vec![pair("Path", "C:\\mine"), pair("TERM", "xterm-256color")];
    let inherited = vec![pair("PATH", "C:\\bin"), pair("HOME", "C:\\Users\\dev")];
    assert_eq!(
        env_block(&custom, &inherited),
        Some(block(&["Path=C:\\mine", "TERM=xterm-256color", "HOME=C:\\Users\\dev"]))
    );
}

#[test]
fn a_duplicate_configured_name_keeps_the_first() {
    let custom = vec![pair("term", "a"), pair("TERM", "b")];
    assert_eq!(env_block(&custom, &vec![]), Some(block(&["term=a"])));
}

#[test]
fn only_ascii_letters_fold() {
    // 'É' and 'é' are different names to the ASCII-only comparison.
    let custom = vec![pair("\u{c9}", "1")];
    let inherited = vec![pair("\u{e9}", "2")];
    assert_eq!(env_block(&custom, &inherited), Some(block(&["\u{c9}=1", "\u{e9}=2"])));
}
