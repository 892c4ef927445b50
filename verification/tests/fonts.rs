use alacritree::faces::{select_fallbacks, FallbackBook, SortedFont, UserStep, MAX_FALLBACK_FACES};

/// A file-path entry resolves to the same file for every variant: the bytes
/// are loaded once and the same font id joins each variant's families.
#[test]
fn user_fallback_path_registers_for_every_variant() {
    let mut book = FallbackBook::new();
    let path = "/fonts/user_fallback.ttf".to_string();

    // The normal variant sees the file first and loads it.
    assert_eq!(book.user_step(&path), UserStep::Load);
    let id = book.register(path.clone(), 4);
    assert_eq!(id, "alacritree_fallback_4");

    // The bold variant reuses the id instead of loading it again.
    assert_eq!(book.user_step(&path), UserStep::Reuse(id));
}

#[test]
fn a_primary_face_is_not_added_as_a_fallback() {
    let mut book = FallbackBook::new();
    book.mark_loaded("/fonts/mono.ttf".to_string());
    assert_eq!(book.user_step(&"/fonts/mono.ttf".to_string()), UserStep::Skip);
    assert_eq!(book.loaded_paths(), &vec!["/fonts/mono.ttf".to_string()]);
}

#[test]
fn unresolved_user_fallback_warns_once_and_adds_nothing() {
    let mut book = FallbackBook::new();
    let entry = "alacritree-no-such-family-6c1e".to_string();
    assert!(book.warn_once(&entry));
    assert!(!book.warn_once(&entry));
    assert!(book.loaded_paths().is_empty());
}

#[test]
fn a_later_face_of_the_same_file_takes_over_its_id() {
    let mut book = FallbackBook::new();
    let path = "/fonts/collection.ttc".to_string();
    book.register(path.clone(), 1);
    let second = book.register(path.clone(), 2);
    assert_eq!(book.user_step(&path), UserStep::Reuse(second));
    assert_eq!(book.loaded_paths().len(), 2);
}

#[test]
fn the_automatic_chain_skips_loaded_files_and_stops_at_the_limit() {
    let mut book = FallbackBook::new();
    book.mark_loaded("/a.ttf".to_string());
    let sorted: Vec<SortedFont> = ["/a.ttf", "/b.ttf", "/c.ttf", "/d.ttf"]
        .iter()
        .map(|p| SortedFont { path: Some(p.to_string()), face_index: Some(-1) })
        .collect();
    let chosen = select_fallbacks(&sorted, book.loaded_paths(), 2);
    let paths: Vec<&str> = chosen.iter().map(|f| f.path.as_str()).collect();
    assert_eq!(paths, vec!["/b.ttf", "/c.ttf"]);
    assert!(chosen.iter().all(|f| f.face_index == 0));
    assert_eq!(MAX_FALLBACK_FACES, 32);
}
