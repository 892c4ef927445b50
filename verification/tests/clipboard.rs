use alacritree::clipboard::{
    encode_png, file_name_of_digest, is_generated_name, stale_files, EncodeError, Image,
    SweepEntry, MAX_PIXELS,
};

fn image(width: usize, height: usize) -> Image {
    let bytes = (0..width * height * 4).map(|i| (i % 251) as u8).collect::<Vec<_>>();
    Image { width, height, bytes }
}

#[test]
fn an_image_survives_the_encode_round_trip() {
    let source = image(7, 5);
    let png = encode_png(&source).expect("encodes");

    let decoder = png::Decoder::new(std::io::Cursor::new(&png));
    let mut reader = decoder.read_info().expect("valid png");
    let mut out = vec![0; reader.output_buffer_size().expect("a size")];
    let info = reader.next_frame(&mut out).expect("one frame");

    assert_eq!((info.width, info.height), (7, 5));
    assert_eq!(info.color_type, png::ColorType::Rgba);
    assert_eq!(&out[..info.buffer_size()], source.bytes.as_slice());
}

/// A clipboard owner can advertise any dimensions it likes.  Reject before
/// allocating, because this runs on the UI thread during a keystroke.
#[test]
fn an_absurdly_large_image_is_rejected_before_allocating() {
    let huge = Image { width: usize::MAX, height: 4, bytes: Vec::new() };
    assert!(matches!(encode_png(&huge), Err(EncodeError::TooLarge { pixels: usize::MAX })));
    let just_over = Image { width: MAX_PIXELS + 1, height: 1, bytes: Vec::new() };
    assert!(matches!(encode_png(&just_over), Err(EncodeError::TooLarge { .. })));
}

#[test]
fn a_byte_count_disagreeing_with_the_dimensions_is_rejected() {
    let lying = Image { width: 4, height: 4, bytes: vec![0; 8] };
    assert!(matches!(
        encode_png(&lying),
        Err(EncodeError::Inconsistent { expected: 64, actual: 8 })
    ));
}

#[test]
fn an_empty_image_is_refused_by_the_encoder() {
    let empty = Image { width: 0, height: 3, bytes: Vec::new() };
    assert!(matches!(encode_png(&empty), Err(EncodeError::Encoding(_))));
}

#[test]
fn errors_describe_themselves() {
    assert_eq!(
        EncodeError::TooLarge { pixels: 70000000 }.message(),
        "70000000 pixels is past the 67108864 limit"
    );
    assert_eq!(
        EncodeError::Inconsistent { expected: 64, actual: 8 }.message(),
        "dimensions imply 64 bytes, got 8"
    );
    let empty = Image { width: 0, height: 3, bytes: Vec::new() };
    match encode_png(&empty) {
        Err(e) => assert!(!e.message().is_empty()),
        Ok(_) => panic!("an empty image encoded"),
    }
}

#[test]
fn the_file_name_is_sixteen_hex_digits_and_inert() {
    let name = file_name_of_digest(0xdead_beef);
    assert_eq!(name, "clipboard-00000000deadbeef.png");
    let hex = name.strip_prefix("clipboard-").and_then(|r| r.strip_suffix(".png")).expect("shape");
    assert_eq!(hex.len(), 16);
    assert!(hex.bytes().all(|b| b.is_ascii_hexdigit()));
    assert_eq!(file_name_of_digest(u64::MAX), "clipboard-ffffffffffffffff.png");
    assert!(is_generated_name(&name));
}

#[test]
fn only_generated_names_are_recognised() {
    assert!(is_generated_name("clipboard-0123456789ABCDEF.png"));
    assert!(!is_generated_name("clipboard-0123456789abcdef.png.4242.0.tmp"));
    assert!(!is_generated_name("clipboard-0123456789abcdeg.png"));
    assert!(!is_generated_name("clipboard-0123456789abcde.png"));
    assert!(!is_generated_name("holiday.png"));
    assert!(!is_generated_name(""));
}

fn entry(digest: u64, modified: i128) -> SweepEntry {
    SweepEntry { name: file_name_of_digest(digest), modified_ns: Some(modified) }
}

fn survivors(entries: &[SweepEntry], stale: &[bool]) -> Vec<String> {
    entries.iter().zip(stale).filter(|(_, s)| !**s).map(|(e, _)| e.name.clone()).collect()
}

#[test]
fn the_cap_keeps_the_newest_and_always_the_returned_path() {
    let in_use = file_name_of_digest(99);
    let mut entries: Vec<SweepEntry> = (0..6u64).map(|i| entry(i, 1_000 + i as i128)).collect();
    // The returned file is the oldest of all, and still stays.
    entries.push(SweepEntry { name: in_use.clone(), modified_ns: Some(1) });

    let stale = stale_files(&entries, &in_use, Some(3));

    let kept = survivors(&entries, &stale);
    assert_eq!(kept, vec![file_name_of_digest(4), file_name_of_digest(5), in_use]);
}

#[test]
fn a_cap_of_one_keeps_only_the_returned_path() {
    let in_use = file_name_of_digest(7);
    let mut entries: Vec<SweepEntry> = (0..4u64).map(|i| entry(i, 10 * i as i128)).collect();
    entries.push(entry(7, 0));
    let stale = stale_files(&entries, &in_use, Some(1));
    assert_eq!(survivors(&entries, &stale), vec![in_use.clone()]);
    // A cap of zero still has to keep a usable path.
    let stale = stale_files(&entries, &in_use, Some(0));
    assert_eq!(survivors(&entries, &stale), vec![in_use]);
}

#[test]
fn no_cap_deletes_nothing() {
    let entries: Vec<SweepEntry> = (0..5u64).map(|i| entry(i, i as i128)).collect();
    let stale = stale_files(&entries, "clipboard-0000000000000063.png", None);
    assert!(stale.iter().all(|s| !s));
}

#[test]
fn the_cap_never_touches_a_file_it_did_not_name() {
    let in_use = file_name_of_digest(50);
    let mut entries = vec![SweepEntry { name: "holiday.png".to_string(), modified_ns: Some(-5) }];
    entries.extend((0..4u64).map(|i| entry(i, i as i128)));
    // An unranked file is never chosen either.
    entries.push(SweepEntry { name: file_name_of_digest(60), modified_ns: None });
    let stale = stale_files(&entries, &in_use, Some(1));
    assert_eq!(stale, vec![false, true, true, true, true, false]);
}

#[test]
fn ties_in_age_keep_the_earlier_listed_file() {
    let in_use = file_name_of_digest(9);
    let entries = vec![entry(1, 5), entry(2, 5), entry(3, 5)];
    let stale = stale_files(&entries, &in_use, Some(2));
    assert_eq!(stale, vec![false, true, true]);
}
