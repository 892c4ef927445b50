use alacritree::rearm::{ByteCursor, DRAIN_AHEAD, MAX_LOCKED_READ, Staging};

fn parse_buffer() -> Vec<u8> {
    vec![0; DRAIN_AHEAD]
}

#[test]
fn one_take_serves_a_whole_visit() {
    let mut source = ByteCursor::new(vec![b'x'; 4 * MAX_LOCKED_READ]);
    let mut staging = Staging::new();

    let (read, staged_behind) = staging.take(&mut parse_buffer(), &mut source).unwrap();

    assert!(read >= MAX_LOCKED_READ, "a visit stops after {MAX_LOCKED_READ}, got {read}");
    assert!(staged_behind, "the rest of the drain still has to be announced");
}

#[test]
fn a_drained_pipe_announces_nothing() {
    let mut source = ByteCursor::new(b"hello".to_vec());
    let mut staging = Staging::new();

    assert_eq!(staging.take(&mut parse_buffer(), &mut source).unwrap(), (5, false));
    assert_eq!(staging.take(&mut parse_buffer(), &mut source).unwrap(), (0, false));
}

#[test]
fn a_drain_announces_once_per_visit() {
    let staged = 4 * MAX_LOCKED_READ;
    let mut source = ByteCursor::new(vec![b'x'; staged]);
    let mut staging = Staging::new();
    let mut buf = parse_buffer();

    let mut announced = 0;
    let mut visits = 0;
    loop {
        let (read, staged_behind) = staging.take(&mut buf, &mut source).unwrap();
        if read == 0 {
            break;
        }
        visits += 1;
        announced += usize::from(staged_behind);
    }

    assert_eq!(visits, staged.div_ceil(MAX_LOCKED_READ));
    assert_eq!(announced, visits - 1, "only the last visit finds nothing staged behind it");
}

#[test]
fn a_short_buffer_gets_only_what_fits_and_the_bytes_are_the_source_s() {
    let mut source = ByteCursor::new((0..10u8).collect());
    let mut staging = Staging::new();
    let mut out = vec![0xAA; 4];

    assert_eq!(staging.take(&mut out, &mut source).unwrap(), (4, true));
    assert_eq!(out, vec![0, 1, 2, 3]);
    assert_eq!(staging.take(&mut out, &mut source).unwrap(), (4, true));
    assert_eq!(out, vec![4, 5, 6, 7]);
    assert_eq!(staging.take(&mut out, &mut source).unwrap(), (2, false));
    assert_eq!(out, vec![8, 9, 6, 7]);
}
