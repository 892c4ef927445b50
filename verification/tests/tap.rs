use std::sync::mpsc;

use alacritree::tap::{QUEUE_DEPTH, TapHandle, make_chunk};

#[test]
fn a_full_queue_drops_a_chunk_and_flags_the_gap() {
    let (tx, rx) = mpsc::sync_channel(1);
    let (_pool_tx, pool_rx) = mpsc::channel();
    let mut tap = TapHandle::new(tx, pool_rx);

    tap.offer(b"first");
    tap.offer(b"lost");

    let first = rx.recv().unwrap();
    assert_eq!(first.bytes, b"first");
    assert!(!first.gap_before);

    tap.offer(b"after");
    let after = rx.recv().unwrap();
    assert_eq!(after.bytes, b"after");
    assert!(after.gap_before, "the drop has to be announced");
}

#[test]
fn a_returned_buffer_is_reused_instead_of_allocated() {
    let (tx, rx) = mpsc::sync_channel(QUEUE_DEPTH);
    let (pool_tx, pool_rx) = mpsc::channel();
    let mut tap = TapHandle::new(tx, pool_rx);

    tap.offer(b"first");
    let mut recycled = rx.recv().unwrap().bytes;
    recycled.clear();
    recycled.reserve(4096);
    let addr = recycled.as_ptr();
    pool_tx.send(recycled).unwrap();

    tap.offer(b"second");
    let next = rx.recv().unwrap();
    assert_eq!(next.bytes, b"second");
    assert_eq!(next.bytes.as_ptr(), addr, "the pooled allocation was not reused");
}

#[test]
fn a_disconnected_tap_skips_later_copying() {
    let (tx, rx) = mpsc::sync_channel(QUEUE_DEPTH);
    drop(rx);
    let (pool_tx, pool_rx) = mpsc::channel();
    let mut tap = TapHandle::new(tx, pool_rx);

    tap.offer(b"first");

    let mut recycled = Vec::with_capacity(4096);
    recycled.extend_from_slice(b"sentinel");
    pool_tx.send(recycled).unwrap();

    tap.offer(b"second");

    let preserved = tap.pool().try_recv().expect("dead tap consumed the pool");
    assert_eq!(preserved, b"sentinel");
}

#[test]
fn a_chunk_carries_the_read_and_the_gap_flag() {
    let chunk = make_chunk(b"stale contents".to_vec(), b"new", true);
    assert_eq!(chunk.bytes, b"new");
    assert!(chunk.gap_before);
}
