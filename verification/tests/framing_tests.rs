use rufton::framing::{LineBuffer, PendingQueue, SendBuffer, TokenPool, frame_line};

#[test]
fn line_buffer_extracts_lines_and_compacts() {
    let mut buf = LineBuffer::new();
    let data = b"hello\nworld\n";
    buf.append_received(data);

    let r1 = buf.next_line_range().expect("first line");
    assert_eq!(buf.line_slice(r1.0, r1.1), b"hello");
    let r2 = buf.next_line_range().expect("second line");
    assert_eq!(buf.line_slice(r2.0, r2.1), b"world");

    assert!(buf.next_line_range().is_none());
    buf.compact_if_needed();
    assert_eq!(buf.offset, 0);
    assert!(!buf.has_pending());
}

#[test]
fn token_pool_allocates_and_releases() {
    let start = 1;
    let end = 4;
    let mut pool = TokenPool::new(start, end).expect("token pool");

    let t1 = pool.allocate().expect("t1");
    let t2 = pool.allocate().expect("t2");
    let t3 = pool.allocate().expect("t3");
    assert_ne!(t1, t2);
    assert_ne!(t2, t3);
    assert_ne!(t1, t3);

    assert!(pool.allocate().is_none(), "pool should be exhausted");

    pool.release(t2);
    let t4 = pool.allocate().expect("t4");
    assert_eq!(t2, t4, "released token should be reusable");
}

#[test]
fn pending_queue_dedup_and_fifo() {
    let mut pending = PendingQueue::new();
    let t1 = 1;
    let t2 = 2;

    pending.push(t1);
    pending.push(t2);
    pending.push(t1);

    assert_eq!(pending.peek(), Some(t1));
    assert_eq!(pending.peek(), Some(t1));
    assert_eq!(pending.pop(), Some(t1));
    assert_eq!(pending.pop(), Some(t2));
    assert_eq!(pending.pop(), None);

    pending.push(t1);
    pending.push(t2);
    pending.remove(t1);
    assert_eq!(pending.pop(), Some(t2));
    assert_eq!(pending.pop(), None);
}

#[test]
fn frame_line_rejects_embedded_newline() {
    assert!(frame_line(b"payload with\nnewline").is_none());
    let framed = frame_line(b"clean payload").expect("framed");
    assert_eq!(framed, b"clean payload\n".to_vec());
}

#[test]
fn send_buffer_tracks_pending_bytes() {
    let mut buf = SendBuffer::new();
    assert!(buf.is_empty());
    buf.enqueue(b"abc\n");
    buf.enqueue(b"de\n");
    assert_eq!(buf.pending_bytes(), 7);
    assert!(buf.needs_writable(true));
    buf.mark_sent(5);
    assert_eq!(buf.pending_bytes(), 2);
    buf.mark_sent(2);
    assert!(!buf.needs_writable(true));
    assert!(buf.needs_writable(false));
}
