use ebur128::RollingBuffer;

#[test]
fn push_then_view_is_most_recent_first() {
    let mut buf: RollingBuffer<u64, 5> = RollingBuffer::new(0);
    for v in 1..=5u64 {
        buf.push_front(v);
    }
    assert_eq!(buf.as_view(), &[5, 4, 3, 2, 1]);
    // Reading is idempotent: a second read without pushes sees the same.
    assert_eq!(buf.as_view(), &[5, 4, 3, 2, 1]);
}

#[test]
fn view_keeps_only_last_n() {
    let mut buf: RollingBuffer<u64, 3> = RollingBuffer::new(0);
    for v in 1..=7u64 {
        buf.push_front(v);
    }
    assert_eq!(buf.as_view(), &[7, 6, 5]);
}

#[test]
fn fresh_buffer_is_filled() {
    let buf: RollingBuffer<u64, 4> = RollingBuffer::new(9);
    assert_eq!(buf.as_view(), &[9, 9, 9, 9]);
}

#[test]
fn reset_behaves_like_fresh() {
    let mut buf: RollingBuffer<u64, 4> = RollingBuffer::new(0);
    for v in 1..=6u64 {
        buf.push_front(v);
    }
    buf.reset(0);
    let fresh: RollingBuffer<u64, 4> = RollingBuffer::new(0);
    assert_eq!(buf.as_view(), fresh.as_view());
    buf.push_front(42);
    let mut fresh2: RollingBuffer<u64, 4> = RollingBuffer::new(0);
    fresh2.push_front(42);
    assert_eq!(buf.as_view(), fresh2.as_view());
}

#[test]
fn partial_fill_keeps_fill_values() {
    let mut buf: RollingBuffer<u64, 4> = RollingBuffer::new(0);
    buf.push_front(8);
    buf.push_front(9);
    assert_eq!(buf.as_view(), &[9, 8, 0, 0]);
}
