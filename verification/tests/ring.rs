use menix::ring::RingBuffer;

#[test]
fn ring_write_then_read_returns_bytes() {
    let mut ring = RingBuffer::new(8);
    assert_eq!(ring.write(&[1, 2, 3]), 3);
    let mut out = [0u8; 8];
    assert_eq!(ring.read(&mut out), 3);
    assert_eq!(&out[..3], &[1, 2, 3]);
    assert!(ring.is_empty());
}
