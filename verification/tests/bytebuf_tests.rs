use mpeg1::bytebuf::ByteBuffer;

#[test]
fn byte_buffer_starts_empty() {
    let b = ByteBuffer::new(8);
    assert_eq!(b.len(), 0);
    assert_eq!(b.capacity(), 8);
    assert_eq!(b.remain(), 8);
    assert_eq!(b.get(0), &[] as &[u8]);
}

#[test]
fn byte_buffer_push_and_get() {
    let mut b = ByteBuffer::new(8);
    b.push(&[1, 2, 3]);
    b.push(&[4, 5]);
    assert_eq!(b.len(), 5);
    assert_eq!(b.remain(), 3);
    assert_eq!(b.get(0), &[1, 2, 3, 4, 5]);
    assert_eq!(b.get(3), &[4, 5]);
    assert_eq!(b.get(5), &[] as &[u8]);
}

#[test]
fn byte_buffer_grows_when_too_small() {
    let mut b = ByteBuffer::new(4);
    b.push(&[1, 2, 3]);
    b.push(&[4, 5, 6, 7]);
    assert_eq!(b.len(), 7);
    assert_eq!(b.capacity(), 7);
    assert_eq!(b.remain(), 0);
    assert_eq!(b.get(0), &[1, 2, 3, 4, 5, 6, 7]);
}

#[test]
fn byte_buffer_rewind_drops_a_prefix() {
    let mut b = ByteBuffer::new(8);
    b.push(&[1, 2, 3, 4, 5]);
    b.rewind(2);
    assert_eq!(b.len(), 3);
    assert_eq!(b.capacity(), 8);
    assert_eq!(b.get(0), &[3, 4, 5]);
    b.push(&[6]);
    assert_eq!(b.get(0), &[3, 4, 5, 6]);
}

#[test]
fn byte_buffer_rewind_of_everything_does_nothing() {
    let mut b = ByteBuffer::new(8);
    b.push(&[1, 2, 3]);
    b.rewind(3);
    assert_eq!(b.get(0), &[1, 2, 3]);
    b.rewind(9);
    assert_eq!(b.get(0), &[1, 2, 3]);
    b.rewind(0);
    assert_eq!(b.get(0), &[1, 2, 3]);
}
