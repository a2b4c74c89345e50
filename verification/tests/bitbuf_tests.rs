use mpeg1::bitbuf::{BitBuffer, RingBitBuffer};

#[test]
fn ring_starts_empty() {
    let r = RingBitBuffer::with_capacity(16);
    assert!(r.empty());
    assert!(!r.full());
    assert_eq!(r.len(), 0);
    assert_eq!(r.room(), 15);
    assert!(r.has(0));
    assert!(!r.has(1));
}

#[test]
fn ring_push_then_read_reproduces_bytes() {
    let mut r = RingBitBuffer::with_capacity(16);
    let data = [0x12u8, 0x34, 0x56, 0x78, 0x9a];
    assert_eq!(r.push(&data), 5);
    assert_eq!(r.len(), 40);
    for b in data.iter() {
        assert_eq!(r.read(8), *b as u32);
    }
    assert!(r.empty());
}

#[test]
fn ring_read_is_msb_first() {
    let mut r = RingBitBuffer::with_capacity(16);
    r.push(&[0b1010_0101, 0b1100_0011]);
    assert_eq!(r.read(1), 1);
    assert_eq!(r.read(2), 0b01);
    assert_eq!(r.read(5), 0b00101);
    assert_eq!(r.read(3), 0b110);
    assert_eq!(r.read(5), 0b00011);
    assert_eq!(r.len(), 0);
}

#[test]
fn ring_has_is_false_exactly_at_exhaustion() {
    let mut r = RingBitBuffer::with_capacity(8);
    r.push(&[0xff, 0x00]);
    assert!(r.has(16));
    assert!(!r.has(17));
    r.read(15);
    assert!(r.has(1));
    assert!(!r.has(2));
    r.read(1);
    assert!(!r.has(1));
    assert!(r.has(0));
}

#[test]
fn ring_read_without_bits_returns_zero_and_stays() {
    let mut r = RingBitBuffer::with_capacity(8);
    r.push(&[0xff]);
    assert_eq!(r.read(9), 0);
    assert_eq!(r.len(), 8);
    assert_eq!(r.read(8), 0xff);
}

#[test]
fn ring_read_32_bits_across_bytes() {
    let mut r = RingBitBuffer::with_capacity(16);
    r.push(&[0xde, 0xad, 0xbe, 0xef, 0x01]);
    r.read(4);
    assert_eq!(r.read(32), 0xeadbeef0);
    assert_eq!(r.read(4), 1);
}

#[test]
fn ring_read_back_read_round_trip() {
    let mut r = RingBitBuffer::with_capacity(16);
    r.push(&[0x5a, 0xc3, 0x7e]);
    r.read(3);
    let a = r.read(13);
    assert_eq!(r.back(13), 13);
    let b = r.read(13);
    assert_eq!(a, b);
    assert_eq!(a, 0b1_1010_1100_0011 & 0x1fff);
}

#[test]
fn ring_back_refuses_to_cross_write_cursor() {
    let mut r = RingBitBuffer::with_capacity(4);
    r.push(&[1, 2, 3]);
    assert!(r.full());
    assert_eq!(r.back(1), 0);
    assert_eq!(r.len(), 24);
    r.read(16);
    assert_eq!(r.back(17), 0);
    assert_eq!(r.back(16), 16);
    assert_eq!(r.len(), 24);
}

#[test]
fn ring_push_is_short_when_full_and_wraps() {
    let mut r = RingBitBuffer::with_capacity(8);
    assert_eq!(r.push(&[1, 2, 3, 4, 5, 6, 7, 8, 9]), 7);
    assert!(r.full());
    assert_eq!(r.push(&[10]), 0);
    assert_eq!(r.read(8), 1);
    assert_eq!(r.read(8), 2);
    assert_eq!(r.read(8), 3);
    assert_eq!(r.push(&[10, 11, 12, 13]), 3);
    for expected in [4u32, 5, 6, 7, 10, 11, 12] {
        assert_eq!(r.read(8), expected);
    }
    assert!(r.empty());
}

#[test]
fn ring_skip_advances_or_does_nothing() {
    let mut r = RingBitBuffer::with_capacity(8);
    r.push(&[0xf0, 0x0f]);
    assert_eq!(r.skip(4), 4);
    assert_eq!(r.skip(13), 0);
    assert_eq!(r.read(8), 0x00);
    assert_eq!(r.skip(4), 4);
    assert_eq!(r.len(), 0);
}

#[test]
fn ring_default_capacity() {
    let mut r = RingBitBuffer::new();
    assert_eq!(r.room(), 4 * 1024 * 1024 - 1);
    assert_eq!(r.push(&[7; 100]), 100);
    assert_eq!(r.len(), 800);
}

#[test]
fn find_start_code_single_occurrence() {
    let mut r = RingBitBuffer::with_capacity(64);
    let mut data = vec![0x11u8; 5];
    data.extend_from_slice(&[0x00, 0x00, 0x01, 0xb3]);
    data.extend_from_slice(&[0xaa, 0xbb]);
    r.push(&data);
    assert!(r.find_start_code(0x000001b3));
    // the cursor stands four bytes behind offset 5
    assert_eq!(r.len(), 16);
    assert_eq!(r.read(8), 0xaa);
}

#[test]
fn find_start_code_absent_leaves_cursor() {
    let mut r = RingBitBuffer::with_capacity(64);
    r.push(&[0x00, 0x00, 0x01, 0xb2, 0x00, 0x00]);
    r.read(3);
    assert!(!r.find_start_code(0x000001b3));
    assert_eq!(r.len(), 45);
}

#[test]
fn find_start_code_aligns_first() {
    let mut r = RingBitBuffer::with_capacity(64);
    r.push(&[0x00, 0x00, 0x00, 0x01, 0x00, 0x55]);
    r.read(1);
    assert!(r.find_start_code(0x00000100));
    assert_eq!(r.read(8), 0x55);
}

#[test]
fn find_start_code_across_the_wrap() {
    let mut r = RingBitBuffer::with_capacity(8);
    r.push(&[9, 9, 9, 9, 9]);
    for _ in 0..5 {
        r.read(8);
    }
    assert_eq!(r.push(&[0x00, 0x00, 0x01, 0x00, 0x42]), 5);
    assert!(r.find_start_code(0x00000100));
    assert_eq!(r.read(8), 0x42);
}

#[test]
fn include_two_code_counts_occurrences() {
    let mut r = RingBitBuffer::with_capacity(64);
    r.push(&[0x00, 0x00, 0x01, 0x00, 0x12]);
    assert!(!r.include_two_code(0x00000100));
    r.push(&[0x00, 0x00, 0x01, 0x00]);
    assert!(r.include_two_code(0x00000100));
    // the cursor did not move
    assert_eq!(r.len(), 72);
}

#[test]
fn next_is_start_and_find_start() {
    let mut r = RingBitBuffer::with_capacity(64);
    r.push(&[0x80, 0x00, 0x00, 0x01, 0xb5, 0x00, 0x00, 0x01, 0x01]);
    assert!(!r.next_is_start());
    r.read(3);
    assert!(r.next_is_start());
    assert!(r.find_start());
    assert_eq!(r.read(8), 0xb5);
    assert!(r.next_is_start());
    assert!(r.find_start());
    assert_eq!(r.read(8), 0x01);
    assert!(!r.find_start());
}

#[test]
fn cursor_reads_and_skips() {
    let data = [0x47u8, 0x40, 0x11, 0x10];
    let mut c = BitBuffer::new(&data);
    assert_eq!(c.len(), 4);
    assert_eq!(c.pos(), 0);
    assert_eq!(c.read(8), Some(0x47));
    assert_eq!(c.skip(1), 1);
    assert_eq!(c.read(1), Some(1));
    assert_eq!(c.skip(1), 1);
    assert_eq!(c.read(13), Some(0x11));
    assert_eq!(c.pos(), 24);
    assert!(c.has(8));
    assert!(!c.has(9));
    assert_eq!(c.read(9), None);
    assert_eq!(c.skip(9), 0);
    assert_eq!(c.pos(), 24);
    assert_eq!(c.read(8), Some(0x10));
    assert_eq!(c.read(0), Some(0));
}

#[test]
fn cursor_back() {
    let data = [0xabu8, 0xcd];
    let mut c = BitBuffer::new(&data);
    assert_eq!(c.read(12), Some(0xabc));
    assert_eq!(c.back(13), 0);
    assert_eq!(c.back(8), 8);
    assert_eq!(c.read(12), Some(0xbcd));
}
