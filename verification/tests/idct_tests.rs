use mpeg1::block::{
    decode_coeff, decode_coeffs, decode_dc, dequantize_level, pow2, RunEnd,
    MP1V_INTRA_QUANT_MATRIX, MP1V_NON_INTRA_QUANT_MATRIX, MP1V_PREMULTIPLIER_MATRIX, MP1V_ZIG_ZAG,
};
use mpeg1::bitbuf::RingBitBuffer;
use mpeg1::frame::{copy_block, write_block};
use mpeg1::idct::{div256, idct};
use mpeg1::vlc::{MP1V_DCT_SIZE_CHROMINANCE, MP1V_DCT_SIZE_LUMINANCE};

fn ring_of_bits(bits: &str) -> RingBitBuffer {
    let mut bytes: Vec<u8> = Vec::new();
    let mut current = 0u8;
    let mut used = 0;
    for c in bits.chars() {
        if c != '0' && c != '1' {
            continue;
        }
        current = (current << 1) | (if c == '1' { 1 } else { 0 });
        used += 1;
        if used == 8 {
            bytes.push(current);
            current = 0;
            used = 0;
        }
    }
    if used != 0 {
        bytes.push(current << (8 - used));
    }
    let mut ring = RingBitBuffer::with_capacity(64);
    assert_eq!(ring.push(&bytes), bytes.len());
    ring
}

#[test]
fn idct_of_dc_8_is_flat_and_equals_the_shortcut() {
    let mut block = [0i64; 64];
    block[0] = 8;
    let out = idct(block);
    assert_eq!(out, [div256(8); 64]);
    assert_eq!(out, [0i64; 64]);
}

#[test]
fn idct_of_any_dc_equals_the_shortcut() {
    for dc in [-70000i64, -32768, -129, -128, -1, 0, 1, 127, 128, 383, 384, 2048, 32768, 65535] {
        let mut block = [0i64; 64];
        block[0] = dc;
        assert_eq!(idct(block), [div256(dc); 64], "dc {}", dc);
    }
    let mut block = [0i64; 64];
    block[0] = 2048;
    assert_eq!(idct(block), [8i64; 64]);
}

#[test]
fn idct_of_dc_and_one_coefficient() {
    let mut block = [0i64; 64];
    block[0] = 32768;
    block[1] = 660;
    let row = [131i64, 130, 129, 129, 127, 127, 126, 125];
    let out = idct(block);
    for r in 0..8 {
        assert_eq!(&out[r * 8..r * 8 + 8], &row[..]);
    }
}

#[test]
fn idct_of_a_full_block() {
    let block: [i64; 64] = [
        551, -954, 1038, -532, 1257, 828, 1860, 1446, 1030, 670, 1777, 171, -1882, 1442, -93,
        1178, 1863, -980, 658, -1788, 1690, -1358, -1537, -478, -79, 1557, -991, -441, 227,
        -1583, 350, -979, -1947, 994, -1113, -329, -856, -1255, 1753, 1553, 1136, -405, -1347,
        1120, 1265, -1706, -1432, 531, 529, -178, -1482, -1459, -1993, 1982, 1569, -1979, -1143,
        1168, -1118, 1932, -1321, 1573, -1319, -816,
    ];
    let expected: [i64; 64] = [
        -1, 2, 47, 2, 11, 11, -4, -8, 85, -76, 108, -162, 135, -143, 59, 124, 1, 3, -82, 185,
        -216, 130, 92, -138, 60, -154, 230, -273, 269, -138, -13, 142, 12, -49, -38, -22, -90, 6,
        16, -194, 1, -50, 106, 73, -93, 128, -127, 174, 18, 61, -145, -6, 157, -109, 70, -50, -4,
        -81, 84, -15, -25, 16, -46, 73,
    ];
    assert_eq!(idct(block), expected);
}

#[test]
fn div256_rounds_to_nearest() {
    assert_eq!(div256(0), 0);
    assert_eq!(div256(127), 0);
    assert_eq!(div256(128), 1);
    assert_eq!(div256(383), 1);
    assert_eq!(div256(384), 2);
    assert_eq!(div256(-128), 0);
    assert_eq!(div256(-129), -1);
    assert_eq!(div256(-384), -1);
    assert_eq!(div256(-385), -2);
}

#[test]
fn dequantize_intra_levels() {
    // 2 * 1 * 8 * 16 / 16 = 16, made odd towards 0
    assert_eq!(dequantize_level(1, true, 8, 16), 15);
    assert_eq!(dequantize_level(-1, true, 8, 16), -15);
    // 2 * 3 * 5 * 27 / 16 = 50.6 -> 50 -> 49
    assert_eq!(dequantize_level(3, true, 5, 27), 49);
    // -810 / 16 = -50.6 -> -51, which is odd
    assert_eq!(dequantize_level(-3, true, 5, 27), -51);
    // a level of 0 becomes 1
    assert_eq!(dequantize_level(0, true, 8, 16), 1);
}

#[test]
fn dequantize_other_levels() {
    // (2 * 1 + 1) * 8 * 16 / 16 = 24 -> 23
    assert_eq!(dequantize_level(1, false, 8, 16), 23);
    assert_eq!(dequantize_level(-1, false, 8, 16), -23);
    // (2 * 2 + 1) * 3 * 16 / 16 = 15
    assert_eq!(dequantize_level(2, false, 3, 16), 15);
    // (0 + 1) * 8 * 16 / 16 = 8 -> 7
    assert_eq!(dequantize_level(0, false, 8, 16), 7);
}

#[test]
fn dequantize_cuts_to_the_range() {
    assert_eq!(dequantize_level(255, true, 31, 255), 2047);
    assert_eq!(dequantize_level(-256, true, 31, 255), -2048);
    assert_eq!(dequantize_level(255, false, 31, 83), 2047);
    assert_eq!(dequantize_level(-255, false, 31, 83), -2048);
    // 2 * 127 * 2 * 64 / 16 = 2032 -> 2031
    assert_eq!(dequantize_level(127, true, 2, 64), 2031);
}

#[test]
fn pow2_small() {
    assert_eq!(pow2(0), 1);
    assert_eq!(pow2(1), 2);
    assert_eq!(pow2(5), 32);
    assert_eq!(pow2(8), 256);
}

#[test]
fn dc_of_size_zero_is_the_predictor() {
    let mut ring = ring_of_bits("100 1");
    assert_eq!(decode_dc(&mut ring, &MP1V_DCT_SIZE_LUMINANCE, 128), Some(128));
    assert_eq!(ring.len(), 5);
    let mut ring = ring_of_bits("00 1");
    assert_eq!(decode_dc(&mut ring, &MP1V_DCT_SIZE_CHROMINANCE, -5), Some(-5));
}

#[test]
fn dc_differences() {
    // size 3 (101), bits 111: +7
    let mut ring = ring_of_bits("101 111");
    assert_eq!(decode_dc(&mut ring, &MP1V_DCT_SIZE_LUMINANCE, 128), Some(135));
    // size 3, bits 100: +4
    let mut ring = ring_of_bits("101 100");
    assert_eq!(decode_dc(&mut ring, &MP1V_DCT_SIZE_LUMINANCE, 128), Some(132));
    // size 3, bits 011: -4
    let mut ring = ring_of_bits("101 011");
    assert_eq!(decode_dc(&mut ring, &MP1V_DCT_SIZE_LUMINANCE, 128), Some(124));
    // size 3, bits 000: -7
    let mut ring = ring_of_bits("101 000");
    assert_eq!(decode_dc(&mut ring, &MP1V_DCT_SIZE_LUMINANCE, 128), Some(121));
    // size 1 (00), bit 0: -1; bit 1: +1
    let mut ring = ring_of_bits("00 0 00 1");
    assert_eq!(decode_dc(&mut ring, &MP1V_DCT_SIZE_LUMINANCE, 0), Some(-1));
    assert_eq!(decode_dc(&mut ring, &MP1V_DCT_SIZE_LUMINANCE, 0), Some(1));
    // chrominance size 8 (11111110), bits 00000000: -255
    let mut ring = ring_of_bits("11111110 00000000");
    assert_eq!(decode_dc(&mut ring, &MP1V_DCT_SIZE_CHROMINANCE, 128), Some(-127));
}

#[test]
fn dc_bad_code() {
    let mut ring = ring_of_bits("11111111");
    assert_eq!(decode_dc(&mut ring, &MP1V_DCT_SIZE_LUMINANCE, 128), None);
}

#[test]
fn coefficient_steps() {
    // first coefficient of a block that is not intra: 1s
    let mut ring = ring_of_bits("1 0");
    let weights = MP1V_NON_INTRA_QUANT_MATRIX;
    assert_eq!(decode_coeff(&mut ring, 0, false, 8, &weights), (None, 1, 0, 23 * 32));
    // later: 11s
    let mut ring = ring_of_bits("11 1");
    assert_eq!(decode_coeff(&mut ring, 1, false, 8, &weights), (None, 2, 1, -23 * 44));
    // end of block
    let mut ring = ring_of_bits("10");
    assert_eq!(decode_coeff(&mut ring, 1, false, 8, &weights), (Some(RunEnd::EndOfBlock), 1, 0, 0));
    // run 1 level 1 is 011s
    let mut ring = ring_of_bits("011 0");
    let intra = MP1V_INTRA_QUANT_MATRIX;
    assert_eq!(
        decode_coeff(&mut ring, 1, true, 8, &intra),
        (None, 3, 8, 15 * MP1V_PREMULTIPLIER_MATRIX[8] as i64)
    );
    assert_eq!(MP1V_ZIG_ZAG[2], 8);
}

#[test]
fn coefficient_escapes() {
    let intra = MP1V_INTRA_QUANT_MATRIX;
    // escape, run 5, level 3
    let mut ring = ring_of_bits("000001 000101 00000011");
    let at = MP1V_ZIG_ZAG[6];
    assert_eq!(
        decode_coeff(&mut ring, 1, true, 2, &intra),
        (
            None,
            7,
            at,
            dequantize_level(3, true, 2, intra[at]) * MP1V_PREMULTIPLIER_MATRIX[at] as i64
        )
    );
    // escape, run 0, level -3
    let mut ring = ring_of_bits("000001 000000 11111101");
    let at = MP1V_ZIG_ZAG[1];
    assert_eq!(
        decode_coeff(&mut ring, 1, true, 2, &intra),
        (
            None,
            2,
            at,
            dequantize_level(-3, true, 2, intra[at]) * MP1V_PREMULTIPLIER_MATRIX[at] as i64
        )
    );
    // escape, run 0, level 200: 0 announces eight more bits
    let mut ring = ring_of_bits("000001 000000 00000000 11001000");
    assert_eq!(
        decode_coeff(&mut ring, 1, true, 2, &intra),
        (
            None,
            2,
            at,
            dequantize_level(200, true, 2, intra[at]) * MP1V_PREMULTIPLIER_MATRIX[at] as i64
        )
    );
    assert_eq!(ring.len(), 4);
    // escape, run 0, level -200: 128 announces eight more bits
    let mut ring = ring_of_bits("000001 000000 10000000 00111000");
    assert_eq!(
        decode_coeff(&mut ring, 1, true, 2, &intra),
        (
            None,
            2,
            at,
            dequantize_level(-200, true, 2, intra[at]) * MP1V_PREMULTIPLIER_MATRIX[at] as i64
        )
    );
}

#[test]
fn coefficient_run_beyond_the_block() {
    let intra = MP1V_INTRA_QUANT_MATRIX;
    let mut ring = ring_of_bits("000001 111111 00000011");
    assert_eq!(decode_coeff(&mut ring, 1, true, 2, &intra), (Some(RunEnd::Overrun), 1, 0, 0));
    let mut ring = ring_of_bits("000001 111110 00000011");
    assert_eq!(decode_coeff(&mut ring, 1, true, 2, &intra).0, None);
}

#[test]
fn coefficient_bad_code() {
    let intra = MP1V_INTRA_QUANT_MATRIX;
    let mut ring = ring_of_bits("0000000000000000");
    assert_eq!(decode_coeff(&mut ring, 1, true, 2, &intra), (Some(RunEnd::BadCode), 1, 0, 0));
}

#[test]
fn coefficients_of_a_block() {
    let intra = MP1V_INTRA_QUANT_MATRIX;
    let mut start = [0i64; 64];
    start[0] = 128 * 256;
    // level 1 at place 1, then run 1 level 1, then the end
    let mut ring = ring_of_bits("11 0 011 1 10 111");
    let (end, n, block) = decode_coeffs(&mut ring, 1, start, true, 8, &intra);
    assert_eq!(end, RunEnd::EndOfBlock);
    assert_eq!(n, 4);
    let mut expected = [0i64; 64];
    expected[0] = 32768;
    expected[1] = 15 * 44;
    // the run of 1 passes place 8, the coefficient goes to the place after
    // it in zig-zag order: -(2 * 8 * 19 / 16) = -19, times 42
    expected[16] = -798;
    assert_eq!(block, expected);
    // three bits and four bits of padding are left
    assert_eq!(ring.len(), 7);
}

#[test]
fn coefficients_end_at_once() {
    let intra = MP1V_INTRA_QUANT_MATRIX;
    let mut start = [0i64; 64];
    start[0] = 77;
    let mut ring = ring_of_bits("10");
    let (end, n, block) = decode_coeffs(&mut ring, 1, start, true, 8, &intra);
    assert_eq!((end, n), (RunEnd::EndOfBlock, 1));
    assert_eq!(block, start);
}

#[test]
fn write_block_replaces_or_adds() {
    let mut arena = vec![100u8; 20 * 10];
    let mut vals = [0i64; 64];
    for i in 0..64 {
        vals[i] = (i as i64) * 5 - 20;
    }
    write_block(&mut arena, 22, 20, &vals, false);
    for y in 0..10 {
        for x in 0..20 {
            let inside = y >= 1 && y < 9 && x >= 2 && x < 10;
            let expected = if inside {
                let v = ((y - 1) * 8 + (x - 2)) as i64 * 5 - 20;
                v.clamp(0, 255) as u8
            } else {
                100
            };
            assert_eq!(arena[y * 20 + x], expected);
        }
    }
    let mut arena = vec![100u8; 20 * 10];
    write_block(&mut arena, 22, 20, &vals, true);
    for y in 0..10 {
        for x in 0..20 {
            let inside = y >= 1 && y < 9 && x >= 2 && x < 10;
            let expected = if inside {
                let v = 100 + ((y - 1) * 8 + (x - 2)) as i64 * 5 - 20;
                v.clamp(0, 255) as u8
            } else {
                100
            };
            assert_eq!(arena[y * 20 + x], expected);
        }
    }
}

fn gradient(width: usize, height: usize) -> Vec<u8> {
    (0..width * height).map(|i| ((i % width) * 3 + (i / width) * 7) as u8).collect()
}

#[test]
fn copy_block_whole_pixels() {
    let mut arena = gradient(32, 20);
    arena.extend_from_slice(&vec![0u8; 32 * 20]);
    copy_block(&mut arena, 32 + 3, 640 + 64 + 8, 32, 8, false, false);
    for y in 0..20 {
        for x in 0..32 {
            let inside = y >= 2 && y < 10 && x >= 8 && x < 16;
            let expected =
                if inside { (((x - 8 + 3) * 3 + (y - 2 + 1) * 7) & 0xff) as u8 } else { 0 };
            assert_eq!(arena[640 + y * 32 + x], expected);
        }
    }
    assert_eq!(&arena[..640], &gradient(32, 20)[..]);
}

#[test]
fn copy_block_half_pixels() {
    let source = gradient(32, 20);
    let at = |x: usize, y: usize| source[y * 32 + x] as u32;
    for (odd_h, odd_v) in [(true, false), (false, true), (true, true)] {
        let mut arena = source.clone();
        arena.extend_from_slice(&vec![0u8; 32 * 20]);
        copy_block(&mut arena, 0, 640, 32, 16, odd_h, odd_v);
        for y in 0..16 {
            for x in 0..16 {
                let expected = match (odd_h, odd_v) {
                    (true, false) => (at(x, y) + at(x + 1, y) + 1) >> 1,
                    (false, true) => (at(x, y) + at(x, y + 1) + 1) >> 1,
                    _ => (at(x, y) + at(x + 1, y) + at(x, y + 1) + at(x + 1, y + 1) + 2) >> 2,
                };
                assert_eq!(arena[640 + y * 32 + x] as u32, expected);
            }
        }
    }
}

#[test]
fn copy_block_onto_itself_reads_what_it_wrote() {
    // source one pixel to the left of the target, in one plane
    let mut arena: Vec<u8> = (0..64u8).collect();
    copy_block(&mut arena, 0, 1, 16, 1, false, false);
    assert_eq!(arena[1], 0);
    let mut arena: Vec<u8> = (0..64u8).collect();
    copy_block(&mut arena, 0, 1, 32, 2, false, false);
    // row 0: pixel 1 becomes pixel 0, then pixel 2 becomes the new pixel 1
    assert_eq!(&arena[..4], &[0, 0, 0, 3]);
    assert_eq!(&arena[32..36], &[32, 32, 32, 35]);
}
