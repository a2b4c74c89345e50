use mpeg1::bitbuf::RingBitBuffer;
use mpeg1::vlc::{
    MP1V_CODE_BLOCK_PATTERN, MP1V_DCT_COEFF, MP1V_DCT_SIZE_CHROMINANCE, MP1V_DCT_SIZE_LUMINANCE,
    MP1V_MACROBLOCK_ADDRESS_INCREMENT, MP1V_MACROBLOCK_TYPE_INTRA,
    MP1V_MACROBLOCK_TYPE_PREDICTIVE, MP1V_VIDEO_MOTION,
};

/// A buffer that holds the bits of `code`, then `fill` to the end of the
/// byte, then one byte more of `fill`.
fn ring_with(code: &str, fill: bool) -> RingBitBuffer {
    let mut bytes: Vec<u8> = Vec::new();
    let mut current = 0u8;
    let mut used = 0;
    for c in code.chars() {
        current = (current << 1) | (if c == '1' { 1 } else { 0 });
        used += 1;
        if used == 8 {
            bytes.push(current);
            current = 0;
            used = 0;
        }
    }
    while used != 0 {
        current = (current << 1) | (if fill { 1 } else { 0 });
        used += 1;
        if used == 8 {
            bytes.push(current);
            used = 0;
        }
    }
    bytes.push(if fill { 0xff } else { 0x00 });
    let mut ring = RingBitBuffer::with_capacity(16);
    assert_eq!(ring.push(&bytes), bytes.len());
    ring
}

fn decodes_i16(table: &[(i16, i16)], codes: &[(&str, i16)]) {
    for (code, symbol) in codes.iter() {
        for fill in [false, true] {
            let mut ring = ring_with(code, fill);
            let before = ring.len();
            assert_eq!(ring.read_vlc(table), Some(*symbol), "code {}", code);
            assert_eq!(before - ring.len(), code.len(), "code {}", code);
        }
    }
    let leaves = table.iter().filter(|e| e.0 == 0).count();
    assert_eq!(leaves, codes.len());
}

fn decodes_u16(table: &[(i16, u16)], codes: &[(&str, u16)]) {
    for (code, symbol) in codes.iter() {
        for fill in [false, true] {
            let mut ring = ring_with(code, fill);
            let before = ring.len();
            assert_eq!(ring.read_vlc_u16(table), Some(*symbol), "code {}", code);
            assert_eq!(before - ring.len(), code.len(), "code {}", code);
        }
    }
    let leaves = table.iter().filter(|e| e.0 == 0).count();
    assert_eq!(leaves, codes.len());
}

#[test]
fn address_increment_decodes_its_own_codes() {
    let codes: [(&str, i16); 35] = [
        ("1", 1),
        ("011", 2),
        ("010", 3),
        ("0011", 4),
        ("0010", 5),
        ("00011", 6),
        ("00010", 7),
        ("0000111", 8),
        ("0000110", 9),
        ("00001011", 10),
        ("00001010", 11),
        ("00001001", 12),
        ("00001000", 13),
        ("00000111", 14),
        ("00000110", 15),
        ("0000010111", 16),
        ("0000010110", 17),
        ("0000010101", 18),
        ("0000010100", 19),
        ("0000010011", 20),
        ("0000010010", 21),
        ("00000100011", 22),
        ("00000100010", 23),
        ("00000100001", 24),
        ("00000100000", 25),
        ("00000011111", 26),
        ("00000011110", 27),
        ("00000011101", 28),
        ("00000011100", 29),
        ("00000011011", 30),
        ("00000011010", 31),
        ("00000011001", 32),
        ("00000011000", 33),
        ("00000001111", 34),
        ("00000001000", 35),
    ];
    decodes_i16(&MP1V_MACROBLOCK_ADDRESS_INCREMENT, &codes);
}

#[test]
fn macroblock_type_intra_decodes_its_own_codes() {
    let codes: [(&str, i16); 2] = [
        ("1", 1),
        ("01", 17),
    ];
    decodes_i16(&MP1V_MACROBLOCK_TYPE_INTRA, &codes);
}

#[test]
fn macroblock_type_predictive_decodes_its_own_codes() {
    let codes: [(&str, i16); 7] = [
        ("1", 10),
        ("01", 2),
        ("001", 8),
        ("00011", 1),
        ("00010", 26),
        ("00001", 18),
        ("000001", 17),
    ];
    decodes_i16(&MP1V_MACROBLOCK_TYPE_PREDICTIVE, &codes);
}

#[test]
fn code_block_pattern_decodes_its_own_codes() {
    let codes: [(&str, i16); 63] = [
        ("111", 60),
        ("1101", 4),
        ("1100", 8),
        ("1011", 16),
        ("1010", 32),
        ("10011", 12),
        ("10010", 48),
        ("10001", 20),
        ("10000", 40),
        ("01111", 28),
        ("01110", 44),
        ("01101", 52),
        ("01100", 56),
        ("01011", 1),
        ("01010", 61),
        ("01001", 2),
        ("01000", 62),
        ("001111", 24),
        ("001110", 36),
        ("001101", 3),
        ("001100", 63),
        ("0010111", 5),
        ("0010110", 9),
        ("0010101", 17),
        ("0010100", 33),
        ("0010011", 6),
        ("0010010", 10),
        ("0010001", 18),
        ("0010000", 34),
        ("00011111", 7),
        ("00011110", 11),
        ("00011101", 19),
        ("00011100", 35),
        ("00011011", 13),
        ("00011010", 49),
        ("00011001", 21),
        ("00011000", 41),
        ("00010111", 14),
        ("00010110", 50),
        ("00010101", 22),
        ("00010100", 42),
        ("00010011", 15),
        ("00010010", 51),
        ("00010001", 23),
        ("00010000", 43),
        ("00001111", 25),
        ("00001110", 37),
        ("00001101", 26),
        ("00001100", 38),
        ("00001011", 29),
        ("00001010", 45),
        ("00001001", 53),
        ("00001000", 57),
        ("00000111", 30),
        ("00000110", 46),
        ("00000101", 54),
        ("00000100", 58),
        ("000000111", 31),
        ("000000110", 47),
        ("000000101", 55),
        ("000000100", 59),
        ("000000011", 27),
        ("000000010", 39),
    ];
    decodes_i16(&MP1V_CODE_BLOCK_PATTERN, &codes);
}

#[test]
fn video_motion_decodes_its_own_codes() {
    let codes: [(&str, i16); 33] = [
        ("1", 0),
        ("010", 1),
        ("011", -1),
        ("0010", 2),
        ("0011", -2),
        ("00010", 3),
        ("00011", -3),
        ("0000110", 4),
        ("0000111", -4),
        ("00001010", 5),
        ("00001011", -5),
        ("00001000", 6),
        ("00001001", -6),
        ("00000110", 7),
        ("00000111", -7),
        ("0000010110", 8),
        ("0000010111", -8),
        ("0000010100", 9),
        ("0000010101", -9),
        ("0000010010", 10),
        ("0000010011", -10),
        ("00000100010", 11),
        ("00000100011", -11),
        ("00000100000", 12),
        ("00000100001", -12),
        ("00000011110", 13),
        ("00000011111", -13),
        ("00000011100", 14),
        ("00000011101", -14),
        ("00000011010", 15),
        ("00000011011", -15),
        ("00000011000", 16),
        ("00000011001", -16),
    ];
    decodes_i16(&MP1V_VIDEO_MOTION, &codes);
}

#[test]
fn dct_size_luminance_decodes_its_own_codes() {
    let codes: [(&str, i16); 9] = [
        ("100", 0),
        ("00", 1),
        ("01", 2),
        ("101", 3),
        ("110", 4),
        ("1110", 5),
        ("11110", 6),
        ("111110", 7),
        ("1111110", 8),
    ];
    decodes_i16(&MP1V_DCT_SIZE_LUMINANCE, &codes);
}

#[test]
fn dct_size_chrominance_decodes_its_own_codes() {
    let codes: [(&str, i16); 9] = [
        ("00", 0),
        ("01", 1),
        ("10", 2),
        ("110", 3),
        ("1110", 4),
        ("11110", 5),
        ("111110", 6),
        ("1111110", 7),
        ("11111110", 8),
    ];
    decodes_i16(&MP1V_DCT_SIZE_CHROMINANCE, &codes);
}

#[test]
fn dct_coeff_decodes_its_own_codes() {
    let codes: [(&str, u16); 112] = [
        ("1", 0x0001),
        ("011", 0x0101),
        ("0100", 0x0002),
        ("0101", 0x0201),
        ("00101", 0x0003),
        ("00111", 0x0301),
        ("00110", 0x0401),
        ("000110", 0x0102),
        ("000111", 0x0501),
        ("000101", 0x0601),
        ("000100", 0x0701),
        ("0000110", 0x0004),
        ("0000100", 0x0202),
        ("0000111", 0x0801),
        ("0000101", 0x0901),
        ("00100110", 0x0005),
        ("00100001", 0x0006),
        ("00100101", 0x0103),
        ("00100100", 0x0302),
        ("00100111", 0x0a01),
        ("00100011", 0x0b01),
        ("00100010", 0x0c01),
        ("00100000", 0x0d01),
        ("0000001010", 0x0007),
        ("0000001100", 0x0104),
        ("0000001011", 0x0203),
        ("0000001111", 0x0402),
        ("0000001001", 0x0502),
        ("0000001110", 0x0e01),
        ("0000001101", 0x0f01),
        ("0000001000", 0x1001),
        ("000000011101", 0x0008),
        ("000000011000", 0x0009),
        ("000000010011", 0x000a),
        ("000000010000", 0x000b),
        ("000000011011", 0x0105),
        ("000000010100", 0x0204),
        ("000000011100", 0x0303),
        ("000000010010", 0x0403),
        ("000000011110", 0x0602),
        ("000000010101", 0x0702),
        ("000000010001", 0x0802),
        ("000000011111", 0x1101),
        ("000000011010", 0x1201),
        ("000000011001", 0x1301),
        ("000000010111", 0x1401),
        ("000000010110", 0x1501),
        ("0000000011010", 0x000c),
        ("0000000011001", 0x000d),
        ("0000000011000", 0x000e),
        ("0000000010111", 0x000f),
        ("0000000010110", 0x0106),
        ("0000000010101", 0x0107),
        ("0000000010100", 0x0205),
        ("0000000010011", 0x0304),
        ("0000000010010", 0x0503),
        ("0000000010001", 0x0902),
        ("0000000010000", 0x0a02),
        ("0000000011111", 0x1601),
        ("0000000011110", 0x1701),
        ("0000000011101", 0x1801),
        ("0000000011100", 0x1901),
        ("0000000011011", 0x1a01),
        ("00000000011111", 0x0010),
        ("00000000011110", 0x0011),
        ("00000000011101", 0x0012),
        ("00000000011100", 0x0013),
        ("00000000011011", 0x0014),
        ("00000000011010", 0x0015),
        ("00000000011001", 0x0016),
        ("00000000011000", 0x0017),
        ("00000000010111", 0x0018),
        ("00000000010110", 0x0019),
        ("00000000010101", 0x001a),
        ("00000000010100", 0x001b),
        ("00000000010011", 0x001c),
        ("00000000010010", 0x001d),
        ("00000000010001", 0x001e),
        ("00000000010000", 0x001f),
        ("000000000011000", 0x0020),
        ("000000000010111", 0x0021),
        ("000000000010110", 0x0022),
        ("000000000010101", 0x0023),
        ("000000000010100", 0x0024),
        ("000000000010011", 0x0025),
        ("000000000010010", 0x0026),
        ("000000000010001", 0x0027),
        ("000000000010000", 0x0028),
        ("000000000011111", 0x0108),
        ("000000000011110", 0x0109),
        ("000000000011101", 0x010a),
        ("000000000011100", 0x010b),
        ("000000000011011", 0x010c),
        ("000000000011010", 0x010d),
        ("000000000011001", 0x010e),
        ("0000000000010011", 0x010f),
        ("0000000000010010", 0x0110),
        ("0000000000010001", 0x0111),
        ("0000000000010000", 0x0112),
        ("0000000000010100", 0x0603),
        ("0000000000011010", 0x0b02),
        ("0000000000011001", 0x0c02),
        ("0000000000011000", 0x0d02),
        ("0000000000010111", 0x0e02),
        ("0000000000010110", 0x0f02),
        ("0000000000010101", 0x1002),
        ("0000000000011111", 0x1b01),
        ("0000000000011110", 0x1c01),
        ("0000000000011101", 0x1d01),
        ("0000000000011100", 0x1e01),
        ("0000000000011011", 0x1f01),
        ("000001", 0xffff),
    ];
    decodes_u16(&MP1V_DCT_COEFF, &codes);
}

#[test]
fn invalid_codes_are_refused() {
    let mut ring = ring_with("00000000000", false);
    assert_eq!(ring.read_vlc(&MP1V_MACROBLOCK_ADDRESS_INCREMENT), None);
    let mut ring = ring_with("00", false);
    assert_eq!(ring.read_vlc(&MP1V_MACROBLOCK_TYPE_INTRA), None);
    assert_eq!(ring.len(), 14);
    let mut ring = ring_with("11111111", true);
    assert_eq!(ring.read_vlc(&MP1V_DCT_SIZE_LUMINANCE), None);
    let mut ring = ring_with("0000000000000000", false);
    assert_eq!(ring.read_vlc_u16(&MP1V_DCT_COEFF), None);
}

#[test]
fn missing_bits_count_as_zero() {
    let mut ring = RingBitBuffer::with_capacity(16);
    // luminance size 1 is 00
    assert_eq!(ring.read_vlc(&MP1V_DCT_SIZE_LUMINANCE), Some(1));
    assert_eq!(ring.len(), 0);
    ring.push(&[0x80]);
    ring.read(7);
    // one bit of 0 is left; chrominance 00 is size 0
    assert_eq!(ring.read_vlc(&MP1V_DCT_SIZE_CHROMINANCE), Some(0));
    assert_eq!(ring.len(), 0);
}

#[test]
fn tables_that_lead_nowhere_are_refused() {
    let mut ring = ring_with("1010", false);
    let empty: [(i16, i16); 0] = [];
    assert_eq!(ring.read_vlc(&empty), None);
    assert_eq!(ring.len(), 16);
    // a pointer that does not lead forward
    let back: [(i16, i16); 4] = [(2, 0), (2, 0), (0, 7), (0, 0)];
    let mut ring = ring_with("10", false);
    assert_eq!(ring.read_vlc(&back), Some(7));
    let looped: [(i16, i16); 4] = [(2, 0), (2, 0), (2, 0), (0, 9)];
    let mut ring = ring_with("10", false);
    assert_eq!(ring.read_vlc(&looped), None);
    // a pointer beyond the table
    let beyond: [(i16, i16); 2] = [(4, 0), (0, 3)];
    let mut ring = ring_with("0", false);
    assert_eq!(ring.read_vlc(&beyond), None);
    let mut ring = ring_with("1", true);
    assert_eq!(ring.read_vlc(&beyond), Some(3));
}
