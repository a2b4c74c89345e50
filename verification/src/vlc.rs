//! Prefix-code tables of MPEG-1 video, and what makes such a table a prefix
//! code.
//!
//! A table is a sequence of pairs of entries. Decoding starts at the first
//! pair; each bit read picks one entry of the current pair. An entry whose
//! first part is 0 is a leaf and holds the symbol in its second part; a
//! positive first part is the index of the next pair; -1 marks a bit string
//! that is no code.
use vstd::prelude::*;
use crate::bitbuf::Ring;

verus! {

/// Macroblock address increment: 1 to 33, 34 for stuffing and 35 for the
/// escape that adds 33.
pub const MP1V_MACROBLOCK_ADDRESS_INCREMENT: [(i16, i16); 80] = [
    (2, 0), (0, 1),  //   0: x
    (4, 0), (6, 0),  //   1: 0x
    (8, 0), (10, 0),  //   2: 00x
    (0, 3), (0, 2),  //   3: 01x
    (12, 0), (14, 0),  //   4: 000x
    (0, 5), (0, 4),  //   5: 001x
    (16, 0), (18, 0),  //   6: 0000x
    (0, 7), (0, 6),  //   7: 0001x
    (20, 0), (22, 0),  //   8: 0000 0x
    (24, 0), (26, 0),  //   9: 0000 1x
    (28, 0), (30, 0),  //  10: 0000 00x
    (32, 0), (34, 0),  //  11: 0000 01x
    (36, 0), (38, 0),  //  12: 0000 10x
    (0, 9), (0, 8),  //  13: 0000 11x
    (-1, 0), (40, 0),  //  14: 0000 000x
    (-1, 0), (42, 0),  //  15: 0000 001x
    (44, 0), (46, 0),  //  16: 0000 010x
    (0, 15), (0, 14),  //  17: 0000 011x
    (0, 13), (0, 12),  //  18: 0000 100x
    (0, 11), (0, 10),  //  19: 0000 101x
    (48, 0), (50, 0),  //  20: 0000 0001x
    (52, 0), (54, 0),  //  21: 0000 0011x
    (56, 0), (58, 0),  //  22: 0000 0100x
    (60, 0), (62, 0),  //  23: 0000 0101x
    (64, 0), (-1, 0),  //  24: 0000 0001 0x
    (-1, 0), (66, 0),  //  25: 0000 0001 1x
    (68, 0), (70, 0),  //  26: 0000 0011 0x
    (72, 0), (74, 0),  //  27: 0000 0011 1x
    (76, 0), (78, 0),  //  28: 0000 0100 0x
    (0, 21), (0, 20),  //  29: 0000 0100 1x
    (0, 19), (0, 18),  //  30: 0000 0101 0x
    (0, 17), (0, 16),  //  31: 0000 0101 1x
    (0, 35), (-1, 0),  //  32: 0000 0001 00x
    (-1, 0), (0, 34),  //  33: 0000 0001 11x
    (0, 33), (0, 32),  //  34: 0000 0011 00x
    (0, 31), (0, 30),  //  35: 0000 0011 01x
    (0, 29), (0, 28),  //  36: 0000 0011 10x
    (0, 27), (0, 26),  //  37: 0000 0011 11x
    (0, 25), (0, 24),  //  38: 0000 0100 00x
    (0, 23), (0, 22),  //  39: 0000 0100 01x
];

/// Macroblock type in an intra picture, as a set of flags.
pub const MP1V_MACROBLOCK_TYPE_INTRA: [(i16, i16); 4] = [
    (2, 0), (0, 0x01),  //   0: x
    (-1, 0), (0, 0x11),  //   1: 0x
];

/// Macroblock type in a predictive picture, as a set of flags.
pub const MP1V_MACROBLOCK_TYPE_PREDICTIVE: [(i16, i16); 14] = [
    (2, 0), (0, 0x0a),  //   0: x
    (4, 0), (0, 0x02),  //   1: 0x
    (6, 0), (0, 0x08),  //   2: 00x
    (8, 0), (10, 0),  //   3: 000x
    (12, 0), (0, 0x12),  //   4: 0000x
    (0, 0x1a), (0, 0x01),  //   5: 0001x
    (-1, 0), (0, 0x11),  //   6: 0000 0x
];

/// Coded block pattern: one flag for each of the six blocks of a macroblock.
pub const MP1V_CODE_BLOCK_PATTERN: [(i16, i16); 126] = [
    (2, 0), (4, 0),  //   0: x
    (6, 0), (8, 0),  //   1: 0x
    (10, 0), (12, 0),  //   2: 1x
    (14, 0), (16, 0),  //   3: 00x
    (18, 0), (20, 0),  //   4: 01x
    (22, 0), (24, 0),  //   5: 10x
    (26, 0), (0, 60),  //   6: 11x
    (28, 0), (30, 0),  //   7: 000x
    (32, 0), (34, 0),  //   8: 001x
    (36, 0), (38, 0),  //   9: 010x
    (40, 0), (42, 0),  //  10: 011x
    (44, 0), (46, 0),  //  11: 100x
    (0, 32), (0, 16),  //  12: 101x
    (0, 8), (0, 4),  //  13: 110x
    (48, 0), (50, 0),  //  14: 0000x
    (52, 0), (54, 0),  //  15: 0001x
    (56, 0), (58, 0),  //  16: 0010x
    (60, 0), (62, 0),  //  17: 0011x
    (0, 62), (0, 2),  //  18: 0100x
    (0, 61), (0, 1),  //  19: 0101x
    (0, 56), (0, 52),  //  20: 0110x
    (0, 44), (0, 28),  //  21: 0111x
    (0, 40), (0, 20),  //  22: 1000x
    (0, 48), (0, 12),  //  23: 1001x
    (64, 0), (66, 0),  //  24: 0000 0x
    (68, 0), (70, 0),  //  25: 0000 1x
    (72, 0), (74, 0),  //  26: 0001 0x
    (76, 0), (78, 0),  //  27: 0001 1x
    (80, 0), (82, 0),  //  28: 0010 0x
    (84, 0), (86, 0),  //  29: 0010 1x
    (0, 63), (0, 3),  //  30: 0011 0x
    (0, 36), (0, 24),  //  31: 0011 1x
    (88, 0), (90, 0),  //  32: 0000 00x
    (92, 0), (94, 0),  //  33: 0000 01x
    (96, 0), (98, 0),  //  34: 0000 10x
    (100, 0), (102, 0),  //  35: 0000 11x
    (104, 0), (106, 0),  //  36: 0001 00x
    (108, 0), (110, 0),  //  37: 0001 01x
    (112, 0), (114, 0),  //  38: 0001 10x
    (116, 0), (118, 0),  //  39: 0001 11x
    (0, 34), (0, 18),  //  40: 0010 00x
    (0, 10), (0, 6),  //  41: 0010 01x
    (0, 33), (0, 17),  //  42: 0010 10x
    (0, 9), (0, 5),  //  43: 0010 11x
    (-1, 0), (120, 0),  //  44: 0000 000x
    (122, 0), (124, 0),  //  45: 0000 001x
    (0, 58), (0, 54),  //  46: 0000 010x
    (0, 46), (0, 30),  //  47: 0000 011x
    (0, 57), (0, 53),  //  48: 0000 100x
    (0, 45), (0, 29),  //  49: 0000 101x
    (0, 38), (0, 26),  //  50: 0000 110x
    (0, 37), (0, 25),  //  51: 0000 111x
    (0, 43), (0, 23),  //  52: 0001 000x
    (0, 51), (0, 15),  //  53: 0001 001x
    (0, 42), (0, 22),  //  54: 0001 010x
    (0, 50), (0, 14),  //  55: 0001 011x
    (0, 41), (0, 21),  //  56: 0001 100x
    (0, 49), (0, 13),  //  57: 0001 101x
    (0, 35), (0, 19),  //  58: 0001 110x
    (0, 11), (0, 7),  //  59: 0001 111x
    (0, 39), (0, 27),  //  60: 0000 0001x
    (0, 59), (0, 55),  //  61: 0000 0010x
    (0, 47), (0, 31),  //  62: 0000 0011x
];

/// Motion code, -16 to 16.
pub const MP1V_VIDEO_MOTION: [(i16, i16); 68] = [
    (2, 0), (0, 0),  //   0: x
    (4, 0), (6, 0),  //   1: 0x
    (8, 0), (10, 0),  //   2: 00x
    (0, 1), (0, -1),  //   3: 01x
    (12, 0), (14, 0),  //   4: 000x
    (0, 2), (0, -2),  //   5: 001x
    (16, 0), (18, 0),  //   6: 0000x
    (0, 3), (0, -3),  //   7: 0001x
    (20, 0), (22, 0),  //   8: 0000 0x
    (24, 0), (26, 0),  //   9: 0000 1x
    (-1, 0), (28, 0),  //  10: 0000 00x
    (30, 0), (32, 0),  //  11: 0000 01x
    (34, 0), (36, 0),  //  12: 0000 10x
    (0, 4), (0, -4),  //  13: 0000 11x
    (-1, 0), (38, 0),  //  14: 0000 001x
    (40, 0), (42, 0),  //  15: 0000 010x
    (0, 7), (0, -7),  //  16: 0000 011x
    (0, 6), (0, -6),  //  17: 0000 100x
    (0, 5), (0, -5),  //  18: 0000 101x
    (44, 0), (46, 0),  //  19: 0000 0011x
    (48, 0), (50, 0),  //  20: 0000 0100x
    (52, 0), (54, 0),  //  21: 0000 0101x
    (56, 0), (58, 0),  //  22: 0000 0011 0x
    (60, 0), (62, 0),  //  23: 0000 0011 1x
    (64, 0), (66, 0),  //  24: 0000 0100 0x
    (0, 10), (0, -10),  //  25: 0000 0100 1x
    (0, 9), (0, -9),  //  26: 0000 0101 0x
    (0, 8), (0, -8),  //  27: 0000 0101 1x
    (0, 16), (0, -16),  //  28: 0000 0011 00x
    (0, 15), (0, -15),  //  29: 0000 0011 01x
    (0, 14), (0, -14),  //  30: 0000 0011 10x
    (0, 13), (0, -13),  //  31: 0000 0011 11x
    (0, 12), (0, -12),  //  32: 0000 0100 00x
    (0, 11), (0, -11),  //  33: 0000 0100 01x
];

/// Number of bits of the DC difference of a luminance block.
pub const MP1V_DCT_SIZE_LUMINANCE: [(i16, i16); 18] = [
    (2, 0), (4, 0),  //   0: x
    (0, 1), (0, 2),  //   1: 0x
    (6, 0), (8, 0),  //   2: 1x
    (0, 0), (0, 3),  //   3: 10x
    (0, 4), (10, 0),  //   4: 11x
    (0, 5), (12, 0),  //   5: 111x
    (0, 6), (14, 0),  //   6: 1111x
    (0, 7), (16, 0),  //   7: 1111 1x
    (0, 8), (-1, 0),  //   8: 1111 11x
];

/// Number of bits of the DC difference of a chrominance block.
pub const MP1V_DCT_SIZE_CHROMINANCE: [(i16, i16); 18] = [
    (2, 0), (4, 0),  //   0: x
    (0, 0), (0, 1),  //   1: 0x
    (0, 2), (6, 0),  //   2: 1x
    (0, 3), (8, 0),  //   3: 11x
    (0, 4), (10, 0),  //   4: 111x
    (0, 5), (12, 0),  //   5: 1111x
    (0, 6), (14, 0),  //   6: 1111 1x
    (0, 7), (16, 0),  //   7: 1111 11x
    (0, 8), (-1, 0),  //   8: 1111 111x
];

/// Run and level of a coefficient: the run in the high byte, the level in
/// the low byte; `0xffff` is the escape. The sign follows in the stream.
pub const MP1V_DCT_COEFF: [(i16, u16); 224] = [
    (2, 0), (0, 0x0001),  //   0: x
    (4, 0), (6, 0),  //   1: 0x
    (8, 0), (10, 0),  //   2: 00x
    (12, 0), (0, 0x0101),  //   3: 01x
    (14, 0), (16, 0),  //   4: 000x
    (18, 0), (20, 0),  //   5: 001x
    (0, 0x0002), (0, 0x0201),  //   6: 010x
    (22, 0), (24, 0),  //   7: 0000x
    (26, 0), (28, 0),  //   8: 0001x
    (30, 0), (0, 0x0003),  //   9: 0010x
    (0, 0x0401), (0, 0x0301),  //  10: 0011x
    (32, 0), (0, 0xffff),  //  11: 0000 0x
    (34, 0), (36, 0),  //  12: 0000 1x
    (0, 0x0701), (0, 0x0601),  //  13: 0001 0x
    (0, 0x0102), (0, 0x0501),  //  14: 0001 1x
    (38, 0), (40, 0),  //  15: 0010 0x
    (42, 0), (44, 0),  //  16: 0000 00x
    (0, 0x0202), (0, 0x0901),  //  17: 0000 10x
    (0, 0x0004), (0, 0x0801),  //  18: 0000 11x
    (46, 0), (48, 0),  //  19: 0010 00x
    (50, 0), (52, 0),  //  20: 0010 01x
    (54, 0), (56, 0),  //  21: 0000 000x
    (58, 0), (60, 0),  //  22: 0000 001x
    (0, 0x0d01), (0, 0x0006),  //  23: 0010 000x
    (0, 0x0c01), (0, 0x0b01),  //  24: 0010 001x
    (0, 0x0302), (0, 0x0103),  //  25: 0010 010x
    (0, 0x0005), (0, 0x0a01),  //  26: 0010 011x
    (62, 0), (64, 0),  //  27: 0000 0000x
    (66, 0), (68, 0),  //  28: 0000 0001x
    (70, 0), (72, 0),  //  29: 0000 0010x
    (74, 0), (76, 0),  //  30: 0000 0011x
    (78, 0), (80, 0),  //  31: 0000 0000 0x
    (82, 0), (84, 0),  //  32: 0000 0000 1x
    (86, 0), (88, 0),  //  33: 0000 0001 0x
    (90, 0), (92, 0),  //  34: 0000 0001 1x
    (0, 0x1001), (0, 0x0502),  //  35: 0000 0010 0x
    (0, 0x0007), (0, 0x0203),  //  36: 0000 0010 1x
    (0, 0x0104), (0, 0x0f01),  //  37: 0000 0011 0x
    (0, 0x0e01), (0, 0x0402),  //  38: 0000 0011 1x
    (94, 0), (96, 0),  //  39: 0000 0000 00x
    (98, 0), (100, 0),  //  40: 0000 0000 01x
    (102, 0), (104, 0),  //  41: 0000 0000 10x
    (106, 0), (108, 0),  //  42: 0000 0000 11x
    (110, 0), (112, 0),  //  43: 0000 0001 00x
    (114, 0), (116, 0),  //  44: 0000 0001 01x
    (118, 0), (120, 0),  //  45: 0000 0001 10x
    (122, 0), (124, 0),  //  46: 0000 0001 11x
    (-1, 0), (126, 0),  //  47: 0000 0000 000x
    (128, 0), (130, 0),  //  48: 0000 0000 001x
    (132, 0), (134, 0),  //  49: 0000 0000 010x
    (136, 0), (138, 0),  //  50: 0000 0000 011x
    (140, 0), (142, 0),  //  51: 0000 0000 100x
    (144, 0), (146, 0),  //  52: 0000 0000 101x
    (148, 0), (150, 0),  //  53: 0000 0000 110x
    (152, 0), (154, 0),  //  54: 0000 0000 111x
    (0, 0x000b), (0, 0x0802),  //  55: 0000 0001 000x
    (0, 0x0403), (0, 0x000a),  //  56: 0000 0001 001x
    (0, 0x0204), (0, 0x0702),  //  57: 0000 0001 010x
    (0, 0x1501), (0, 0x1401),  //  58: 0000 0001 011x
    (0, 0x0009), (0, 0x1301),  //  59: 0000 0001 100x
    (0, 0x1201), (0, 0x0105),  //  60: 0000 0001 101x
    (0, 0x0303), (0, 0x0008),  //  61: 0000 0001 110x
    (0, 0x0602), (0, 0x1101),  //  62: 0000 0001 111x
    (156, 0), (158, 0),  //  63: 0000 0000 0001x
    (160, 0), (162, 0),  //  64: 0000 0000 0010x
    (164, 0), (166, 0),  //  65: 0000 0000 0011x
    (168, 0), (170, 0),  //  66: 0000 0000 0100x
    (172, 0), (174, 0),  //  67: 0000 0000 0101x
    (176, 0), (178, 0),  //  68: 0000 0000 0110x
    (180, 0), (182, 0),  //  69: 0000 0000 0111x
    (0, 0x0a02), (0, 0x0902),  //  70: 0000 0000 1000x
    (0, 0x0503), (0, 0x0304),  //  71: 0000 0000 1001x
    (0, 0x0205), (0, 0x0107),  //  72: 0000 0000 1010x
    (0, 0x0106), (0, 0x000f),  //  73: 0000 0000 1011x
    (0, 0x000e), (0, 0x000d),  //  74: 0000 0000 1100x
    (0, 0x000c), (0, 0x1a01),  //  75: 0000 0000 1101x
    (0, 0x1901), (0, 0x1801),  //  76: 0000 0000 1110x
    (0, 0x1701), (0, 0x1601),  //  77: 0000 0000 1111x
    (184, 0), (186, 0),  //  78: 0000 0000 0001 0x
    (188, 0), (190, 0),  //  79: 0000 0000 0001 1x
    (192, 0), (194, 0),  //  80: 0000 0000 0010 0x
    (196, 0), (198, 0),  //  81: 0000 0000 0010 1x
    (200, 0), (202, 0),  //  82: 0000 0000 0011 0x
    (204, 0), (206, 0),  //  83: 0000 0000 0011 1x
    (0, 0x001f), (0, 0x001e),  //  84: 0000 0000 0100 0x
    (0, 0x001d), (0, 0x001c),  //  85: 0000 0000 0100 1x
    (0, 0x001b), (0, 0x001a),  //  86: 0000 0000 0101 0x
    (0, 0x0019), (0, 0x0018),  //  87: 0000 0000 0101 1x
    (0, 0x0017), (0, 0x0016),  //  88: 0000 0000 0110 0x
    (0, 0x0015), (0, 0x0014),  //  89: 0000 0000 0110 1x
    (0, 0x0013), (0, 0x0012),  //  90: 0000 0000 0111 0x
    (0, 0x0011), (0, 0x0010),  //  91: 0000 0000 0111 1x
    (208, 0), (210, 0),  //  92: 0000 0000 0001 00x
    (212, 0), (214, 0),  //  93: 0000 0000 0001 01x
    (216, 0), (218, 0),  //  94: 0000 0000 0001 10x
    (220, 0), (222, 0),  //  95: 0000 0000 0001 11x
    (0, 0x0028), (0, 0x0027),  //  96: 0000 0000 0010 00x
    (0, 0x0026), (0, 0x0025),  //  97: 0000 0000 0010 01x
    (0, 0x0024), (0, 0x0023),  //  98: 0000 0000 0010 10x
    (0, 0x0022), (0, 0x0021),  //  99: 0000 0000 0010 11x
    (0, 0x0020), (0, 0x010e),  // 100: 0000 0000 0011 00x
    (0, 0x010d), (0, 0x010c),  // 101: 0000 0000 0011 01x
    (0, 0x010b), (0, 0x010a),  // 102: 0000 0000 0011 10x
    (0, 0x0109), (0, 0x0108),  // 103: 0000 0000 0011 11x
    (0, 0x0112), (0, 0x0111),  // 104: 0000 0000 0001 000x
    (0, 0x0110), (0, 0x010f),  // 105: 0000 0000 0001 001x
    (0, 0x0603), (0, 0x1002),  // 106: 0000 0000 0001 010x
    (0, 0x0f02), (0, 0x0e02),  // 107: 0000 0000 0001 011x
    (0, 0x0d02), (0, 0x0c02),  // 108: 0000 0000 0001 100x
    (0, 0x0b02), (0, 0x1f01),  // 109: 0000 0000 0001 101x
    (0, 0x1e01), (0, 0x1d01),  // 110: 0000 0000 0001 110x
    (0, 0x1c01), (0, 0x1b01),  // 111: 0000 0000 0001 111x
];

/// Entry `i` is a leaf, marks an invalid code, or points at a later pair of
/// the table.
pub open spec fn entry_ok<V>(table: Seq<(i16, V)>, i: int) -> bool {
    let next = table[i].0;
    next == -1 || next == 0 || (i < next && next % 2 == 0 && next + 1 < table.len())
}

/// The table is a tree in which `parents[k]` is the one entry that points at
/// pair `k`.
pub open spec fn tree_with<V>(table: Seq<(i16, V)>, parents: Seq<int>) -> bool {
    &&& table.len() >= 2
    &&& table.len() == 2 * parents.len()
    &&& forall|i: int|
        0 <= i < table.len() ==> entry_ok(table, i) && ((#[trigger] table[i]).0 > 0
            ==> parents[table[i].0 / 2] == i)
    &&& forall|k: int|
        1 <= k < parents.len() ==> 0 <= #[trigger] parents[k] < 2 * k && table[parents[k]].0 == 2
            * k
}

/// The table is a prefix code: every pair but the first is pointed at by
/// exactly one earlier entry, so that exactly one bit string leads to each
/// entry.
pub open spec fn is_prefix_code<V>(table: Seq<(i16, V)>) -> bool {
    exists|parents: Seq<int>| tree_with(table, parents)
}

/// The entries that point at each pair of a prefix code.
pub open spec fn parents_of<V>(table: Seq<(i16, V)>) -> Seq<int> {
    choose|parents: Seq<int>| tree_with(table, parents)
}

/// The bits that lead from the first pair to entry `e`.
pub open spec fn path_to(parents: Seq<int>, e: int) -> Seq<int>
    decreases e,
{
    if e < 2 {
        seq![e]
    } else if 0 <= parents[e / 2] < e {
        path_to(parents, parents[e / 2]).push(e % 2)
    } else {
        seq![]
    }
}

/// The code of entry `e`: the bit string that leads to it.
pub open spec fn code_of<V>(table: Seq<(i16, V)>, e: int) -> Seq<int> {
    path_to(parents_of(table), e)
}

/// Whether the unread bits of `ring` start with `code`.
pub open spec fn starts_with(ring: Ring, code: Seq<int>) -> bool {
    &&& ring.has(code.len() as int)
    &&& forall|i: int| 0 <= i < code.len() ==> ring.bit(i) == #[trigger] code[i]
}

/// What the walk does once it stands at entry `e`.
pub open spec fn at_entry<V>(table: Seq<(i16, V)>, e: int, ring: Ring) -> (Option<V>, Ring) {
    let next = table[e].0;
    if next == 0 {
        (Some(table[e].1), ring)
    } else if next <= e - e % 2 || next + 1 >= table.len() {
        (None, ring)
    } else {
        ring.vlc_walk(table, next as int)
    }
}

proof fn lemma_walk_to<V>(table: Seq<(i16, V)>, parents: Seq<int>, e: int, ring: Ring)
    requires
        tree_with(table, parents),
        0 <= e < table.len(),
        ring.wf(),
        starts_with(ring, path_to(parents, e)),
    ensures
        path_to(parents, e).len() >= 1,
        ring.vlc_walk(table, 0) == at_entry(
            table,
            e,
            ring.advance(path_to(parents, e).len() as int),
        ),
    decreases e,
{
    reveal_with_fuel(crate::bits::bits_val, 2);
    let code = path_to(parents, e);
    if e < 2 {
        assert(code[0] == e);
        assert(ring.bit(0) == e);
    } else {
        let k = e / 2;
        let q = parents[k];
        let head = path_to(parents, q);
        let m = head.len() as int;
        assert(code == head.push(e % 2));
        assert forall|i: int| 0 <= i < head.len() implies ring.bit(i) == #[trigger] head[i] by {
            assert(code[i] == head[i]);
        }
        lemma_walk_to(table, parents, q, ring);
        assert(entry_ok(table, q));
        let mid = ring.advance(m);
        ring.lemma_advance(m);
        assert(mid.has(1));
        assert(code[m] == e % 2);
        assert(mid.bit(0) == ring.bit(m));
        assert(mid.peek(1) == e % 2);
        assert(mid.advance(1) == ring.advance(m + 1));
    }
}

/// Decoding the code of a leaf gives the symbol of that leaf and consumes
/// exactly the bits of the code.
pub proof fn lemma_decode_own_code<V>(table: Seq<(i16, V)>, e: int, ring: Ring)
    requires
        is_prefix_code(table),
        0 <= e < table.len(),
        table[e].0 == 0,
        ring.wf(),
        starts_with(ring, code_of(table, e)),
    ensures
        ring.vlc_walk(table, 0) == (
            Some(table[e].1),
            ring.advance(code_of(table, e).len() as int),
        ),
{
    lemma_walk_to(table, parents_of(table), e, ring);
}

/// `MP1V_MACROBLOCK_ADDRESS_INCREMENT` is a prefix code.
pub proof fn lemma_macroblock_address_increment_is_prefix_code()
    ensures
        is_prefix_code(MP1V_MACROBLOCK_ADDRESS_INCREMENT@),
{
    let parents: Seq<int> = seq![
        0, 0, 2, 3, 4, 5, 8, 9, 12, 13, 16, 17, 18, 19, 20, 21,
        22, 23, 24, 25, 29, 31, 32, 33, 40, 41, 42, 43, 44, 45, 46, 47,
        48, 51, 52, 53, 54, 55, 56, 57,
    ];
    assert(tree_with(MP1V_MACROBLOCK_ADDRESS_INCREMENT@, parents));
}

/// `MP1V_MACROBLOCK_TYPE_INTRA` is a prefix code.
pub proof fn lemma_macroblock_type_intra_is_prefix_code()
    ensures
        is_prefix_code(MP1V_MACROBLOCK_TYPE_INTRA@),
{
    let parents: Seq<int> = seq![
        0, 0,
    ];
    assert(tree_with(MP1V_MACROBLOCK_TYPE_INTRA@, parents));
}

/// `MP1V_MACROBLOCK_TYPE_PREDICTIVE` is a prefix code.
pub proof fn lemma_macroblock_type_predictive_is_prefix_code()
    ensures
        is_prefix_code(MP1V_MACROBLOCK_TYPE_PREDICTIVE@),
{
    let parents: Seq<int> = seq![
        0, 0, 2, 4, 6, 7, 8,
    ];
    assert(tree_with(MP1V_MACROBLOCK_TYPE_PREDICTIVE@, parents));
}

/// `MP1V_CODE_BLOCK_PATTERN` is a prefix code.
pub proof fn lemma_code_block_pattern_is_prefix_code()
    ensures
        is_prefix_code(MP1V_CODE_BLOCK_PATTERN@),
{
    let parents: Seq<int> = seq![
        0, 0, 1, 2, 3, 4, 5, 6, 7, 8, 9, 10, 11, 12, 14, 15,
        16, 17, 18, 19, 20, 21, 22, 23, 28, 29, 30, 31, 32, 33, 34, 35,
        48, 49, 50, 51, 52, 53, 54, 55, 56, 57, 58, 59, 64, 65, 66, 67,
        68, 69, 70, 71, 72, 73, 74, 75, 76, 77, 78, 79, 89, 90, 91,
    ];
    assert(tree_with(MP1V_CODE_BLOCK_PATTERN@, parents));
}

/// `MP1V_VIDEO_MOTION` is a prefix code.
pub proof fn lemma_video_motion_is_prefix_code()
    ensures
        is_prefix_code(MP1V_VIDEO_MOTION@),
{
    let parents: Seq<int> = seq![
        0, 0, 2, 3, 4, 5, 8, 9, 12, 13, 16, 17, 18, 19, 21, 22,
        23, 24, 25, 29, 30, 31, 38, 39, 40, 41, 42, 43, 44, 45, 46, 47,
        48, 49,
    ];
    assert(tree_with(MP1V_VIDEO_MOTION@, parents));
}

/// `MP1V_DCT_SIZE_LUMINANCE` is a prefix code.
pub proof fn lemma_dct_size_luminance_is_prefix_code()
    ensures
        is_prefix_code(MP1V_DCT_SIZE_LUMINANCE@),
{
    let parents: Seq<int> = seq![
        0, 0, 1, 4, 5, 9, 11, 13, 15,
    ];
    assert(tree_with(MP1V_DCT_SIZE_LUMINANCE@, parents));
}

/// `MP1V_DCT_SIZE_CHROMINANCE` is a prefix code.
pub proof fn lemma_dct_size_chrominance_is_prefix_code()
    ensures
        is_prefix_code(MP1V_DCT_SIZE_CHROMINANCE@),
{
    let parents: Seq<int> = seq![
        0, 0, 1, 5, 7, 9, 11, 13, 15,
    ];
    assert(tree_with(MP1V_DCT_SIZE_CHROMINANCE@, parents));
}

/// `MP1V_DCT_COEFF` is a prefix code.
pub proof fn lemma_dct_coeff_is_prefix_code()
    ensures
        is_prefix_code(MP1V_DCT_COEFF@),
{
    let parents: Seq<int> = seq![
        0, 0, 2, 3, 4, 5, 6, 8, 9, 10, 11, 14, 15, 16, 17, 18,
        22, 24, 25, 30, 31, 32, 33, 38, 39, 40, 41, 42, 43, 44, 45, 54,
        55, 56, 57, 58, 59, 60, 61, 62, 63, 64, 65, 66, 67, 68, 69, 78,
        79, 80, 81, 82, 83, 84, 85, 86, 87, 88, 89, 90, 91, 92, 93, 95,
        96, 97, 98, 99, 100, 101, 102, 103, 104, 105, 106, 107, 108, 109, 126, 127,
        128, 129, 130, 131, 132, 133, 134, 135, 136, 137, 138, 139, 156, 157, 158, 159,
        160, 161, 162, 163, 164, 165, 166, 167, 184, 185, 186, 187, 188, 189, 190, 191,
    ];
    assert(tree_with(MP1V_DCT_COEFF@, parents));
}

} // verus!
