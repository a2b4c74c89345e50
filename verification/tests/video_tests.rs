use mpeg1::video::{DecodeResult, Mpeg1Video};

struct Bits {
    bytes: Vec<u8>,
    current: u8,
    used: u32,
}

impl Bits {
    fn new() -> Bits {
        Bits { bytes: Vec::new(), current: 0, used: 0 }
    }

    fn put(&mut self, value: u32, count: u32) {
        for i in (0..count).rev() {
            self.current = (self.current << 1) | (((value >> i) & 1) as u8);
            self.used += 1;
            if self.used == 8 {
                self.bytes.push(self.current);
                self.current = 0;
                self.used = 0;
            }
        }
    }

    fn code(&mut self, bits: &str) {
        for c in bits.chars() {
            if c == '0' {
                self.put(0, 1);
            } else if c == '1' {
                self.put(1, 1);
            }
        }
    }

    fn align(&mut self) {
        while self.used != 0 {
            self.put(0, 1);
        }
    }

    fn start_code(&mut self, last: u8) {
        self.align();
        self.bytes.extend_from_slice(&[0x00, 0x00, 0x01, last]);
    }

    fn sequence_header(&mut self, width: u32, height: u32) {
        self.sequence_header_at_rate(width, height, 3);
    }

    fn sequence_header_at_rate(&mut self, width: u32, height: u32, rate: u32) {
        self.start_code(0xb3);
        self.put(width, 12);
        self.put(height, 12);
        self.put(1, 4);
        self.put(rate, 4);
        self.put(0x3ffff, 18);
        self.put(1, 1);
        self.put(20, 10);
        self.put(0, 1);
    }

    fn picture_header(&mut self, picture_type: u32) {
        self.start_code(0x00);
        self.put(0, 10);
        self.put(picture_type, 3);
        self.put(0xffff, 16);
    }

    fn slice_header(&mut self, row: u8, scale: u32) {
        self.start_code(row);
        self.put(scale, 5);
        self.put(0, 1);
    }

    /// The DC coefficient of a block as a difference to the predictor.
    fn dc(&mut self, luma: bool, diff: i32) {
        let luma_sizes = ["100", "00", "01", "101", "110", "1110", "11110", "111110", "1111110"];
        let chroma_sizes =
            ["00", "01", "10", "110", "1110", "11110", "111110", "1111110", "11111110"];
        let magnitude = diff.unsigned_abs();
        let size = 32 - magnitude.leading_zeros();
        self.code(if luma { luma_sizes[size as usize] } else { chroma_sizes[size as usize] });
        if size > 0 {
            let bits = if diff > 0 { diff as u32 } else { (diff + (1 << size) - 1) as u32 };
            self.put(bits, size);
        }
    }

    fn end_of_block(&mut self) {
        self.code("10");
    }

    /// An intra macroblock whose six blocks hold nothing but their DC
    /// coefficients, given as differences.
    fn intra_macroblock(&mut self, diffs: [i32; 6]) {
        self.code("1");
        self.code("1");
        for (i, d) in diffs.iter().enumerate() {
            self.dc(i < 4, *d);
            self.end_of_block();
        }
    }

    fn finish(mut self) -> Vec<u8> {
        self.align();
        self.bytes
    }
}

fn plane(pixels: &[u8], base: usize, width: usize, height: usize) -> Vec<Vec<u8>> {
    (0..height).map(|y| pixels[base + y * width..base + (y + 1) * width].to_vec()).collect()
}

fn one_intra_picture() -> Bits {
    let mut b = Bits::new();
    b.sequence_header(16, 16);
    b.put(0, 1);
    b.put(0, 1);
    b.picture_header(1);
    b.slice_header(1, 8);
    b.intra_macroblock([7, 0, -3, 0, 0, 1]);
    b
}

fn check_first_picture(v: &Mpeg1Video, frame_base: usize) {
    let pixels = v.pixels();
    let y = plane(pixels, frame_base, 16, 16);
    for row in 0..16 {
        for col in 0..16 {
            let expected = if row < 8 { 135 } else { 132 };
            assert_eq!(y[row][col], expected, "luma {} {}", row, col);
        }
    }
    let cr = plane(pixels, frame_base + 256, 8, 8);
    let cb = plane(pixels, frame_base + 320, 8, 8);
    for row in 0..8 {
        for col in 0..8 {
            assert_eq!(cb[row][col], 128);
            assert_eq!(cr[row][col], 129);
        }
    }
}

#[test]
fn new_decoder_needs_data() {
    let mut v = Mpeg1Video::new();
    assert_eq!(v.decode(), DecodeResult::NeedMoreData);
    assert!(!v.info()._parsed_);
    assert_eq!(v.pixels().len(), 0);
}

#[test]
fn one_picture_is_not_enough() {
    let stream = one_intra_picture().finish();
    let mut v = Mpeg1Video::new();
    assert_eq!(v.push(&stream), stream.len());
    assert_eq!(v.decode(), DecodeResult::NeedMoreData);
    assert!(!v.info()._parsed_);
}

#[test]
fn intra_picture_of_one_macroblock() {
    let mut b = one_intra_picture();
    b.picture_header(1);
    let stream = b.finish();
    let mut v = Mpeg1Video::new();
    assert_eq!(v.push(&stream), stream.len());
    assert_eq!(v.decode(), DecodeResult::GotOneFrame);
    let info = v.info();
    assert!(info._parsed_);
    assert_eq!((info.pic_width, info.pic_height), (16, 16));
    assert_eq!(info.aspect_ratio, 1);
    assert_eq!(info.frame_rate, 25000);
    assert_eq!((info.mb_width, info.mb_height, info.mb_size), (1, 1, 1));
    assert_eq!((info.luma_width, info.luma_height), (16, 16));
    assert_eq!((info.chroma_width, info.chroma_height), (8, 8));
    assert_eq!(v.pixels().len(), 768);
    let frame = v.frame();
    assert_eq!((frame.width, frame.height), (16, 16));
    assert_eq!((frame.y.base, frame.y.width, frame.y.height), (0, 16, 16));
    assert_eq!((frame.cr.base, frame.cr.width, frame.cr.height), (256, 8, 8));
    assert_eq!((frame.cb.base, frame.cb.width, frame.cb.height), (320, 8, 8));
    check_first_picture(&v, 0);
    // the other frame is untouched
    assert!(v.pixels()[384..].iter().all(|p| *p == 0));
    // the start code of the next picture is unread
    assert_eq!(v.decode(), DecodeResult::NeedMoreData);
}

#[test]
fn need_more_data_then_the_rest() {
    let mut b = one_intra_picture();
    b.picture_header(1);
    let stream = b.finish();
    let cut = stream.len() - 7;
    let mut v = Mpeg1Video::new();
    v.push(&stream[..cut]);
    assert_eq!(v.decode(), DecodeResult::NeedMoreData);
    v.push(&stream[cut..]);
    assert_eq!(v.decode(), DecodeResult::GotOneFrame);
    check_first_picture(&v, 0);
}

#[test]
fn picture_sizes_round_up_to_macroblocks() {
    let mut b = Bits::new();
    b.sequence_header(33, 17);
    b.put(0, 1);
    b.put(0, 1);
    b.picture_header(1);
    b.slice_header(1, 8);
    b.intra_macroblock([0, 0, 0, 0, 0, 0]);
    b.picture_header(1);
    let stream = b.finish();
    let mut v = Mpeg1Video::new();
    v.push(&stream);
    assert_eq!(v.decode(), DecodeResult::GotOneFrame);
    let info = v.info();
    assert_eq!((info.pic_width, info.pic_height), (33, 17));
    assert_eq!((info.mb_width, info.mb_height, info.mb_size), (3, 2, 6));
    assert_eq!((info.luma_width, info.luma_height), (48, 32));
    assert_eq!((info.chroma_width, info.chroma_height), (24, 16));
    assert_eq!(v.pixels().len(), 2 * 6 * 384);
    let frame = v.frame();
    assert_eq!(frame.cr.base, 1536);
    assert_eq!(frame.cb.base, 1920);
    // the first macroblock is grey, the rest was not sent
    let y = plane(v.pixels(), 0, 48, 32);
    assert_eq!(y[0][0], 128);
    assert_eq!(y[15][15], 128);
    assert_eq!(y[0][16], 0);
    assert_eq!(y[16][0], 0);
}

#[test]
fn intra_block_with_a_coefficient() {
    let mut b = Bits::new();
    b.sequence_header(16, 16);
    b.put(0, 1);
    b.put(0, 1);
    b.picture_header(1);
    b.slice_header(1, 8);
    b.code("1 1");
    // first block: DC 128, then level 1 at the second place, then the end
    b.dc(true, 0);
    b.code("11 0");
    b.end_of_block();
    for i in 1..6 {
        b.dc(i < 4, 0);
        b.end_of_block();
    }
    b.picture_header(1);
    let stream = b.finish();
    let mut v = Mpeg1Video::new();
    v.push(&stream);
    assert_eq!(v.decode(), DecodeResult::GotOneFrame);
    let y = plane(v.pixels(), 0, 16, 16);
    for row in 0..8 {
        assert_eq!(&y[row][..8], &[131, 130, 129, 129, 127, 127, 126, 125]);
        assert_eq!(&y[row][8..], &[128; 8]);
    }
    for row in 8..16 {
        assert_eq!(&y[row][..], &[128; 16]);
    }
}

#[test]
fn custom_intra_matrix() {
    let mut b = Bits::new();
    b.sequence_header(16, 16);
    b.put(1, 1);
    for _ in 0..64 {
        b.put(32, 8);
    }
    b.put(0, 1);
    b.picture_header(1);
    b.slice_header(1, 8);
    b.code("1 1");
    b.dc(true, 0);
    b.code("11 0");
    b.end_of_block();
    for i in 1..6 {
        b.dc(i < 4, 0);
        b.end_of_block();
    }
    b.picture_header(1);
    let stream = b.finish();
    let mut v = Mpeg1Video::new();
    v.push(&stream);
    assert_eq!(v.decode(), DecodeResult::GotOneFrame);
    let y = plane(v.pixels(), 0, 16, 16);
    for row in 0..8 {
        assert_eq!(&y[row][..8], &[133, 133, 131, 129, 127, 125, 123, 123]);
    }
}

#[test]
fn sequence_header_that_is_not_complete_is_deferred() {
    // two picture start codes stand before a sequence header whose matrix
    // is cut off
    let mut b = Bits::new();
    b.picture_header(1);
    b.picture_header(1);
    b.sequence_header(16, 16);
    b.put(1, 1);
    for _ in 0..10 {
        b.put(32, 8);
    }
    let head = b.finish();
    let mut v = Mpeg1Video::new();
    v.push(&head);
    assert_eq!(v.decode(), DecodeResult::NeedMoreData);
    assert!(!v.info()._parsed_);
    let mut rest = Bits::new();
    // the bit that pads the head, then the other 54 bytes of the matrix
    rest.put(32, 7);
    for _ in 0..53 {
        rest.put(32, 8);
    }
    rest.put(0, 1);
    rest.picture_header(1);
    rest.slice_header(1, 8);
    rest.intra_macroblock([7, 0, -3, 0, 0, 1]);
    rest.picture_header(1);
    let rest = rest.finish();
    v.push(&rest);
    assert_eq!(v.decode(), DecodeResult::GotOneFrame);
    check_first_picture(&v, 0);
}

#[test]
fn pictures_without_a_sequence_header() {
    let mut b = Bits::new();
    b.picture_header(1);
    b.slice_header(1, 8);
    b.intra_macroblock([0, 0, 0, 0, 0, 0]);
    b.picture_header(1);
    let stream = b.finish();
    let mut v = Mpeg1Video::new();
    v.push(&stream);
    assert_eq!(v.decode(), DecodeResult::InternalError);
}

#[test]
fn picture_without_pixels() {
    let mut b = Bits::new();
    b.sequence_header(0, 16);
    b.put(0, 1);
    b.put(0, 1);
    b.picture_header(1);
    b.picture_header(1);
    let stream = b.finish();
    let mut v = Mpeg1Video::new();
    v.push(&stream);
    assert_eq!(v.decode(), DecodeResult::InternalError);
    assert!(!v.info()._parsed_);
}

#[test]
fn picture_types_that_are_not_supported() {
    for picture_type in [0u32, 3, 4, 7] {
        let mut b = Bits::new();
        b.sequence_header(16, 16);
        b.put(0, 1);
        b.put(0, 1);
        b.picture_header(picture_type);
        b.slice_header(1, 8);
        b.intra_macroblock([0, 0, 0, 0, 0, 0]);
        b.picture_header(1);
        let stream = b.finish();
        let mut v = Mpeg1Video::new();
        v.push(&stream);
        assert_eq!(v.decode(), DecodeResult::InternalError);
    }
}

#[test]
fn predictive_picture_with_a_range_of_zero() {
    let mut b = one_intra_picture();
    b.picture_header(2);
    b.put(0, 1);
    b.put(0, 3);
    b.slice_header(1, 8);
    b.picture_header(1);
    let stream = b.finish();
    let mut v = Mpeg1Video::new();
    v.push(&stream);
    assert_eq!(v.decode(), DecodeResult::GotOneFrame);
    assert_eq!(v.decode(), DecodeResult::InternalError);
}

#[test]
fn user_data_and_extensions_are_passed_over() {
    let mut b = Bits::new();
    b.sequence_header(16, 16);
    b.put(0, 1);
    b.put(0, 1);
    b.picture_header(1);
    b.start_code(0xb5);
    b.put(0x1234, 16);
    b.start_code(0xb2);
    b.put(0x56, 8);
    b.slice_header(1, 8);
    b.intra_macroblock([7, 0, -3, 0, 0, 1]);
    b.picture_header(1);
    let stream = b.finish();
    let mut v = Mpeg1Video::new();
    v.push(&stream);
    assert_eq!(v.decode(), DecodeResult::GotOneFrame);
    check_first_picture(&v, 0);
}

#[test]
fn first_slice_must_be_slice_one() {
    let mut b = Bits::new();
    b.sequence_header(16, 16);
    b.put(0, 1);
    b.put(0, 1);
    b.picture_header(1);
    b.slice_header(2, 8);
    b.intra_macroblock([0, 0, 0, 0, 0, 0]);
    b.picture_header(1);
    let stream = b.finish();
    let mut v = Mpeg1Video::new();
    v.push(&stream);
    assert_eq!(v.decode(), DecodeResult::InternalError);
}

#[test]
fn slice_extra_information_is_passed_over() {
    let mut b = Bits::new();
    b.sequence_header(16, 16);
    b.put(0, 1);
    b.put(0, 1);
    b.picture_header(1);
    b.start_code(0x01);
    b.put(8, 5);
    b.put(1, 1);
    b.put(0xaa, 8);
    b.put(1, 1);
    b.put(0x55, 8);
    b.put(0, 1);
    b.intra_macroblock([7, 0, -3, 0, 0, 1]);
    b.picture_header(1);
    let stream = b.finish();
    let mut v = Mpeg1Video::new();
    v.push(&stream);
    assert_eq!(v.decode(), DecodeResult::GotOneFrame);
    check_first_picture(&v, 0);
}

#[test]
fn macroblock_address_outside_the_picture() {
    let mut b = Bits::new();
    b.sequence_header(16, 16);
    b.put(0, 1);
    b.put(0, 1);
    b.picture_header(1);
    b.slice_header(1, 8);
    // increment 2 in a picture of one macroblock
    b.code("011");
    b.code("1");
    for i in 0..6 {
        b.dc(i < 4, 0);
        b.end_of_block();
    }
    b.picture_header(1);
    let stream = b.finish();
    let mut v = Mpeg1Video::new();
    v.push(&stream);
    assert_eq!(v.decode(), DecodeResult::InternalError);
}

#[test]
fn macroblock_stuffing_and_escape() {
    // 40 macroblocks in a row; the first slice starts at macroblock 34
    let mut b = Bits::new();
    b.sequence_header(640, 16);
    b.put(0, 1);
    b.put(0, 1);
    b.picture_header(1);
    b.slice_header(1, 8);
    b.code("00000001111");
    b.code("00000001111");
    b.code("00000001000");
    b.code("011");
    b.code("1");
    for i in 0..6 {
        b.dc(i < 4, if i == 0 { 12 } else { 0 });
        b.end_of_block();
    }
    b.picture_header(1);
    let stream = b.finish();
    let mut v = Mpeg1Video::new();
    v.push(&stream);
    assert_eq!(v.decode(), DecodeResult::GotOneFrame);
    let y = plane(v.pixels(), 0, 640, 16);
    // address -1 + 33 + 2 = 34
    assert_eq!(y[0][34 * 16], 140);
    assert_eq!(y[15][34 * 16 + 15], 140);
    assert_eq!(y[0][34 * 16 - 1], 0);
    assert_eq!(y[0][35 * 16], 0);
}

#[test]
fn bad_code_in_a_block_is_fatal() {
    let mut b = Bits::new();
    b.sequence_header(16, 16);
    b.put(0, 1);
    b.put(0, 1);
    b.picture_header(1);
    b.slice_header(1, 8);
    b.code("1 1");
    b.dc(true, 0);
    // sixteen bits of 0 are no coefficient
    b.code("1111 1111 0000 0000 0000 0000 11");
    b.picture_header(1);
    let stream = b.finish();
    let mut v = Mpeg1Video::new();
    v.push(&stream);
    // 11 1 is level -1, then 1111 1 are more levels, then the bad code
    assert_eq!(v.decode(), DecodeResult::InternalError);
}

#[test]
fn run_beyond_the_block_gives_up_that_block_only() {
    let mut b = Bits::new();
    b.sequence_header(16, 16);
    b.put(0, 1);
    b.put(0, 1);
    b.picture_header(1);
    b.slice_header(1, 8);
    b.code("1 1");
    b.dc(true, 9);
    // escape with run 63
    b.code("000001 111111 00000011");
    // the other blocks follow at once
    for i in 1..6 {
        b.dc(i < 4, 0);
        b.end_of_block();
    }
    b.picture_header(1);
    let stream = b.finish();
    let mut v = Mpeg1Video::new();
    v.push(&stream);
    assert_eq!(v.decode(), DecodeResult::GotOneFrame);
    let y = plane(v.pixels(), 0, 16, 16);
    // the first block was not written; its DC still is the next predictor
    assert_eq!(y[0][0], 0);
    assert_eq!(y[0][8], 137);
    assert_eq!(y[8][0], 137);
    assert_eq!(y[8][8], 137);
}

fn predictive_picture(b: &mut Bits, macroblock: &str) {
    b.picture_header(2);
    b.put(0, 1);
    b.put(1, 3);
    b.slice_header(1, 8);
    b.code(macroblock);
}

#[test]
fn predictive_picture_copies_the_forward_frame() {
    let mut b = one_intra_picture();
    // increment 1, type motion only, both parts of the vector 0
    predictive_picture(&mut b, "1 001 1 1");
    b.picture_header(1);
    let stream = b.finish();
    let mut v = Mpeg1Video::new();
    v.push(&stream);
    assert_eq!(v.decode(), DecodeResult::GotOneFrame);
    assert_eq!(v.frame().y.base, 0);
    assert_eq!(v.decode(), DecodeResult::GotOneFrame);
    let frame = v.frame();
    assert_eq!((frame.y.base, frame.cr.base, frame.cb.base), (384, 640, 704));
    check_first_picture(&v, 0);
    check_first_picture(&v, 384);
}

#[test]
fn predictive_block_is_added_to_the_prediction() {
    let mut b = one_intra_picture();
    // type motion and pattern, vector 0, pattern 32 (first block only),
    // one coefficient of level 1, end of block
    predictive_picture(&mut b, "1 1 1 1 1010 1 0 10");
    b.picture_header(1);
    let stream = b.finish();
    let mut v = Mpeg1Video::new();
    v.push(&stream);
    assert_eq!(v.decode(), DecodeResult::GotOneFrame);
    assert_eq!(v.decode(), DecodeResult::GotOneFrame);
    let y = plane(v.pixels(), 384, 16, 16);
    for row in 0..16 {
        for col in 0..16 {
            // (3 * 8 * 16 / 16 - 1) * 32 = 736, scaled down: 3
            let expected = if row < 8 && col < 8 {
                138
            } else if row < 8 {
                135
            } else {
                132
            };
            assert_eq!(y[row][col], expected);
        }
    }
}

#[test]
fn motion_vector_out_of_the_plane_is_fatal() {
    // half a pixel to the right in a picture of one macroblock
    let mut b = one_intra_picture();
    predictive_picture(&mut b, "1 001 010 1");
    b.picture_header(1);
    let stream = b.finish();
    let mut v = Mpeg1Video::new();
    v.push(&stream);
    assert_eq!(v.decode(), DecodeResult::GotOneFrame);
    assert_eq!(v.decode(), DecodeResult::InternalError);
    // nothing was written
    assert!(v.pixels()[384..].iter().all(|p| *p == 0));
}

#[test]
fn motion_vector_above_the_plane_is_fatal() {
    let mut b = one_intra_picture();
    // the vertical part is -2 half pixels
    predictive_picture(&mut b, "1 001 1 0011");
    b.picture_header(1);
    let stream = b.finish();
    let mut v = Mpeg1Video::new();
    v.push(&stream);
    assert_eq!(v.decode(), DecodeResult::GotOneFrame);
    assert_eq!(v.decode(), DecodeResult::InternalError);
    assert!(v.pixels()[384..].iter().all(|p| *p == 0));
}

fn two_macroblocks() -> Bits {
    let mut b = Bits::new();
    b.sequence_header(32, 16);
    b.put(0, 1);
    b.put(0, 1);
    b.picture_header(1);
    b.slice_header(1, 8);
    b.intra_macroblock([2, 10, 10, 10, 4, -4]);
    b.intra_macroblock([10, 10, 10, 10, 8, -8]);
    b
}

#[test]
fn intra_picture_of_two_macroblocks() {
    let mut b = two_macroblocks();
    b.picture_header(1);
    let stream = b.finish();
    let mut v = Mpeg1Video::new();
    v.push(&stream);
    assert_eq!(v.decode(), DecodeResult::GotOneFrame);
    let y = plane(v.pixels(), 0, 32, 16);
    let value = |row: usize, col: usize| -> u8 {
        let block = (col / 16) * 4 + (row / 8) * 2 + (col % 16) / 8;
        [130, 140, 150, 160, 170, 180, 190, 200][block]
    };
    for row in 0..16 {
        for col in 0..32 {
            assert_eq!(y[row][col], value(row, col));
        }
    }
    let frame = v.frame();
    let cb = plane(v.pixels(), frame.cb.base, 16, 8);
    let cr = plane(v.pixels(), frame.cr.base, 16, 8);
    for row in 0..8 {
        for col in 0..16 {
            assert_eq!(cb[row][col], if col < 8 { 132 } else { 140 });
            assert_eq!(cr[row][col], if col < 8 { 124 } else { 116 });
        }
    }
}

#[test]
fn motion_vector_of_seven_pixels() {
    let mut b = two_macroblocks();
    // horizontal part 14 half pixels, vertical part 0
    predictive_picture(&mut b, "1 001 00000011100 1");
    b.picture_header(1);
    let stream = b.finish();
    let mut v = Mpeg1Video::new();
    v.push(&stream);
    assert_eq!(v.decode(), DecodeResult::GotOneFrame);
    assert_eq!(v.decode(), DecodeResult::GotOneFrame);
    let frame = v.frame();
    assert_eq!(frame.y.base, 768);
    let before = plane(v.pixels(), 0, 32, 16);
    let after = plane(v.pixels(), 768, 32, 16);
    for row in 0..16 {
        for col in 0..16 {
            assert_eq!(after[row][col], before[row][col + 7]);
        }
        for col in 16..32 {
            assert_eq!(after[row][col], 0);
        }
    }
    assert_eq!(after[0][0], 130);
    assert_eq!(after[0][1], 140);
    assert_eq!(after[0][9], 170);
    // chroma moves by half the vector: three pixels and a half
    let cb_before = plane(v.pixels(), 640, 16, 8);
    let cb_after = plane(v.pixels(), frame.cb.base, 16, 8);
    assert_eq!(frame.cb.base, 768 + 640);
    for row in 0..8 {
        for col in 0..8 {
            let a = cb_before[row][col + 3] as u32;
            let b = cb_before[row][col + 4] as u32;
            assert_eq!(cb_after[row][col] as u32, (a + b + 1) >> 1);
        }
    }
    assert_eq!(cb_after[0][3], 132);
    assert_eq!(cb_after[0][4], 136);
    assert_eq!(cb_after[0][5], 140);
}

#[test]
fn motion_vector_wraps_into_its_range() {
    // 16 half pixels are out of the range -16 to 15 and count as -16, which
    // leads out of the plane
    let mut b = two_macroblocks();
    predictive_picture(&mut b, "1 001 00000011000 1");
    b.picture_header(1);
    let stream = b.finish();
    let mut v = Mpeg1Video::new();
    v.push(&stream);
    assert_eq!(v.decode(), DecodeResult::GotOneFrame);
    assert_eq!(v.decode(), DecodeResult::InternalError);
}

#[test]
fn motion_vector_of_half_a_pixel() {
    let mut b = two_macroblocks();
    // horizontal part 15 half pixels: seven pixels and a half
    predictive_picture(&mut b, "1 001 00000011010 1");
    b.picture_header(1);
    let stream = b.finish();
    let mut v = Mpeg1Video::new();
    v.push(&stream);
    assert_eq!(v.decode(), DecodeResult::GotOneFrame);
    assert_eq!(v.decode(), DecodeResult::GotOneFrame);
    let before = plane(v.pixels(), 0, 32, 16);
    let after = plane(v.pixels(), 768, 32, 16);
    for row in 0..16 {
        for col in 0..16 {
            let a = before[row][col + 7] as u32;
            let b = before[row][col + 8] as u32;
            assert_eq!(after[row][col] as u32, (a + b + 1) >> 1);
        }
    }
    // between 130 and 140
    assert_eq!(after[0][0], 135);
    assert_eq!(after[0][1], 140);
}

#[test]
fn skipped_macroblocks_are_predicted() {
    // three macroblocks; the predictive picture sends the first and the
    // last, the one between them is skipped
    let mut b = Bits::new();
    b.sequence_header(48, 16);
    b.put(0, 1);
    b.put(0, 1);
    b.picture_header(1);
    b.slice_header(1, 8);
    b.intra_macroblock([2, 0, 0, 0, 0, 0]);
    b.intra_macroblock([10, 0, 0, 0, 0, 0]);
    b.intra_macroblock([10, 0, 0, 0, 0, 0]);
    predictive_picture(&mut b, "1 001 1 1");
    b.code("011 001 1 1");
    b.picture_header(1);
    let stream = b.finish();
    let mut v = Mpeg1Video::new();
    v.push(&stream);
    assert_eq!(v.decode(), DecodeResult::GotOneFrame);
    assert_eq!(v.decode(), DecodeResult::GotOneFrame);
    let base = v.frame().y.base;
    assert_eq!(base, 3 * 384);
    let before = plane(v.pixels(), 0, 48, 16);
    let after = plane(v.pixels(), base, 48, 16);
    assert_eq!(before, after);
    assert_eq!(after[3][5], 130);
    assert_eq!(after[3][20], 140);
    assert_eq!(after[3][40], 150);
}

#[test]
fn intra_macroblock_in_a_predictive_picture() {
    let mut b = one_intra_picture();
    b.picture_header(2);
    b.put(0, 1);
    b.put(1, 3);
    b.slice_header(1, 8);
    // increment 1, type intra (00011)
    b.code("1 00011");
    for i in 0..6 {
        b.dc(i < 4, 50);
        b.end_of_block();
    }
    b.picture_header(1);
    let stream = b.finish();
    let mut v = Mpeg1Video::new();
    v.push(&stream);
    assert_eq!(v.decode(), DecodeResult::GotOneFrame);
    assert_eq!(v.decode(), DecodeResult::GotOneFrame);
    let y = plane(v.pixels(), 384, 16, 16);
    assert_eq!(y[0][0], 178);
    assert_eq!(y[0][8], 228);
    assert_eq!(y[8][0], 255);
    assert_eq!(y[8][8], 255);
}

#[test]
fn quantizer_scale_of_the_macroblock() {
    let mut b = Bits::new();
    b.sequence_header(16, 16);
    b.put(0, 1);
    b.put(0, 1);
    b.picture_header(1);
    b.slice_header(1, 8);
    // type intra with quantizer scale (01), scale 16
    b.code("1 01");
    b.put(16, 5);
    b.dc(true, 0);
    b.code("11 0");
    b.end_of_block();
    for i in 1..6 {
        b.dc(i < 4, 0);
        b.end_of_block();
    }
    b.picture_header(1);
    let stream = b.finish();
    let mut v = Mpeg1Video::new();
    v.push(&stream);
    assert_eq!(v.decode(), DecodeResult::GotOneFrame);
    let y = plane(v.pixels(), 0, 16, 16);
    // level 2 * 16 * 16 / 16 - 1 = 31, times 44: as with weight 32 and scale 8
    assert_eq!(&y[0][..8], &[133, 133, 131, 129, 127, 125, 123, 123]);
}

#[test]
fn decoder_push_is_short_when_the_buffer_is_full() {
    let mut v = Mpeg1Video::new();
    let chunk = vec![0xffu8; 1024 * 1024];
    assert_eq!(v.push(&chunk), chunk.len());
    assert_eq!(v.push(&chunk), chunk.len());
    assert_eq!(v.push(&chunk), chunk.len());
    assert_eq!(v.push(&chunk), chunk.len() - 1);
    assert_eq!(v.push(&chunk), 0);
}

#[test]
fn two_slices_start_their_rows_and_their_predictors() {
    let mut b = Bits::new();
    b.sequence_header(16, 32);
    b.put(0, 1);
    b.put(0, 1);
    b.picture_header(1);
    b.slice_header(1, 8);
    b.intra_macroblock([7, 0, 0, 0, 3, -3]);
    b.slice_header(2, 8);
    b.intra_macroblock([0, 1, 1, 1, 0, 0]);
    b.picture_header(1);
    let stream = b.finish();
    let mut v = Mpeg1Video::new();
    v.push(&stream);
    assert_eq!(v.decode(), DecodeResult::GotOneFrame);
    let info = v.info();
    assert_eq!((info.mb_width, info.mb_height, info.mb_size), (1, 2, 2));
    let y = plane(v.pixels(), 0, 16, 32);
    assert_eq!(y[0][0], 135);
    assert_eq!(y[15][15], 135);
    // the second slice starts from 128 again
    assert_eq!(y[16][0], 128);
    assert_eq!(y[16][8], 129);
    assert_eq!(y[24][0], 130);
    assert_eq!(y[24][8], 131);
    let frame = v.frame();
    let cb = plane(v.pixels(), frame.cb.base, 8, 16);
    let cr = plane(v.pixels(), frame.cr.base, 8, 16);
    assert_eq!((cb[0][0], cr[0][0]), (131, 125));
    assert_eq!((cb[8][0], cr[8][0]), (128, 128));
}

#[test]
fn slice_beyond_the_picture_is_fatal() {
    let mut b = Bits::new();
    b.sequence_header(16, 16);
    b.put(0, 1);
    b.put(0, 1);
    b.picture_header(1);
    b.slice_header(1, 8);
    b.intra_macroblock([0, 0, 0, 0, 0, 0]);
    b.slice_header(2, 8);
    b.intra_macroblock([0, 0, 0, 0, 0, 0]);
    b.picture_header(1);
    let stream = b.finish();
    let mut v = Mpeg1Video::new();
    v.push(&stream);
    assert_eq!(v.decode(), DecodeResult::InternalError);
}

#[test]
fn start_code_behind_the_last_slice_ends_the_picture() {
    // a sequence end code (b7) stands between the pictures
    let mut b = one_intra_picture();
    b.start_code(0xb7);
    b.picture_header(1);
    b.slice_header(1, 8);
    b.intra_macroblock([1, 0, 0, 0, 0, 0]);
    b.picture_header(1);
    let stream = b.finish();
    let mut v = Mpeg1Video::new();
    v.push(&stream);
    assert_eq!(v.decode(), DecodeResult::GotOneFrame);
    check_first_picture(&v, 0);
    assert_eq!(v.decode(), DecodeResult::GotOneFrame);
    let y = plane(v.pixels(), 384, 16, 16);
    assert_eq!(y[0][0], 129);
    assert_eq!(v.decode(), DecodeResult::NeedMoreData);
}

#[test]
fn slice_without_a_start_code_behind_it_is_fatal() {
    // the second start code of a picture stands inside the only slice, so
    // that nothing follows the slice
    let mut b = Bits::new();
    b.sequence_header(16, 16);
    b.put(0, 1);
    b.put(0, 1);
    b.picture_header(1);
    b.picture_header(1);
    b.slice_header(1, 8);
    b.intra_macroblock([0, 0, 0, 0, 0, 0]);
    let stream = b.finish();
    let mut v = Mpeg1Video::new();
    v.push(&stream);
    // the first picture has no slice at all
    assert_eq!(v.decode(), DecodeResult::InternalError);
}

#[test]
fn reserved_frame_rates_are_zero() {
    for (code, rate) in [(0u32, 0u32), (1, 23976), (2, 24000), (4, 29970), (5, 30000), (6, 50000), (7, 59940), (8, 60000), (9, 0), (15, 0)] {
        let mut b = Bits::new();
        b.sequence_header_at_rate(16, 16, code);
        b.put(0, 1);
        b.put(0, 1);
        b.picture_header(1);
        b.slice_header(1, 8);
        b.intra_macroblock([0, 0, 0, 0, 0, 0]);
        b.picture_header(1);
        let stream = b.finish();
        let mut v = Mpeg1Video::new();
        v.push(&stream);
        assert_eq!(v.decode(), DecodeResult::GotOneFrame);
        assert_eq!(v.info().frame_rate, rate);
    }
}

#[test]
fn full_pixel_vectors_count_double() {
    let mut b = two_macroblocks();
    b.picture_header(2);
    // vectors in full pixels, range code 1
    b.put(1, 1);
    b.put(1, 3);
    b.slice_header(1, 8);
    // horizontal part 7 full pixels
    b.code("1 001 00000110 1");
    b.picture_header(1);
    let stream = b.finish();
    let mut v = Mpeg1Video::new();
    v.push(&stream);
    assert_eq!(v.decode(), DecodeResult::GotOneFrame);
    assert_eq!(v.decode(), DecodeResult::GotOneFrame);
    let before = plane(v.pixels(), 0, 32, 16);
    let after = plane(v.pixels(), 768, 32, 16);
    for row in 0..16 {
        for col in 0..16 {
            assert_eq!(after[row][col], before[row][col + 7]);
        }
    }
}

#[test]
fn larger_range_reads_more_bits() {
    let mut b = two_macroblocks();
    b.picture_header(2);
    // range code 2: each motion code is followed by one bit
    b.put(0, 1);
    b.put(2, 3);
    b.slice_header(1, 8);
    // motion code 4 (0000110) and bit 1: (4 - 1) * 2 + 1 + 1 = 8 half pixels
    b.code("1 001 0000110 1 1");
    b.picture_header(1);
    let stream = b.finish();
    let mut v = Mpeg1Video::new();
    v.push(&stream);
    assert_eq!(v.decode(), DecodeResult::GotOneFrame);
    assert_eq!(v.decode(), DecodeResult::GotOneFrame);
    let before = plane(v.pixels(), 0, 32, 16);
    let after = plane(v.pixels(), 768, 32, 16);
    for row in 0..16 {
        for col in 0..16 {
            assert_eq!(after[row][col], before[row][col + 4]);
        }
    }
}
