//! Decoding of the coefficients of one block of 8 by 8: the DC coefficient
//! of an intra block, the run and level pairs, and their dequantization.
use vstd::prelude::*;
use crate::bitbuf::{Ring, RingBitBuffer};
use crate::bits::limit;
use crate::idct::{ints, within, IDCT_LIMIT};
use crate::vlc::MP1V_DCT_COEFF;

verus! {

/// Place in the block, stored row by row, of each coefficient in the order
/// in which the stream holds them.
pub const MP1V_ZIG_ZAG: [usize; 64] = [
    0, 1, 8, 16, 9, 2, 3, 10,
    17, 24, 32, 25, 18, 11, 4, 5,
    12, 19, 26, 33, 40, 48, 41, 34,
    27, 20, 13, 6, 7, 14, 21, 28,
    35, 42, 49, 56, 57, 50, 43, 36,
    29, 22, 15, 23, 30, 37, 44, 51,
    58, 59, 52, 45, 38, 31, 39, 46,
    53, 60, 61, 54, 47, 55, 62, 63,
];

/// Quantization weights of intra blocks where the stream brings none.
pub const MP1V_INTRA_QUANT_MATRIX: [u8; 64] = [
    8, 16, 19, 22, 26, 27, 29, 34,
    16, 16, 22, 24, 27, 29, 34, 37,
    19, 22, 26, 27, 29, 34, 34, 38,
    22, 22, 26, 27, 29, 34, 37, 40,
    22, 26, 27, 29, 32, 35, 40, 48,
    26, 27, 29, 32, 35, 40, 48, 58,
    26, 27, 29, 34, 38, 46, 56, 69,
    27, 29, 35, 38, 46, 56, 69, 83,
];

/// Quantization weights of other blocks where the stream brings none.
pub const MP1V_NON_INTRA_QUANT_MATRIX: [u8; 64] = [
    16, 16, 16, 16, 16, 16, 16, 16,
    16, 16, 16, 16, 16, 16, 16, 16,
    16, 16, 16, 16, 16, 16, 16, 16,
    16, 16, 16, 16, 16, 16, 16, 16,
    16, 16, 16, 16, 16, 16, 16, 16,
    16, 16, 16, 16, 16, 16, 16, 16,
    16, 16, 16, 16, 16, 16, 16, 16,
    16, 16, 16, 16, 16, 16, 16, 16,
];

/// Factors by which the coefficients are multiplied before the transform,
/// so that the transform itself needs fewer multiplications.
pub const MP1V_PREMULTIPLIER_MATRIX: [u8; 64] = [
    32, 44, 42, 38, 32, 25, 17, 9,
    44, 62, 58, 52, 44, 35, 24, 12,
    42, 58, 55, 49, 42, 33, 23, 12,
    38, 52, 49, 44, 38, 30, 20, 10,
    32, 44, 42, 38, 32, 25, 17, 9,
    25, 35, 33, 30, 25, 20, 14, 7,
    17, 24, 23, 20, 17, 14, 9, 5,
    9, 12, 12, 10, 9, 7, 5, 2,
];

/// A DC coefficient at or beyond this magnitude does not fit into 32 bits
/// once it is premultiplied, and ends the block.
pub const DC_LIMIT: i64 = 0x0080_0000;

/// How the coefficients of a block ended.
#[derive(Debug, Clone, Copy, PartialEq, Eq, Structural)]
pub enum RunEnd {
    /// The end of block code was read.
    EndOfBlock,
    /// A run led beyond the 64 coefficients: the block is given up.
    Overrun,
    /// The bits read are no code.
    BadCode,
}

/// The level of a coefficient, dequantized: doubled, for blocks that are
/// not intra moved one away from 0, multiplied by the quantizer scale and
/// the weight, divided by 16 rounding down, made odd towards 0, and cut to
/// -2048 to 2047.
pub open spec fn dequantize(level: int, intra: bool, scale: int, weight: int) -> int {
    let doubled = 2 * level;
    let odd = if intra {
        doubled
    } else if doubled < 0 {
        doubled - 1
    } else {
        doubled + 1
    };
    let scaled = (odd * scale * weight) / 16;
    let fixed = if scaled % 2 == 0 {
        if scaled > 0 {
            scaled - 1
        } else {
            scaled + 1
        }
    } else {
        scaled
    };
    if fixed > 2047 {
        2047
    } else if fixed < -2048 {
        -2048
    } else {
        fixed
    }
}

/// The difference that `size` bits of value `bits` stand for: a first bit
/// of 1 means the value itself, a first bit of 0 a negative number.
pub open spec fn dc_difference(size: int, bits: int) -> int {
    if size <= 0 {
        0
    } else if bits >= limit(size - 1) {
        bits
    } else {
        bits + 1 - limit(size)
    }
}

/// The DC coefficient of an intra block: the predictor plus the difference
/// that the stream holds, as a size from `table` and that many bits. `None`
/// where the bits read are no code of the table.
#[verifier::opaque]
pub open spec fn read_dc(ring: Ring, table: Seq<(i16, i16)>, predictor: int) -> (
    Option<int>,
    Ring,
) {
    let (size, r1) = ring.vlc_walk(table, 0);
    match size {
        None => (None, r1),
        Some(size) => if size < 0 || size > 8 {
            (None, r1)
        } else {
            (Some(predictor + dc_difference(size as int, r1.read(size as int).0)), r1.read(
                size as int,
            ).1)
        },
    }
}

/// Run and level behind the escape code: six bits of run, eight bits of
/// level in two's complement, of which 0 and 128 announce eight more bits
/// for levels of larger magnitude.
pub open spec fn read_escape(ring: Ring) -> (int, int, Ring) {
    let (run, r1) = ring.read(6);
    let (first, r2) = r1.read(8);
    if first == 0 {
        (run, r2.read(8).0, r2.read(8).1)
    } else if first == 128 {
        (run, r2.read(8).0 - 256, r2.read(8).1)
    } else if first > 128 {
        (run, first - 256, r2)
    } else {
        (run, first, r2)
    }
}

/// Run and level of the coefficient whose code gave `coeff`: behind the
/// escape, or the two bytes of `coeff` and one bit of sign.
pub open spec fn read_run_level(ring: Ring, coeff: u16) -> (int, int, Ring) {
    if coeff == 0xffff {
        read_escape(ring)
    } else {
        (
            coeff as int / 256,
            if ring.read(1).0 != 0 {
                -(coeff as int % 256)
            } else {
                coeff as int % 256
            },
            ring.read(1).1,
        )
    }
}

/// What reading one code of a block gives.
pub struct CoeffStep {
    pub ring: Ring,
    /// How the block ended, where this code ended it.
    pub end: Option<RunEnd>,
    /// Number of coefficients passed, the one read included.
    pub n: int,
    /// Place of the coefficient in the block.
    pub at: int,
    /// The coefficient, dequantized and premultiplied.
    pub value: int,
}

/// Reads one code where `n` coefficients were passed. The code of value 1
/// ends the block where a coefficient went before and the next bit is 0.
/// A run that leads beyond the 64 coefficients ends the block too.
#[verifier::opaque]
pub open spec fn coeff_step(
    ring: Ring,
    n: int,
    intra: bool,
    scale: int,
    weights: Seq<u8>,
) -> CoeffStep {
    let (sym, r1) = ring.vlc_walk(MP1V_DCT_COEFF@, 0);
    if sym is None {
        CoeffStep { ring: r1, end: Some(RunEnd::BadCode), n, at: 0, value: 0 }
    } else {
        let coeff = sym.unwrap();
        let probe = coeff == 0x0001 && n > 0;
        let r2 = if probe {
            r1.read(1).1
        } else {
            r1
        };
        if probe && r1.read(1).0 == 0 {
            CoeffStep { ring: r2, end: Some(RunEnd::EndOfBlock), n, at: 0, value: 0 }
        } else {
            let (run, level, r3) = read_run_level(r2, coeff);
            if n < 0 || run < 0 || n + run >= 64 {
                CoeffStep { ring: r3, end: Some(RunEnd::Overrun), n, at: 0, value: 0 }
            } else {
                let z = MP1V_ZIG_ZAG[n + run] as int;
                CoeffStep {
                    ring: r3,
                    end: None,
                    n: n + run + 1,
                    at: z,
                    value: dequantize(level, intra, scale, weights[z] as int)
                        * MP1V_PREMULTIPLIER_MATRIX[z],
                }
            }
        }
    }
}

/// Reading one code keeps the buffer well formed and takes bits away only.
pub proof fn lemma_coeff_step(ring: Ring, n: int, intra: bool, scale: int, weights: Seq<u8>)
    requires
        ring.wf(),
    ensures
        coeff_step(ring, n, intra, scale, weights).ring.wf(),
        coeff_step(ring, n, intra, scale, weights).ring.len() <= ring.len(),
        coeff_step(ring, n, intra, scale, weights).ring.cap() == ring.cap(),
{
    reveal(coeff_step);
    ring.lemma_vlc_walk(MP1V_DCT_COEFF@, 0);
    let (sym, r1) = ring.vlc_walk(MP1V_DCT_COEFF@, 0);
    r1.lemma_read(1);
    if sym is Some {
        let coeff = sym.unwrap();
        let probe = coeff == 0x0001 && n > 0;
        let r2 = if probe {
            r1.read(1).1
        } else {
            r1
        };
        r2.lemma_read(1);
        r2.lemma_read(6);
        r2.read(6).1.lemma_read(8);
        r2.read(6).1.read(8).1.lemma_read(8);
    }
}

/// What reading the coefficients of a block leaves behind.
pub struct Coeffs {
    pub ring: Ring,
    /// Number of coefficients passed, those skipped by runs included.
    pub n: int,
    /// The coefficients, dequantized and premultiplied, row by row.
    pub block: Seq<int>,
    pub end: RunEnd,
}

/// Reads coefficients from number `n` on into `block` until the block ends.
pub open spec fn read_coeffs(
    ring: Ring,
    n: int,
    block: Seq<int>,
    intra: bool,
    scale: int,
    weights: Seq<u8>,
) -> Coeffs
    decreases 64 - n,
{
    let step = coeff_step(ring, n, intra, scale, weights);
    match step.end {
        Some(end) => Coeffs { ring: step.ring, n, block, end },
        None => if n < step.n <= 64 {
            read_coeffs(
                step.ring,
                step.n,
                block.update(step.at, step.value),
                intra,
                scale,
                weights,
            )
        } else {
            Coeffs { ring: step.ring, n, block, end: RunEnd::Overrun }
        },
    }
}

/// 2 to the `k`, for the sizes that a DC difference can have.
pub fn pow2(k: u32) -> (r: i64)
    requires
        k <= 8,
    ensures
        r == limit(k as int),
        1 <= r <= 256,
{
    proof {
        reveal_with_fuel(limit, 10);
    }
    let mut r: i64 = 1;
    let mut i: u32 = 0;
    while i < k
        invariant
            i <= k <= 8,
            r == limit(i as int),
            1 <= r <= limit(8),
            limit(8) == 256,
            i < 8 ==> r <= 128,
        decreases k - i,
    {
        proof {
            reveal_with_fuel(limit, 10);
        }
        r = r * 2;
        i = i + 1;
    }
    r
}

/// Dequantizes one level.
pub fn dequantize_level(level: i32, intra: bool, scale: u32, weight: u8) -> (r: i64)
    requires
        -256 <= level <= 255,
    ensures
        r == dequantize(level as int, intra, scale as int, weight as int),
        -2048 <= r <= 2047,
{
    let mut value: i64 = (level as i64) * 2;
    if !intra {
        value = value + if value < 0 {
            -1
        } else {
            1
        };
    }
    let ghost odd: int = value as int;
    assert(-0x2_0100_0000_0000 <= odd * scale * weight <= 0x2_0100_0000_0000) by (nonlinear_arith)
        requires
            -513 <= odd <= 513,
            0 <= scale <= 0xffff_ffff,
            0 <= weight <= 255,
    ;
    assert(-0x201_0000_0000 <= odd * scale <= 0x201_0000_0000) by (nonlinear_arith)
        requires
            -513 <= odd <= 513,
            0 <= scale <= 0xffff_ffff,
    ;
    let product: i64 = value * (scale as i64) * (weight as i64);
    assert(product >> 4 == product / 16) by (bit_vector);
    value = product >> 4;
    assert(((value & 1) == 0) == (value % 2 == 0)) by (bit_vector);
    if (value & 1) == 0 {
        value = value - if value > 0 {
            1
        } else {
            -1
        };
    }
    if value > 2047 {
        value = 2047;
    } else if value < -2048 {
        value = -2048;
    }
    value
}

/// Reads the DC coefficient of an intra block.
pub fn decode_dc(buffer: &mut RingBitBuffer, table: &[(i16, i16)], predictor: i32) -> (r: Option<
    i64,
>)
    requires
        old(buffer).wf(),
    ensures
        final(buffer).wf(),
        final(buffer)@ == read_dc(old(buffer)@, table@, predictor as int).1,
        match read_dc(old(buffer)@, table@, predictor as int).0 {
            None => r is None,
            Some(dc) => r == Some(dc as i64) && r.unwrap() == dc,
        },
{
    proof {
        reveal(read_dc);
    }
    let dct_size: i16 = match buffer.read_vlc(table) {
        None => {
            return None;
        },
        Some(size) => size,
    };
    if dct_size < 0 || dct_size > 8 {
        return None;
    }
    let ghost r1 = buffer@;
    proof {
        buffer.lemma_wf();
    }
    let size: u32 = dct_size as u32;
    let differential: i64 = buffer.read(size as usize) as i64;
    proof {
        r1.lemma_read(size as int);
        limit_table();
    }
    if size == 0 {
        return Some(predictor as i64);
    }
    let half: i64 = pow2(size - 1);
    if differential >= half {
        Some(predictor as i64 + differential)
    } else {
        Some(predictor as i64 + differential + 1 - 2 * half)
    }
}

/// The powers of 2 up to 256.
pub proof fn limit_table()
    ensures
        limit(0) == 1,
        limit(1) == 2,
        limit(2) == 4,
        limit(3) == 8,
        limit(4) == 16,
        limit(5) == 32,
        limit(6) == 64,
        limit(7) == 128,
        limit(8) == 256,
{
    reveal_with_fuel(limit, 10);
}

fn decode_escape(buffer: &mut RingBitBuffer) -> (r: (u32, i32))
    requires
        old(buffer).wf(),
    ensures
        final(buffer).wf(),
        final(buffer)@ == read_escape(old(buffer)@).2,
        r.0 == read_escape(old(buffer)@).0,
        r.1 == read_escape(old(buffer)@).1,
        r.0 < 64,
        -256 <= r.1 <= 255,
{
    proof {
        limit_table();
        buffer.lemma_wf();
        old(buffer)@.lemma_read(6);
        old(buffer)@.read(6).1.lemma_read(8);
        old(buffer)@.read(6).1.read(8).1.lemma_read(8);
    }
    let run: u32 = buffer.read(6);
    let mut level: i32 = buffer.read(8) as i32;
    if level == 0 {
        level = buffer.read(8) as i32;
    } else if level == 128 {
        level = buffer.read(8) as i32 - 256;
    } else if level > 128 {
        level = level - 256;
    }
    (run, level)
}

fn decode_run_level(buffer: &mut RingBitBuffer, coeff: u16) -> (r: (u32, i32))
    requires
        old(buffer).wf(),
    ensures
        final(buffer).wf(),
        final(buffer)@ == read_run_level(old(buffer)@, coeff).2,
        r.0 == read_run_level(old(buffer)@, coeff).0,
        r.1 == read_run_level(old(buffer)@, coeff).1,
        r.0 < 256,
        -256 <= r.1 <= 255,
{
    if coeff == 0xffff {
        decode_escape(buffer)
    } else {
        let run: u32 = (coeff / 256) as u32;
        let mut level: i32 = (coeff % 256) as i32;
        if buffer.read(1) != 0 {
            level = -level;
        }
        (run, level)
    }
}

/// Reads one code of a block where `n` coefficients were passed.
pub fn decode_coeff(
    buffer: &mut RingBitBuffer,
    n: usize,
    intra: bool,
    scale: u32,
    weights: &[u8; 64],
) -> (r: (Option<RunEnd>, usize, usize, i64))
    requires
        old(buffer).wf(),
        n <= 64,
    ensures
        final(buffer).wf(),
        final(buffer)@ == coeff_step(old(buffer)@, n as int, intra, scale as int, weights@).ring,
        r.0 == coeff_step(old(buffer)@, n as int, intra, scale as int, weights@).end,
        r.1 == coeff_step(old(buffer)@, n as int, intra, scale as int, weights@).n,
        r.2 == coeff_step(old(buffer)@, n as int, intra, scale as int, weights@).at,
        r.3 == coeff_step(old(buffer)@, n as int, intra, scale as int, weights@).value,
        r.0 is None ==> n < r.1 <= 64 && r.2 < 64 && -0x8_0000 <= r.3 <= 0x8_0000,
        r.0 is Some ==> r.1 == n,
        r.0 == Some(RunEnd::EndOfBlock) ==> n >= 1,
{
    proof {
        reveal(coeff_step);
    }
    let coeff: u16 = match buffer.read_vlc_u16(&MP1V_DCT_COEFF) {
        None => {
            return (Some(RunEnd::BadCode), n, 0, 0);
        },
        Some(coeff) => coeff,
    };
    if coeff == 0x0001 && n > 0 && buffer.read(1) == 0 {
        return (Some(RunEnd::EndOfBlock), n, 0, 0);
    }
    let (run, level) = decode_run_level(buffer, coeff);
    if n + (run as usize) >= 64 {
        return (Some(RunEnd::Overrun), n, 0, 0);
    }
    let at: usize = MP1V_ZIG_ZAG[n + run as usize];
    let value: i64 = dequantize_level(level, intra, scale, weights[at]);
    let factor: i64 = MP1V_PREMULTIPLIER_MATRIX[at] as i64;
    assert(-0x8_0000 <= value * factor <= 0x8_0000) by (nonlinear_arith)
        requires
            -2048 <= value <= 2047,
            0 <= factor <= 255,
    ;
    (None, n + run as usize + 1, at, value * factor)
}

/// Reads the coefficients of a block from number `first` on into `block`.
/// Returns how the block ended, how many coefficients were passed, and the
/// block.
pub fn decode_coeffs(
    buffer: &mut RingBitBuffer,
    first: usize,
    block: [i64; 64],
    intra: bool,
    scale: u32,
    weights: &[u8; 64],
) -> (r: (RunEnd, usize, [i64; 64]))
    requires
        old(buffer).wf(),
        first <= 1,
        within(block@, IDCT_LIMIT as int),
    ensures
        final(buffer).wf(),
        final(buffer)@ == read_coeffs(
            old(buffer)@,
            first as int,
            ints(block@),
            intra,
            scale as int,
            weights@,
        ).ring,
        r.0 == read_coeffs(
            old(buffer)@,
            first as int,
            ints(block@),
            intra,
            scale as int,
            weights@,
        ).end,
        r.1 == read_coeffs(
            old(buffer)@,
            first as int,
            ints(block@),
            intra,
            scale as int,
            weights@,
        ).n,
        ints(r.2@) == read_coeffs(
            old(buffer)@,
            first as int,
            ints(block@),
            intra,
            scale as int,
            weights@,
        ).block,
        within(r.2@, IDCT_LIMIT as int),
        first <= r.1 <= 64,
        r.0 == RunEnd::EndOfBlock ==> r.1 >= 1,
{
    let mut n: usize = first;
    let mut work: [i64; 64] = block;
    loop
        invariant
            buffer.wf(),
            first <= n <= 64,
            within(work@, IDCT_LIMIT as int),
            read_coeffs(buffer@, n as int, ints(work@), intra, scale as int, weights@)
                == read_coeffs(
                old(buffer)@,
                first as int,
                ints(block@),
                intra,
                scale as int,
                weights@,
            ),
        decreases 64 - n,
    {
        let (end, next, at, value) = decode_coeff(buffer, n, intra, scale, weights);
        match end {
            Some(end) => {
                return (end, n, work);
            },
            None => {},
        }
        let ghost before = work;
        work[at] = value;
        n = next;
        proof {
            assert(ints(work@) =~= ints(before@).update(at as int, value as int));
        }
    }
}

} // verus!
