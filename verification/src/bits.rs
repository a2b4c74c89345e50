//! Bit-level model of a byte buffer, read most significant bit first, and the
//! one routine that extracts a run of bits from it.
use vstd::prelude::*;

verus! {

/// `x` folded back once into `0..m`.
pub open spec fn wrap(x: int, m: int) -> int {
    if x >= m {
        x - m
    } else {
        x
    }
}

/// Bit `k` of a byte, counted from the most significant bit (`k == 0`).
pub open spec fn bit_of(b: u8, k: int) -> int {
    ((b >> ((7 - k) as u8)) & 1) as int
}

/// Bit `i` of the buffer, where positions at or beyond the end wrap round to
/// the start.
pub open spec fn bit_at(buf: Seq<u8>, i: int) -> int {
    bit_of(buf[wrap(i, 8 * (buf.len() as int)) / 8], i % 8)
}

/// The number whose binary digits are the `n` bits of the buffer from
/// position `pos` on, first bit most significant.
pub open spec fn bits_val(buf: Seq<u8>, pos: int, n: int) -> int
    decreases n,
{
    if n <= 0 {
        0
    } else {
        2 * bits_val(buf, pos, n - 1) + bit_at(buf, pos + n - 1)
    }
}

/// Every bit is 0 or 1.
pub proof fn lemma_bit_range(buf: Seq<u8>, i: int)
    ensures
        0 <= bit_at(buf, i) <= 1,
{
    let b = buf[wrap(i, 8 * (buf.len() as int)) / 8];
    let s = (7 - i % 8) as u8;
    assert((b >> s) & 1 <= 1) by (bit_vector);
}

/// The greatest number of `n` bits, plus one.
pub open spec fn limit(n: int) -> int
    decreases n,
{
    if n <= 0 {
        1
    } else {
        2 * limit(n - 1)
    }
}

/// A run of `n` bits is a number below 2 to the `n`.
pub proof fn lemma_bits_val_bound(buf: Seq<u8>, pos: int, n: int)
    ensures
        0 <= bits_val(buf, pos, n) < limit(n),
        n == 2 ==> limit(n) == 4,
        n == 3 ==> limit(n) == 8,
        n == 4 ==> limit(n) == 0x10,
        n == 5 ==> limit(n) == 0x20,
        n == 6 ==> limit(n) == 0x40,
        n == 8 ==> limit(n) == 0x100,
        n == 12 ==> limit(n) == 0x1000,
        n == 13 ==> limit(n) == 0x2000,
        n == 16 ==> limit(n) == 0x1_0000,
    decreases n,
{
    reveal_with_fuel(limit, 17);
    if n > 0 {
        lemma_bits_val_bound(buf, pos, n - 1);
        lemma_bit_range(buf, pos + n - 1);
    }
}

/// Bits that lie inside a buffer stay what they are when bytes are appended
/// to it.
pub proof fn lemma_bits_val_prefix(a: Seq<u8>, b: Seq<u8>, pos: int, n: int)
    requires
        0 <= pos,
        pos + n <= 8 * a.len(),
    ensures
        bits_val(a + b, pos, n) == bits_val(a, pos, n),
    decreases n,
{
    if n > 0 {
        lemma_bits_val_prefix(a, b, pos, n - 1);
        assert((a + b)[(pos + n - 1) / 8] == a[(pos + n - 1) / 8]);
    }
}

/// Eight bits that start at a byte boundary are that byte.
pub proof fn lemma_byte_val(buf: Seq<u8>, pos: int)
    requires
        buf.len() > 0,
        0 <= pos < 16 * buf.len(),
        pos % 8 == 0,
    ensures
        bits_val(buf, pos, 8) == buf[wrap(pos, 8 * (buf.len() as int)) / 8],
{
    let b = buf[wrap(pos, 8 * (buf.len() as int)) / 8];
    reveal_with_fuel(bits_val, 9);
    assert(b == 2 * (2 * (2 * (2 * (2 * (2 * (2 * ((b >> 7u8) & 1) + ((b >> 6u8) & 1)) + ((b
        >> 5u8) & 1)) + ((b >> 4u8) & 1)) + ((b >> 3u8) & 1)) + ((b >> 2u8) & 1)) + ((b >> 1u8)
        & 1)) + ((b >> 0u8) & 1)) by (bit_vector);
}

/// The `j` bits of `b` that start at bit `o`, as a number.
pub open spec fn chunk_of(b: u32, o: u32, j: u32) -> u32 {
    (b >> ((8 - o - j) as u32)) & (0xffu32 >> ((8 - j) as u32))
}

/// The value `v` with the `j` bits of `b` that start at bit `o` shifted in.
pub open spec fn shift_in(v: u32, b: u32, o: u32, j: u32) -> u32 {
    (v << j) | chunk_of(b, o, j)
}

proof fn lemma_chunk_step(v: u32, b: u32, o: u32, j: u32)
    requires
        b < 256,
        1 <= j,
        o + j <= 8,
        v >> ((32 - j) as u32) == 0,
    ensures
        shift_in(v, b, o, j) == 2 * shift_in(v, b, o, (j - 1) as u32) + ((b >> ((8 - o
            - j) as u32)) & 1),
{
    assert(b < 256 && 1 <= j && o + j <= 8 && v >> ((32 - j) as u32) == 0 ==> (v << j) | ((b >> ((8
        - o - j) as u32)) & (0xffu32 >> ((8 - j) as u32))) == 2 * ((v << ((j - 1) as u32)) | ((b
        >> ((8 - o - (j - 1) as u32) as u32)) & (0xffu32 >> ((8 - (j - 1) as u32) as u32)))) + ((b
        >> ((8 - o - j) as u32)) & 1)) by (bit_vector);
}

proof fn lemma_shift_in_bounds(v: u32, b: u32, o: u32, j: u32, d: u32)
    requires
        b < 256,
        o + j <= 8,
        d + j <= 32,
        d < 32 ==> v >> d == 0,
    ensures
        shift_in(v, b, o, 0) == v,
        j >= 1 ==> v >> ((32 - j) as u32) == 0,
        d + j < 32 ==> shift_in(v, b, o, j) >> ((d + j) as u32) == 0,
{
    assert((v << 0u32) | ((b >> ((8 - o - 0u32) as u32)) & (0xffu32 >> ((8 - 0u32) as u32)))
        == v) by (bit_vector);
    assert(d < 32 && j >= 1 && d + j <= 32 && v >> d == 0 ==> v >> ((32 - j) as u32) == 0)
        by (bit_vector);
    assert(b < 256 && o + j <= 8 && d + j < 32 && v >> d == 0 ==> ((v << j) | ((b >> ((8 - o
        - j) as u32)) & (0xffu32 >> ((8 - j) as u32)))) >> ((d + j) as u32) == 0)
        by (bit_vector);
}

proof fn lemma_same_byte(n: int, p: int, t: int)
    requires
        n > 0,
        0 <= p < 16 * n,
        0 <= t,
        p % 8 + t < 8,
    ensures
        wrap(p + t, 8 * n) / 8 == wrap(p, 8 * n) / 8,
        (p + t) % 8 == p % 8 + t,
{
}

proof fn lemma_bit_of_u32(byte: u8, k: int)
    requires
        0 <= k < 8,
    ensures
        bit_of(byte, k) == (((byte as u32) >> ((7 - k) as u32)) & 1) as int,
{
    let s8 = (7 - k) as u8;
    let s32 = (7 - k) as u32;
    assert(s8 < 8 && s32 == s8 as u32 ==> ((byte >> s8) & 1) as u32 == (((byte as u32) >> s32)
        & 1)) by (bit_vector);
}

/// Extends a value read so far by the next `j` bits, all of which lie in one
/// byte: shifting the chunk in gives the value of the longer run.
proof fn lemma_chunk(buf: Seq<u8>, s: int, done: int, v: u32, o: int, j: int)
    requires
        buf.len() > 0,
        0 <= s,
        0 <= done,
        0 <= j,
        done + j <= 32,
        s + done + j <= 16 * buf.len(),
        o == (s + done) % 8,
        o + j <= 8,
        v as int == bits_val(buf, s, done),
        done < 32 ==> v >> (done as u32) == 0,
    ensures
        shift_in(
            v,
            buf[wrap(s + done, 8 * (buf.len() as int)) / 8] as u32,
            o as u32,
            j as u32,
        ) as int == bits_val(buf, s, done + j),
    decreases j,
{
    let byte = buf[wrap(s + done, 8 * (buf.len() as int)) / 8];
    let b = byte as u32;
    let ou = o as u32;
    let ju = j as u32;
    let du = done as u32;
    lemma_shift_in_bounds(v, b, ou, ju, du);
    if j > 0 {
        let jm = (j - 1) as u32;
        lemma_chunk(buf, s, done, v, o, j - 1);
        lemma_chunk_step(v, b, ou, ju);
        let last = s + done + j - 1;
        lemma_same_byte(buf.len() as int, s + done, j - 1);
        lemma_bit_of_u32(byte, o + j - 1);
        assert(bit_at(buf, last) == ((b >> ((8 - ou - ju) as u32)) & 1) as int);
        assert(shift_in(v, b, ou, ju) == 2 * shift_in(v, b, ou, jm) + ((b >> ((8 - ou - ju) as u32))
            & 1));
    }
}

/// Reads `count` bits of `buf` from bit position `pos` on, wrapping round at
/// the end of the buffer.
pub fn read_bits(buf: &[u8], pos: usize, count: usize) -> (value: u32)
    requires
        8 * buf.len() + 8 <= usize::MAX,
        pos < 8 * buf.len(),
        count <= 32,
        count <= 8 * buf.len(),
    ensures
        value as int == bits_val(buf@, pos as int, count as int),
{
    let cap8: usize = buf.len() * 8;
    let mut value: u32 = 0;
    let mut done: usize = 0;
    let mut p: usize = pos;
    assert(0u32 >> 0u32 == 0) by (bit_vector);
    while done < count
        invariant
            8 * buf.len() + 8 <= usize::MAX,
            cap8 == 8 * buf.len(),
            pos < cap8,
            count <= 32,
            count <= cap8,
            done <= count,
            p as int == wrap(pos + done, cap8 as int),
            p < cap8,
            value as int == bits_val(buf@, pos as int, done as int),
            done < 32 ==> value >> (done as u32) == 0,
        decreases count - done,
    {
        let byte: u32 = buf[p / 8] as u32;
        let off: usize = p % 8;
        let remaining: usize = 8 - off;
        let take: usize = if remaining < count - done {
            remaining
        } else {
            count - done
        };
        let shift: usize = remaining - take;
        let chunk: u32 = (byte >> (shift as u32)) & (0xffu32 >> ((8 - take) as u32));
        proof {
            lemma_chunk(buf@, pos as int, done as int, value, off as int, take as int);
            lemma_shift_in_bounds(value, byte, off as u32, take as u32, done as u32);
        }
        value = (value << (take as u32)) | chunk;
        p = p + take;
        if p >= cap8 {
            p = p - cap8;
        }
        done = done + take;
    }
    value
}

} // verus!
