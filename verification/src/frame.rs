//! Frames as planes in one array of pixels, and the two ways in which a
//! block of pixels is written: predicted from a reference, and from
//! decoded values.
use vstd::prelude::*;
use crate::idct::ints;

verus! {

/// One plane of a frame inside the array of pixels.
#[derive(Debug, Default, Clone, Copy)]
pub struct VideoPlane {
    /// Where the plane starts.
    pub base: usize,
    pub width: u32,
    pub height: u32,
}

/// A frame: the size of the picture and its three planes, whose sizes are
/// whole macroblocks.
#[derive(Debug, Default, Clone, Copy)]
pub struct VideoFrame {
    pub width: u32,
    pub height: u32,
    pub y: VideoPlane,
    pub cb: VideoPlane,
    pub cr: VideoPlane,
}

/// How far beyond a pixel its prediction reads: one row where the vertical
/// part of the vector is odd, one pixel where the horizontal part is.
pub open spec fn reach(dw: int, odd_h: bool, odd_v: bool) -> int {
    (if odd_v {
        dw
    } else {
        0
    }) + (if odd_h {
        1int
    } else {
        0int
    })
}

/// The prediction of one pixel from the pixel at `s`: that pixel, or the
/// rounded mean of it and its neighbours to the right and below, as the
/// halves of the vector ask.
pub open spec fn predicted(arena: Seq<u8>, s: int, dw: int, odd_h: bool, odd_v: bool) -> u8 {
    if odd_h && odd_v {
        ((arena[s] + arena[s + 1] + arena[s + dw] + arena[s + dw + 1] + 2) / 4) as u8
    } else if odd_h {
        ((arena[s] + arena[s + 1] + 1) / 2) as u8
    } else if odd_v {
        ((arena[s] + arena[s + dw] + 1) / 2) as u8
    } else {
        arena[s]
    }
}

/// The pixels after `count` pixels of one row were predicted, one after the
/// other, from `s` on into `d` on.
pub open spec fn predict_row(
    arena: Seq<u8>,
    s: int,
    d: int,
    dw: int,
    odd_h: bool,
    odd_v: bool,
    count: int,
) -> Seq<u8>
    decreases count,
{
    if count <= 0 {
        arena
    } else {
        predict_row(
            arena.update(d, predicted(arena, s, dw, odd_h, odd_v)),
            s + 1,
            d + 1,
            dw,
            odd_h,
            odd_v,
            count - 1,
        )
    }
}

/// The pixels after `rows` rows of `size` pixels were predicted, one after
/// the other, in lines that are `dw` pixels apart.
pub open spec fn predict_rows(
    arena: Seq<u8>,
    s: int,
    d: int,
    dw: int,
    size: int,
    odd_h: bool,
    odd_v: bool,
    rows: int,
) -> Seq<u8>
    decreases rows,
{
    if rows <= 0 {
        arena
    } else {
        predict_rows(
            predict_row(arena, s, d, dw, odd_h, odd_v, size),
            s + dw,
            d + dw,
            dw,
            size,
            odd_h,
            odd_v,
            rows - 1,
        )
    }
}

/// `x` cut to the range of a pixel.
pub open spec fn clamp255(x: int) -> u8 {
    if x > 255 {
        255
    } else if x < 0 {
        0
    } else {
        x as u8
    }
}

/// The pixels after `count` values from `vals[vi]` on were written into one
/// row from `d` on: in place of what was there, or added to it.
pub open spec fn store_row(
    arena: Seq<u8>,
    d: int,
    vals: Seq<int>,
    vi: int,
    add: bool,
    count: int,
) -> Seq<u8>
    decreases count,
{
    if count <= 0 {
        arena
    } else {
        store_row(
            arena.update(
                d,
                clamp255(
                    (if add {
                        arena[d] as int
                    } else {
                        0
                    }) + vals[vi],
                ),
            ),
            d + 1,
            vals,
            vi + 1,
            add,
            count - 1,
        )
    }
}

/// The pixels after `rows` rows of eight values were written, in lines that
/// are `dw` pixels apart.
pub open spec fn store_rows(
    arena: Seq<u8>,
    d: int,
    dw: int,
    vals: Seq<int>,
    vi: int,
    add: bool,
    rows: int,
) -> Seq<u8>
    decreases rows,
{
    if rows <= 0 {
        arena
    } else {
        store_rows(store_row(arena, d, vals, vi, add, 8), d + dw, dw, vals, vi + 8, add, rows - 1)
    }
}

/// The pixels after a block of 8 by 8 values was written at `d`.
pub open spec fn store_block(arena: Seq<u8>, d: int, dw: int, vals: Seq<int>, add: bool) -> Seq<
    u8,
> {
    store_rows(arena, d, dw, vals, 0, add, 8)
}

/// The pixels after a block of `size` by `size` pixels at `d` was predicted
/// from the block at `s`.
pub open spec fn predict_block(
    arena: Seq<u8>,
    s: int,
    d: int,
    dw: int,
    size: int,
    odd_h: bool,
    odd_v: bool,
) -> Seq<u8> {
    predict_rows(arena, s, d, dw, size, odd_h, odd_v, size)
}

fn plm_clamp(x: i64) -> (r: u8)
    ensures
        r == clamp255(x as int),
{
    if x > 255 {
        return 255;
    }
    if x < 0 {
        return 0;
    }
    return x as u8;
}

/// Writes a block of 8 by 8 values at `dst`.
pub fn write_block(arena: &mut Vec<u8>, dst: usize, dw: usize, vals: &[i64; 64], add: bool)
    requires
        dw >= 8,
        dst + 7 * dw + 7 < old(arena).len(),
        forall|i: int| 0 <= i < 64 ==> -0x4000_0000_0000_0000 <= #[trigger] vals[i]
            <= 0x4000_0000_0000_0000,
    ensures
        final(arena)@ == store_block(old(arena)@, dst as int, dw as int, ints(vals@), add),
        final(arena).len() == old(arena).len(),
{
    let mut di: usize = dst;
    let mut si: usize = 0;
    let mut y: usize = 0;
    while y < 8
        invariant
            y <= 8,
            dw >= 8,
            arena.len() == old(arena).len(),
            y < 8 ==> di + (7 - y) * dw + 7 < arena.len(),
            si == 8 * y,
            forall|i: int| 0 <= i < 64 ==> -0x4000_0000_0000_0000 <= #[trigger] vals[i]
                <= 0x4000_0000_0000_0000,
            store_rows(arena@, di as int, dw as int, ints(vals@), si as int, add, 8 - y)
                == store_block(old(arena)@, dst as int, dw as int, ints(vals@), add),
        decreases 8 - y,
    {
        let ghost row_start = arena@;
        let ghost d0 = di;
        let ghost s0 = si;
        assert((7 - y) * dw >= 0) by (nonlinear_arith)
            requires
                7 - y >= 0,
                dw >= 0,
        ;
        let mut x: usize = 0;
        while x < 8
            invariant
                x <= 8,
                y < 8,
                dw >= 8,
                arena.len() == old(arena).len(),
                d0 + 7 < arena.len(),
                di == d0 + x,
                s0 == 8 * y,
                si == s0 + x,
                forall|i: int| 0 <= i < 64 ==> -0x4000_0000_0000_0000 <= #[trigger] vals[i]
                    <= 0x4000_0000_0000_0000,
                store_row(arena@, di as int, ints(vals@), si as int, add, 8 - x) == store_row(
                    row_start,
                    d0 as int,
                    ints(vals@),
                    s0 as int,
                    add,
                    8,
                ),
            decreases 8 - x,
        {
            let old_value: i64 = if add {
                arena[di] as i64
            } else {
                0
            };
            arena[di] = plm_clamp(old_value + vals[si]);
            di = di + 1;
            si = si + 1;
            x = x + 1;
        }
        assert(arena@ == store_row(row_start, d0 as int, ints(vals@), s0 as int, add, 8));
        assert(store_rows(row_start, d0 as int, dw as int, ints(vals@), s0 as int, add, 8 - y)
            == store_rows(arena@, d0 + dw, dw as int, ints(vals@), s0 + 8, add, 8 - y - 1));
        y = y + 1;
        if y < 8 {
            assert((7 - (y - 1)) * dw == (7 - y) * dw + dw) by (nonlinear_arith);
            di = di + (dw - 8);
        }
    }
}

/// Predicts a block of `size` by `size` pixels at `dst` from the block at
/// `src`.
pub fn copy_block(
    arena: &mut Vec<u8>,
    src: usize,
    dst: usize,
    dw: usize,
    size: usize,
    odd_h: bool,
    odd_v: bool,
)
    requires
        1 <= size <= 16,
        dw >= size,
        src + (size - 1) * dw + (size - 1) + reach(dw as int, odd_h, odd_v) < old(arena).len(),
        dst + (size - 1) * dw + (size - 1) < old(arena).len(),
    ensures
        final(arena)@ == predict_block(
            old(arena)@,
            src as int,
            dst as int,
            dw as int,
            size as int,
            odd_h,
            odd_v,
        ),
        final(arena).len() == old(arena).len(),
{
    let mut di: usize = dst;
    let mut si: usize = src;
    let mut y: usize = 0;
    while y < size
        invariant
            y <= size,
            1 <= size <= 16,
            dw >= size,
            arena.len() == old(arena).len(),
            y < size ==> si + (size - 1 - y) * dw + (size - 1) + reach(dw as int, odd_h, odd_v)
                < arena.len(),
            y < size ==> di + (size - 1 - y) * dw + (size - 1) < arena.len(),
            predict_rows(
                arena@,
                si as int,
                di as int,
                dw as int,
                size as int,
                odd_h,
                odd_v,
                size - y,
            ) == predict_block(
                old(arena)@,
                src as int,
                dst as int,
                dw as int,
                size as int,
                odd_h,
                odd_v,
            ),
        decreases size - y,
    {
        let ghost row_start = arena@;
        let ghost s0 = si;
        let ghost d0 = di;
        assert((size - 1 - y) * dw >= 0) by (nonlinear_arith)
            requires
                size - 1 - y >= 0,
                dw >= 0,
        ;
        let mut x: usize = 0;
        while x < size
            invariant
                x <= size,
                1 <= size <= 16,
                dw >= size,
                arena.len() == old(arena).len(),
                s0 + (size - 1) + reach(dw as int, odd_h, odd_v) < arena.len(),
                d0 + (size - 1) < arena.len(),
                si == s0 + x,
                di == d0 + x,
                predict_row(arena@, si as int, di as int, dw as int, odd_h, odd_v, size - x)
                    == predict_row(
                    row_start,
                    s0 as int,
                    d0 as int,
                    dw as int,
                    odd_h,
                    odd_v,
                    size as int,
                ),
            decreases size - x,
        {
            let pixel: u32 = match (odd_h, odd_v) {
                (false, false) => arena[si] as u32,
                (false, true) => (arena[si] as u32 + arena[si + dw] as u32 + 1) / 2,
                (true, false) => (arena[si] as u32 + arena[si + 1] as u32 + 1) / 2,
                (true, true) => (arena[si] as u32 + arena[si + 1] as u32 + arena[si + dw] as u32
                    + arena[si + dw + 1] as u32 + 2) / 4,
            };
            arena[di] = pixel as u8;
            di = di + 1;
            si = si + 1;
            x = x + 1;
        }
        assert(arena@ == predict_row(
            row_start,
            s0 as int,
            d0 as int,
            dw as int,
            odd_h,
            odd_v,
            size as int,
        ));
        assert(predict_rows(
            row_start,
            s0 as int,
            d0 as int,
            dw as int,
            size as int,
            odd_h,
            odd_v,
            size - y,
        ) == predict_rows(
            arena@,
            s0 + dw,
            d0 + dw,
            dw as int,
            size as int,
            odd_h,
            odd_v,
            size - y - 1,
        ));
        y = y + 1;
        if y < size {
            assert((size - 1 - (y - 1)) * dw == (size - 1 - y) * dw + dw) by (nonlinear_arith);
            di = di + (dw - size);
            si = si + (dw - size);
        }
    }
}

} // verus!
