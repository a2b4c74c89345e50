//! The inverse cosine transform of a block of 8 by 8 coefficients, in the
//! integer form that MPEG-1 decoders share: a pass over the columns, then a
//! pass over the rows, each an 8-point butterfly.
use vstd::prelude::*;

verus! {

/// `x` divided by 256 and rounded to the nearest whole number, halves
/// upwards.
pub open spec fn round256(x: int) -> int {
    (x + 128) / 256
}

/// The 8-point butterfly on eight numbers.
pub open spec fn butterfly_of(
    a0: int,
    a1: int,
    a2: int,
    a3: int,
    a4: int,
    a5: int,
    a6: int,
    a7: int,
) -> Seq<int> {
    let b1 = a4;
    let b3 = a2 + a6;
    let b4 = a5 - a3;
    let tmp1 = a1 + a7;
    let tmp2 = a3 + a5;
    let b6 = a1 - a7;
    let b7 = tmp1 + tmp2;
    let m0 = a0;
    let x4 = round256(b6 * 473 - b4 * 196) - b7;
    let x0 = x4 - round256((tmp1 - tmp2) * 362);
    let x1 = m0 - b1;
    let x2 = round256((a2 - a6) * 362) - b3;
    let x3 = m0 + b1;
    let y3 = x1 + x2;
    let y4 = x3 + b3;
    let y5 = x1 - x2;
    let y6 = x3 - b3;
    let y7 = -x0 - round256(b4 * 473 + b6 * 196);
    seq![b7 + y4, x4 + y3, y5 - x0, y6 - y7, y6 + y7, x0 + y5, y3 - x4, y4 - b7]
}

/// The 8-point butterfly on `a[0]` to `a[7]`.
pub open spec fn butterfly(a: Seq<int>) -> Seq<int> {
    butterfly_of(a[0], a[1], a[2], a[3], a[4], a[5], a[6], a[7])
}

/// Column `c` of a block that is stored row by row.
pub open spec fn column(b: Seq<int>, c: int) -> Seq<int> {
    seq![b[c], b[8 + c], b[16 + c], b[24 + c], b[32 + c], b[40 + c], b[48 + c], b[56 + c]]
}

/// Row `r` of a block that is stored row by row.
pub open spec fn row(b: Seq<int>, r: int) -> Seq<int> {
    seq![
        b[8 * r],
        b[8 * r + 1],
        b[8 * r + 2],
        b[8 * r + 3],
        b[8 * r + 4],
        b[8 * r + 5],
        b[8 * r + 6],
        b[8 * r + 7],
    ]
}

/// The block with every column transformed.
pub open spec fn idct_columns(b: Seq<int>) -> Seq<int> {
    Seq::new(64, |i: int| butterfly(column(b, i % 8))[i / 8])
}

/// The block with every row transformed and scaled down by 256.
pub open spec fn idct_rows(b: Seq<int>) -> Seq<int> {
    Seq::new(64, |i: int| round256(butterfly(row(b, i / 8))[i % 8]))
}

/// The inverse transform of a block of premultiplied coefficients.
#[verifier::opaque]
pub open spec fn idct_of(b: Seq<int>) -> Seq<int> {
    idct_rows(idct_columns(b))
}

/// The numbers of a block as mathematical integers.
pub open spec fn ints(b: Seq<i64>) -> Seq<int> {
    Seq::new(b.len(), |i: int| b[i] as int)
}

/// Every number of the block is at most `m` in magnitude.
pub open spec fn within(b: Seq<i64>, m: int) -> bool {
    forall|i: int| 0 <= i < b.len() ==> -m <= #[trigger] b[i] <= m
}

/// Largest magnitude of a coefficient that the transform takes.
pub const IDCT_LIMIT: i64 = 0x1_0000_0000;

/// The block that is 0 but for its first coefficient `v`.
pub open spec fn dc_only(v: int) -> Seq<int> {
    Seq::new(
        64,
        |i: int|
            if i == 0 {
                v
            } else {
                0
            },
    )
}

/// The block whose numbers all are `v`.
pub open spec fn flat(v: int) -> Seq<int> {
    Seq::new(64, |i: int| v)
}

/// A block that holds nothing but its first coefficient is transformed into
/// a flat block: every number is that coefficient scaled down by 256, which
/// is what a decoder fills in without transforming.
pub proof fn lemma_idct_dc_only(v: int)
    ensures
        idct_of(dc_only(v)) == flat(round256(v)),
{
    reveal(idct_of);
    let b = dc_only(v);
    let c = idct_columns(b);
    assert forall|i: int| 0 <= i < 64 implies #[trigger] c[i] == if i % 8 == 0 {
        v
    } else {
        0
    } by {
        let col = column(b, i % 8);
        if i % 8 == 0 {
            assert(col =~= seq![v, 0, 0, 0, 0, 0, 0, 0]);
        } else {
            assert(col =~= seq![0, 0, 0, 0, 0, 0, 0, 0]);
        }
    }
    assert forall|i: int| 0 <= i < 64 implies #[trigger] idct_rows(c)[i] == round256(v) by {
        assert(row(c, i / 8) =~= seq![v, 0, 0, 0, 0, 0, 0, 0]);
    }
    assert(idct_of(b) =~= flat(round256(v)));
}

/// The transform of coefficients of at most `IDCT_LIMIT` in magnitude
/// gives values that fit into 64 bits many times over.
#[verifier::spinoff_prover]
#[verifier::rlimit(60)]
pub proof fn lemma_idct_range(b: Seq<int>)
    requires
        b.len() == 64,
        forall|i: int| 0 <= i < 64 ==> -IDCT_LIMIT <= #[trigger] b[i] <= IDCT_LIMIT,
    ensures
        forall|i: int|
            0 <= i < 64 ==> -0x4000_0000_0000_0000 <= #[trigger] idct_of(b)[i]
                <= 0x4000_0000_0000_0000,
{
    reveal(idct_of);
    let c = idct_columns(b);
    assert forall|i: int| 0 <= i < 64 implies -BUTTERFLY_LIMIT <= #[trigger] c[i]
        <= BUTTERFLY_LIMIT by {
        let k = i % 8;
        lemma_butterfly_bound(
            b[k],
            b[8 + k],
            b[16 + k],
            b[24 + k],
            b[32 + k],
            b[40 + k],
            b[48 + k],
            b[56 + k],
            IDCT_LIMIT as int,
        );
    }
    assert forall|i: int| 0 <= i < 64 implies -0x4000_0000_0000_0000 <= #[trigger] idct_of(b)[i]
        <= 0x4000_0000_0000_0000 by {
        let r = i / 8;
        lemma_butterfly_bound(
            c[8 * r],
            c[8 * r + 1],
            c[8 * r + 2],
            c[8 * r + 3],
            c[8 * r + 4],
            c[8 * r + 5],
            c[8 * r + 6],
            c[8 * r + 7],
            BUTTERFLY_LIMIT as int,
        );
    }
}

/// `x` divided by 256 and rounded to the nearest whole number.
pub fn div256(x: i64) -> (r: i64)
    requires
        -0x4000_0000_0000_0000 <= x <= 0x4000_0000_0000_0000,
    ensures
        r == round256(x as int),
        256 * r <= x + 128 < 256 * r + 256,
{
    let y: i64 = x + 128;
    assert(y >> 8 == y / 256) by (bit_vector);
    y >> 8
}

/// Largest magnitude of a number that the butterfly takes.
pub const BUTTERFLY_LIMIT: i64 = 0x40_0000_0000;

/// The butterfly on numbers of at most `m` in magnitude gives numbers of at
/// most `64 * m + 64`.
proof fn lemma_butterfly_bound(
    a0: int,
    a1: int,
    a2: int,
    a3: int,
    a4: int,
    a5: int,
    a6: int,
    a7: int,
    m: int,
)
    requires
        -m <= a0 <= m,
        -m <= a1 <= m,
        -m <= a2 <= m,
        -m <= a3 <= m,
        -m <= a4 <= m,
        -m <= a5 <= m,
        -m <= a6 <= m,
        -m <= a7 <= m,
    ensures
        forall|i: int|
            0 <= i < 8 ==> -64 * m - 64 <= #[trigger] butterfly_of(
                a0,
                a1,
                a2,
                a3,
                a4,
                a5,
                a6,
                a7,
            )[i] <= 64 * m + 64,
{
    let b4 = a5 - a3;
    let tmp1 = a1 + a7;
    let tmp2 = a3 + a5;
    let b6 = a1 - a7;
    assert(-6 * m - 1 <= round256(b6 * 473 - b4 * 196) <= 6 * m + 1);
    assert(-6 * m - 1 <= round256((tmp1 - tmp2) * 362) <= 6 * m + 1);
    assert(-3 * m - 1 <= round256((a2 - a6) * 362) <= 3 * m + 1);
    assert(-6 * m - 1 <= round256(b4 * 473 + b6 * 196) <= 6 * m + 1);
}

#[verifier::spinoff_prover]
#[verifier::rlimit(60)]
fn butterfly8(a0: i64, a1: i64, a2: i64, a3: i64, a4: i64, a5: i64, a6: i64, a7: i64) -> (r: [i64;
    8])
    requires
        -BUTTERFLY_LIMIT <= a0 <= BUTTERFLY_LIMIT,
        -BUTTERFLY_LIMIT <= a1 <= BUTTERFLY_LIMIT,
        -BUTTERFLY_LIMIT <= a2 <= BUTTERFLY_LIMIT,
        -BUTTERFLY_LIMIT <= a3 <= BUTTERFLY_LIMIT,
        -BUTTERFLY_LIMIT <= a4 <= BUTTERFLY_LIMIT,
        -BUTTERFLY_LIMIT <= a5 <= BUTTERFLY_LIMIT,
        -BUTTERFLY_LIMIT <= a6 <= BUTTERFLY_LIMIT,
        -BUTTERFLY_LIMIT <= a7 <= BUTTERFLY_LIMIT,
    ensures
        forall|i: int|
            0 <= i < 8 ==> #[trigger] r[i] as int == butterfly_of(
                a0 as int,
                a1 as int,
                a2 as int,
                a3 as int,
                a4 as int,
                a5 as int,
                a6 as int,
                a7 as int,
            )[i],
{
    let b1: i64 = a4;
    let b3: i64 = a2 + a6;
    let b4: i64 = a5 - a3;
    let tmp1: i64 = a1 + a7;
    let tmp2: i64 = a3 + a5;
    let b6: i64 = a1 - a7;
    let b7: i64 = tmp1 + tmp2;
    let m0: i64 = a0;
    let x4: i64 = div256(b6 * 473 - b4 * 196) - b7;
    let x0: i64 = x4 - div256((tmp1 - tmp2) * 362);
    let x1: i64 = m0 - b1;
    let x2: i64 = div256((a2 - a6) * 362) - b3;
    let x3: i64 = m0 + b1;
    let y3: i64 = x1 + x2;
    let y4: i64 = x3 + b3;
    let y5: i64 = x1 - x2;
    let y6: i64 = x3 - b3;
    let y7: i64 = -x0 - div256(b4 * 473 + b6 * 196);
    [b7 + y4, x4 + y3, y5 - x0, y6 - y7, y6 + y7, x0 + y5, y3 - x4, y4 - b7]
}

/// Transforms a block of premultiplied coefficients.
#[verifier::spinoff_prover]
#[verifier::rlimit(60)]
pub fn idct(block: [i64; 64]) -> (r: [i64; 64])
    requires
        within(block@, IDCT_LIMIT as int),
    ensures
        ints(r@) == idct_of(ints(block@)),
{
    let mut mid: [i64; 64] = [0i64; 64];
    let mut i: usize = 0;
    while i < 8
        invariant
            i <= 8,
            within(block@, IDCT_LIMIT as int),
            forall|k: int|
                0 <= k < 64 && k % 8 < i ==> #[trigger] mid[k] as int == idct_columns(
                    ints(block@),
                )[k],
            forall|k: int|
                0 <= k < 64 ==> -BUTTERFLY_LIMIT <= #[trigger] mid[k] <= BUTTERFLY_LIMIT,
        decreases 8 - i,
    {
        let col: [i64; 8] = [
            block[i],
            block[8 + i],
            block[16 + i],
            block[24 + i],
            block[32 + i],
            block[40 + i],
            block[48 + i],
            block[56 + i],
        ];
        assert(ints(col@) =~= column(ints(block@), i as int));
        let out: [i64; 8] = butterfly8(
            col[0],
            col[1],
            col[2],
            col[3],
            col[4],
            col[5],
            col[6],
            col[7],
        );
        proof {
            lemma_butterfly_bound(
                col[0] as int,
                col[1] as int,
                col[2] as int,
                col[3] as int,
                col[4] as int,
                col[5] as int,
                col[6] as int,
                col[7] as int,
                IDCT_LIMIT as int,
            );
            assert(ints(out@) =~= butterfly(ints(col@)));
        }
        let ghost prev = mid;
        let mut r: usize = 0;
        while r < 8
            invariant
                r <= 8,
                i < 8,
                within(out@, BUTTERFLY_LIMIT as int),
                forall|k: int|
                    0 <= k < 64 ==> #[trigger] mid[k] == if k % 8 == i && k / 8 < r {
                        out[k / 8]
                    } else {
                        prev[k]
                    },
            decreases 8 - r,
        {
            mid[8 * r + i] = out[r];
            r = r + 1;
        }
        proof {
            assert forall|k: int| 0 <= k < 64 && k % 8 < i + 1 implies #[trigger] mid[k] as int
                == idct_columns(ints(block@))[k] by {
                if k % 8 == i {
                    assert(ints(out@)[k / 8] == out[k / 8]);
                }
            }
        }
        i = i + 1;
    }
    assert(ints(mid@) =~= idct_columns(ints(block@)));
    let mut work: [i64; 64] = [0i64; 64];
    let mut j: usize = 0;
    while j < 8
        invariant
            j <= 8,
            within(mid@, BUTTERFLY_LIMIT as int),
            forall|k: int|
                0 <= k < 64 && k / 8 < j ==> #[trigger] work[k] as int == idct_rows(ints(mid@))[k],
        decreases 8 - j,
    {
        let at: usize = j * 8;
        let line: [i64; 8] = [
            mid[at],
            mid[at + 1],
            mid[at + 2],
            mid[at + 3],
            mid[at + 4],
            mid[at + 5],
            mid[at + 6],
            mid[at + 7],
        ];
        assert(ints(line@) =~= row(ints(mid@), j as int));
        let out: [i64; 8] = butterfly8(
            line[0],
            line[1],
            line[2],
            line[3],
            line[4],
            line[5],
            line[6],
            line[7],
        );
        proof {
            lemma_butterfly_bound(
                line[0] as int,
                line[1] as int,
                line[2] as int,
                line[3] as int,
                line[4] as int,
                line[5] as int,
                line[6] as int,
                line[7] as int,
                BUTTERFLY_LIMIT as int,
            );
            assert(ints(out@) =~= butterfly(ints(line@)));
        }
        let ghost prev = work;
        let mut c: usize = 0;
        while c < 8
            invariant
                c <= 8,
                j < 8,
                at == j * 8,
                within(out@, 0x1000_0000_0000),
                forall|k: int|
                    0 <= k < 64 ==> #[trigger] work[k] as int == if k / 8 == j && k % 8 < c {
                        round256(out[k % 8] as int)
                    } else {
                        prev[k] as int
                    },
            decreases 8 - c,
        {
            work[at + c] = div256(out[c]);
            c = c + 1;
        }
        proof {
            assert forall|k: int| 0 <= k < 64 && k / 8 < j + 1 implies #[trigger] work[k] as int
                == idct_rows(ints(mid@))[k] by {
                if k / 8 == j {
                    assert(ints(out@)[k % 8] == out[k % 8]);
                }
            }
        }
        j = j + 1;
    }
    proof {
        reveal(idct_of);
    }
    assert(ints(work@) =~= idct_of(ints(block@)));
    work
}

} // verus!
