//! Decoding of one block of a macroblock into the current frame.
use vstd::prelude::*;
use crate::bitbuf::Ring;
use crate::block::{decode_coeffs, decode_dc, read_coeffs, read_dc, RunEnd, DC_LIMIT};
use crate::frame::{store_block, write_block, VideoFrame};
use crate::idct::{dc_only, div256, flat, idct, idct_of, ints, round256, within, IDCT_LIMIT};
use crate::video::{
    frame_at, frame_of, lemma_derived, lemma_mb_rows, Mpeg1Video, VideoModel, VideoMotion,
    VideoRuntime,
};
use crate::vlc::{MP1V_DCT_SIZE_CHROMINANCE, MP1V_DCT_SIZE_LUMINANCE};

verus! {

/// The plane that a block of a macroblock belongs to: 0 for the four luma
/// blocks, 1 and 2 for the two chroma blocks.
pub open spec fn plane_index(block: int) -> int {
    if block > 3 {
        block - 3
    } else {
        0
    }
}

/// The table of DC sizes of a plane.
pub open spec fn dc_table(plane: int) -> Seq<(i16, i16)> {
    if plane == 0 {
        MP1V_DCT_SIZE_LUMINANCE@
    } else {
        MP1V_DCT_SIZE_CHROMINANCE@
    }
}

/// The state with the DC predictor of one plane replaced.
pub open spec fn with_predictor(rt: VideoRuntime, plane: int, value: i32) -> VideoRuntime {
    VideoRuntime {
        dc_predictor: vstd::array::spec_array_update(rt.dc_predictor, plane, value),
        ..rt
    }
}

/// The state with all DC predictors back at 128.
pub open spec fn reset_predictors(rt: VideoRuntime) -> VideoRuntime {
    VideoRuntime { dc_predictor: [128i32, 128i32, 128i32], ..rt }
}

/// The state with the motion vector back at 0.
pub open spec fn reset_motion(rt: VideoRuntime) -> VideoRuntime {
    VideoRuntime { motion_forward: VideoMotion { h: 0, v: 0, ..rt.motion_forward }, ..rt }
}

impl VideoModel {
    /// The quantization weights of the current macroblock.
    pub open spec fn weights(self) -> Seq<u8> {
        if self.rt.macroblock_intra != 0 {
            self.intra_q
        } else {
            self.non_intra_q
        }
    }

    /// Where block `block` of the current macroblock goes in the array of
    /// pixels, and how far apart the lines of its plane are.
    pub open spec fn block_place(self, block: int) -> (int, int) {
        let frame = frame_of(self.info, self.rt.frame_current as int);
        let rows = self.rt.mb_row * self.info.mb_width;
        if block < 4 {
            (
                frame.y.base + 256 * rows + 16 * self.rt.mb_col + (if block % 2 == 1 {
                    8int
                } else {
                    0int
                }) + (if block >= 2 {
                    128 * self.info.mb_width
                } else {
                    0
                }),
                16 * self.info.mb_width,
            )
        } else {
            (
                (if block == 4 {
                    frame.cb.base
                } else {
                    frame.cr.base
                }) + 64 * rows + 8 * self.rt.mb_col,
                8 * self.info.mb_width,
            )
        }
    }

    /// Decodes block `block` (0 to 5) of the current macroblock and writes
    /// it into the current frame. The second part is false where the bits
    /// read are no code, which is fatal. A block whose DC coefficient is out
    /// of range, or in which a run leads beyond the 64 coefficients, is
    /// given up: the bits read stay read, and no pixel changes.
    #[verifier::opaque]
    pub open spec fn decode_block(self, block: int) -> (VideoModel, bool) {
        let intra = self.rt.macroblock_intra != 0;
        let plane = plane_index(block);
        let dc = if intra {
            read_dc(self.ring, dc_table(plane), self.rt.dc_predictor[plane] as int)
        } else {
            (Some(0int), self.ring)
        };
        match dc.0 {
            None => (VideoModel { ring: dc.1, ..self }, false),
            Some(value) => if !(-DC_LIMIT < value < DC_LIMIT) {
                (VideoModel { ring: dc.1, ..self }, true)
            } else {
                let rt = if intra {
                    with_predictor(self.rt, plane, value as i32)
                } else {
                    self.rt
                };
                let run = read_coeffs(
                    dc.1,
                    if intra {
                        1
                    } else {
                        0
                    },
                    dc_only(256 * value),
                    intra,
                    self.rt.quantizer_scale as int,
                    self.weights(),
                );
                let read = VideoModel { ring: run.ring, rt, ..self };
                match run.end {
                    RunEnd::BadCode => (read, false),
                    RunEnd::Overrun => (read, true),
                    RunEnd::EndOfBlock => {
                        let vals = if run.n == 1 {
                            flat(round256(run.block[0]))
                        } else {
                            idct_of(run.block)
                        };
                        (
                            VideoModel {
                                arena: store_block(
                                    self.arena,
                                    self.block_place(block).0,
                                    self.block_place(block).1,
                                    vals,
                                    !intra,
                                ),
                                ..read
                            },
                            true,
                        )
                    },
                }
            },
        }
    }
}

impl Mpeg1Video {
    /// Where block `block` of the current macroblock goes, and how far apart
    /// the lines of its plane are.
    pub(crate) fn block_target(&self, block: usize) -> (r: (usize, usize))
        requires
            self.inv(),
            self.model().mb_ready(),
            block < 6,
        ensures
            r.0 == self.model().block_place(block as int).0,
            r.1 == self.model().block_place(block as int).1,
            r.1 >= 8,
            r.0 + 7 * r.1 + 7 < self.model().arena.len(),
    {
        proof {
            lemma_mb_rows(
                self.runtime_.mb_row as int,
                self.info_.mb_width as int,
                self.info_.mb_height as int,
            );
            lemma_derived(self.info_);
        }
        let frame: VideoFrame = frame_at(&self.info_, self.runtime_.frame_current as usize);
        let rows: usize = (self.runtime_.mb_row as usize) * (self.info_.mb_width as usize);
        let mb_col: usize = self.runtime_.mb_col as usize;
        let mb_width: usize = self.info_.mb_width as usize;
        if block < 4 {
            let mut di: usize = 256 * rows + 16 * mb_col;
            if block % 2 == 1 {
                di = di + 8;
            }
            if block >= 2 {
                di = di + 128 * mb_width;
            }
            (frame.y.base + di, 16 * mb_width)
        } else {
            let base: usize = if block == 4 {
                frame.cb.base
            } else {
                frame.cr.base
            };
            (base + 64 * rows + 8 * mb_col, 8 * mb_width)
        }
    }

    /// Reads the DC coefficient of a block of an intra macroblock and notes
    /// it as the next predictor of its plane. Returns `None` where the bits
    /// read are no code, and a value out of range, which is not noted, as it
    /// is.
    pub(crate) fn block_dc(&mut self, block: usize) -> (r: Option<i64>)
        requires
            old(self).inv(),
            block < 6,
        ensures
            final(self).inv(),
            final(self).model().ring == read_dc(
                old(self).model().ring,
                dc_table(plane_index(block as int)),
                old(self).model().rt.dc_predictor[plane_index(block as int)] as int,
            ).1,
            match read_dc(
                old(self).model().ring,
                dc_table(plane_index(block as int)),
                old(self).model().rt.dc_predictor[plane_index(block as int)] as int,
            ).0 {
                None => r is None && final(self).model().rt == old(self).model().rt,
                Some(value) => r is Some && r.unwrap() == value && final(self).model().rt == if
                    -DC_LIMIT < value < DC_LIMIT {
                    with_predictor(old(self).model().rt, plane_index(block as int), value as i32)
                } else {
                    old(self).model().rt
                },
            },
            final(self).model().arena == old(self).model().arena,
            final(self).model().same_setup(old(self).model()),
            final(self).model().same_picture(old(self).model()),
            final(self).model().ring.len() <= old(self).model().ring.len(),
    {
        let plane_index: usize = if block > 3 {
            block - 3
        } else {
            0
        };
        proof {
            self.buffer_.lemma_wf();
            lemma_read_dc(
                self.model().ring,
                dc_table(plane_index as int),
                self.model().rt.dc_predictor[plane_index as int] as int,
            );
        }
        let predictor: i32 = self.runtime_.dc_predictor[plane_index];
        let dc: Option<i64> = if plane_index == 0 {
            decode_dc(&mut self.buffer_, &MP1V_DCT_SIZE_LUMINANCE, predictor)
        } else {
            decode_dc(&mut self.buffer_, &MP1V_DCT_SIZE_CHROMINANCE, predictor)
        };
        match dc {
            None => None,
            Some(value) => {
                if -DC_LIMIT < value && value < DC_LIMIT {
                    self.runtime_.dc_predictor[plane_index] = value as i32;
                }
                Some(value)
            },
        }
    }

    /// Decodes one block of the current macroblock. Returns false where the
    /// stream cannot be decoded any further.
    #[verifier::rlimit(40)]
    pub(crate) fn decode_block(&mut self, block: usize) -> (ok: bool)
        requires
            old(self).inv(),
            old(self).model().mb_ready(),
            block < 6,
        ensures
            final(self).inv(),
            final(self).model() == old(self).model().decode_block(block as int).0,
            ok == old(self).model().decode_block(block as int).1,
            final(self).model().mb_ready(),
            final(self).model().same_setup(old(self).model()),
            final(self).model().same_picture(old(self).model()),
            final(self).model().ring.len() <= old(self).model().ring.len(),
            final(self).model().rt.motion_forward == old(self).model().rt.motion_forward,
            final(self).model().rt.macroblock_intra == old(self).model().rt.macroblock_intra,
            final(self).model().rt.mb_row == old(self).model().rt.mb_row,
            final(self).model().rt.mb_col == old(self).model().rt.mb_col,
            final(self).model().rt.picture_type == old(self).model().rt.picture_type,
            final(self).model().rt.macroblock_address == old(self).model().rt.macroblock_address,
    {
        proof {
            reveal(VideoModel::decode_block);
        }
        let intra: bool = self.runtime_.macroblock_intra != 0;
        let mut work: [i64; 64] = [0i64; 64];
        let mut first: usize = 0;
        let (d, dw) = self.block_target(block);
        if intra {
            let value: i64 = match self.block_dc(block) {
                None => {
                    return false;
                },
                Some(value) => value,
            };
            if value <= -DC_LIMIT || value >= DC_LIMIT {
                return true;
            }
            work[0] = value * 256;
            first = 1;
        }
        let ghost start = ints(work@);
        let ghost r_dc = self.model().ring;
        proof {
            assert(start =~= dc_only(work[0] as int));
            self.buffer_.lemma_wf();
            lemma_read_coeffs(
                r_dc,
                first as int,
                start,
                intra,
                self.runtime_.quantizer_scale as int,
                self.model().weights(),
            );
        }
        let (end, n, coeffs) = if intra {
            decode_coeffs(
                &mut self.buffer_,
                first,
                work,
                intra,
                self.runtime_.quantizer_scale,
                &self.qmatrix_.intra_quant_matrix,
            )
        } else {
            decode_coeffs(
                &mut self.buffer_,
                first,
                work,
                intra,
                self.runtime_.quantizer_scale,
                &self.qmatrix_.non_intra_quant_matrix,
            )
        };
        match end {
            RunEnd::BadCode => {
                return false;
            },
            RunEnd::Overrun => {
                return true;
            },
            RunEnd::EndOfBlock => {},
        }
        let vals: [i64; 64] = block_values(n, coeffs);
        write_block(&mut self.frame_base_, d, dw, &vals, !intra);
        true
    }
}

/// The values that a block of coefficients stands for: those of its
/// transform, or, where it holds the first coefficient only, that
/// coefficient scaled down, in every place.
fn block_values(n: usize, coeffs: [i64; 64]) -> (vals: [i64; 64])
    requires
        within(coeffs@, IDCT_LIMIT as int),
    ensures
        ints(vals@) == if n == 1 {
            flat(round256(ints(coeffs@)[0]))
        } else {
            idct_of(ints(coeffs@))
        },
        forall|i: int| 0 <= i < 64 ==> -0x4000_0000_0000_0000 <= #[trigger] vals[i]
            <= 0x4000_0000_0000_0000,
{
    let vals: [i64; 64] = if n == 1 {
        [div256(coeffs[0]);64]
    } else {
        idct(coeffs)
    };
    proof {
        if n == 1 {
            assert(ints(vals@) =~= flat(round256(coeffs[0] as int)));
            assert(ints(coeffs@)[0] == coeffs[0]);
        } else {
            crate::idct::lemma_idct_range(ints(coeffs@));
        }
        assert forall|i: int| 0 <= i < 64 implies -0x4000_0000_0000_0000 <= #[trigger] vals[i]
            <= 0x4000_0000_0000_0000 by {
            assert(ints(vals@)[i] == vals[i]);
        }
    }
    vals
}

/// Reading a DC coefficient keeps the buffer well formed and takes bits
/// away only.
pub proof fn lemma_read_dc(ring: Ring, table: Seq<(i16, i16)>, predictor: int)
    requires
        ring.wf(),
    ensures
        read_dc(ring, table, predictor).1.wf(),
        read_dc(ring, table, predictor).1.len() <= ring.len(),
        read_dc(ring, table, predictor).1.cap() == ring.cap(),
{
    reveal(read_dc);
    ring.lemma_vlc_walk(table, 0);
    let r1 = ring.vlc_walk(table, 0);
    if r1.0 is Some && 0 <= r1.0.unwrap() <= 8 {
        r1.1.lemma_read(r1.0.unwrap() as int);
    }
}

/// Reading coefficients keeps the buffer well formed and takes bits away
/// only.
pub proof fn lemma_read_coeffs(
    ring: Ring,
    n: int,
    block: Seq<int>,
    intra: bool,
    scale: int,
    weights: Seq<u8>,
)
    requires
        ring.wf(),
    ensures
        read_coeffs(ring, n, block, intra, scale, weights).ring.wf(),
        read_coeffs(ring, n, block, intra, scale, weights).ring.len() <= ring.len(),
        read_coeffs(ring, n, block, intra, scale, weights).ring.cap() == ring.cap(),
    decreases 64 - n,
{
    let step = crate::block::coeff_step(ring, n, intra, scale, weights);
    crate::block::lemma_coeff_step(ring, n, intra, scale, weights);
    if step.end is None && n < step.n <= 64 {
        lemma_read_coeffs(
            step.ring,
            step.n,
            block.update(step.at, step.value),
            intra,
            scale,
            weights,
        );
    }
}

} // verus!
