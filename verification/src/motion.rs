//! Motion vectors, and the prediction of a macroblock from the forward
//! frame.
use vstd::prelude::*;
use crate::bitbuf::Ring;
use crate::bits::limit;
use crate::block::limit_table;
use crate::frame::{copy_block, predict_block, reach, VideoFrame};
use crate::vblock::reset_motion;
use crate::video::{
    frame_at, frame_of, lemma_derived, lemma_mb_rows, motion_range, Mpeg1Video, VideoModel,
    VideoMotion, VideoRuntime, PICTURE_TYPE_P,
};
use crate::vlc::MP1V_VIDEO_MOTION;

verus! {

/// Half of `x`, rounded towards 0.
pub open spec fn half_to_zero(x: int) -> int {
    if x >= 0 {
        x / 2
    } else {
        -((-x) / 2)
    }
}

/// One part of a motion vector: the part before, `motion`, plus the
/// difference that the stream holds as a motion code and, where the range
/// is more than the codes cover, `r_size` bits that refine it; the sum is
/// brought back into the range by adding or taking away the whole range
/// once. `None` where the bits read are no motion code.
#[verifier::opaque]
pub open spec fn read_motion(ring: Ring, r_size: int, motion: int) -> (Option<int>, Ring) {
    let (code, r1) = ring.vlc_walk(MP1V_VIDEO_MOTION@, 0);
    match code {
        None => (None, r1),
        Some(m_code) => if m_code < -16 || m_code > 16 {
            (None, r1)
        } else {
            let fscale = limit(r_size);
            let refined = m_code != 0 && fscale != 1;
            let r2 = if refined {
                r1.read(r_size).1
            } else {
                r1
            };
            let magnitude = (if m_code < 0 {
                -m_code - 1
            } else {
                m_code - 1
            }) * fscale + r1.read(r_size).0 + 1;
            let d: int = if !refined {
                m_code as int
            } else if m_code < 0 {
                -magnitude
            } else {
                magnitude
            };
            let sum = motion + d;
            (
                Some(
                    if sum > 16 * fscale - 1 {
                        sum - 32 * fscale
                    } else if sum < -16 * fscale {
                        sum + 32 * fscale
                    } else {
                        sum
                    },
                ),
                r2,
            )
        },
    }
}

/// Reading a part of a motion vector keeps the buffer well formed, takes
/// bits away only, and gives a part inside the range.
pub proof fn lemma_read_motion(ring: Ring, r_size: int, motion: int)
    requires
        ring.wf(),
        0 <= r_size <= 6,
        -motion_range(r_size) <= motion < motion_range(r_size),
    ensures
        read_motion(ring, r_size, motion).1.wf(),
        read_motion(ring, r_size, motion).1.len() <= ring.len(),
        read_motion(ring, r_size, motion).1.cap() == ring.cap(),
        match read_motion(ring, r_size, motion).0 {
            None => true,
            Some(m) => -motion_range(r_size) <= m < motion_range(r_size),
        },
        1 <= limit(r_size) <= 64,
{
    reveal(read_motion);
    limit_table();
    ring.lemma_vlc_walk(MP1V_VIDEO_MOTION@, 0);
    let (code, r1) = ring.vlc_walk(MP1V_VIDEO_MOTION@, 0);
    r1.lemma_read(r_size);
    if code is Some {
        let m_code = code.unwrap();
        if -16 <= m_code <= 16 {
            let fscale = limit(r_size);
            let a: int = if m_code < 0 {
                -m_code - 1
            } else {
                m_code - 1
            };
            if m_code != 0 {
                assert(0 <= a * fscale <= 15 * fscale) by (nonlinear_arith)
                    requires
                        0 <= a <= 15,
                        fscale >= 1,
                ;
            }
        }
    }
}

impl VideoModel {
    /// The motion vector read anew where the macroblock brings one, and
    /// back at 0 where a macroblock of a predictive picture brings none.
    /// The second part is false where the bits read are no code.
    #[verifier::opaque]
    pub open spec fn decode_motion_vectors(self) -> (VideoModel, bool) {
        let motion = self.rt.motion_forward;
        if motion.is_set != 0 {
            let (h, r1) = read_motion(self.ring, motion.r_size as int, motion.h as int);
            match h {
                None => (VideoModel { ring: r1, ..self }, false),
                Some(h) => {
                    let (v, r2) = read_motion(r1, motion.r_size as int, motion.v as int);
                    match v {
                        None => (
                            VideoModel {
                                ring: r2,
                                rt: VideoRuntime {
                                    motion_forward: VideoMotion { h: h as i32, ..motion },
                                    ..self.rt
                                },
                                ..self
                            },
                            false,
                        ),
                        Some(v) => (
                            VideoModel {
                                ring: r2,
                                rt: VideoRuntime {
                                    motion_forward: VideoMotion {
                                        h: h as i32,
                                        v: v as i32,
                                        ..motion
                                    },
                                    ..self.rt
                                },
                                ..self
                            },
                            true,
                        ),
                    }
                },
            }
        } else if self.rt.picture_type == PICTURE_TYPE_P {
            (VideoModel { rt: reset_motion(self.rt), ..self }, true)
        } else {
            (self, true)
        }
    }

    /// Where in its plane the prediction of the current macroblock starts
    /// to read, for a vector in half pixels and blocks of `size` by `size`.
    pub open spec fn motion_source(self, mv_h: int, mv_v: int, size: int) -> int {
        size * size * (self.rt.mb_row * self.info.mb_width) + size * ((mv_v / 2)
            * self.info.mb_width) + size * self.rt.mb_col + mv_h / 2
    }

    /// Where in its plane the current macroblock starts.
    pub open spec fn block_origin(self, size: int) -> int {
        size * size * (self.rt.mb_row * self.info.mb_width) + size * self.rt.mb_col
    }

    /// Whether every pixel that the prediction reads lies inside the plane.
    pub open spec fn source_valid(self, mv_h: int, mv_v: int, size: int) -> bool {
        let si = self.motion_source(mv_h, mv_v, size);
        let dw = size * self.info.mb_width;
        0 <= si && si + (size - 1) * dw + (size - 1) + reach(dw, mv_h % 2 != 0, mv_v % 2 != 0)
            < size * size * self.info.mb_size
    }

    /// Predicts the block of the current macroblock in the plane at `dst`
    /// from the plane at `src`. A vector that leads out of the plane is
    /// fatal: the second part is false and no pixel changes.
    #[verifier::opaque]
    pub open spec fn process_macroblock(
        self,
        src: int,
        dst: int,
        mv_h: int,
        mv_v: int,
        size: int,
    ) -> (VideoModel, bool) {
        if !self.source_valid(mv_h, mv_v, size) {
            (self, false)
        } else {
            (
                VideoModel {
                    arena: predict_block(
                        self.arena,
                        src + self.motion_source(mv_h, mv_v, size),
                        dst + self.block_origin(size),
                        size * self.info.mb_width,
                        size,
                        mv_h % 2 != 0,
                        mv_v % 2 != 0,
                    ),
                    ..self
                },
                true,
            )
        }
    }

    /// Predicts the current macroblock in all three planes of the current
    /// frame from the forward frame: luma with the vector, which counts
    /// double where it is in full pixels, chroma with half of it.
    #[verifier::opaque]
    pub open spec fn predict_macroblock(self) -> (VideoModel, bool) {
        let motion = self.rt.motion_forward;
        let fw_h: int = if motion.full_px == 1 {
            2 * motion.h
        } else {
            motion.h as int
        };
        let fw_v: int = if motion.full_px == 1 {
            2 * motion.v
        } else {
            motion.v as int
        };
        let from = frame_of(self.info, self.rt.frame_forward as int);
        let to = frame_of(self.info, self.rt.frame_current as int);
        let luma = self.process_macroblock(from.y.base as int, to.y.base as int, fw_h, fw_v, 16);
        if !luma.1 {
            luma
        } else {
            let cb = luma.0.process_macroblock(
                from.cb.base as int,
                to.cb.base as int,
                half_to_zero(fw_h),
                half_to_zero(fw_v),
                8,
            );
            if !cb.1 {
                cb
            } else {
                cb.0.process_macroblock(
                    from.cr.base as int,
                    to.cr.base as int,
                    half_to_zero(fw_h),
                    half_to_zero(fw_v),
                    8,
                )
            }
        }
    }

    /// The vector of the current macroblock as it counts for luma, in half
    /// pixels.
    pub open spec fn luma_vector(self) -> (int, int) {
        let motion = self.rt.motion_forward;
        if motion.full_px == 1 {
            (2 * motion.h, 2 * motion.v)
        } else {
            (motion.h as int, motion.v as int)
        }
    }

    /// A macroblock whose vector leads out of the luma plane is not
    /// predicted at all: the prediction fails and leaves every pixel as it
    /// is.
    pub proof fn lemma_prediction_out_of_plane(self)
        requires
            !self.source_valid(self.luma_vector().0, self.luma_vector().1, 16),
        ensures
            !self.predict_macroblock().1,
            self.predict_macroblock().0 == self,
    {
        reveal(VideoModel::predict_macroblock);
        reveal(VideoModel::process_macroblock);
    }

    /// A vector whose source lies outside the reference plane is rejected:
    /// the prediction fails and leaves every pixel as it is.
    pub proof fn lemma_out_of_plane_is_fatal(
        self,
        src: int,
        dst: int,
        mv_h: int,
        mv_v: int,
        size: int,
    )
        requires
            !self.source_valid(mv_h, mv_v, size),
        ensures
            !self.process_macroblock(src, dst, mv_h, mv_v, size).1,
            self.process_macroblock(src, dst, mv_h, mv_v, size).0 == self,
    {
        reveal(VideoModel::process_macroblock);
    }
}

/// The sums that place a block of `sz` by `sz` pixels in its plane, for the
/// two sizes that occur.
proof fn lemma_block_extent(sz: int, w: int, ms: int, rows: int, down: int, col: int)
    requires
        sz == 8 || sz == 16,
        0 <= col < w,
        0 <= rows,
        rows + w <= ms,
    ensures
        sz * w == if sz == 16 {
            16 * w
        } else {
            8 * w
        },
        sz * sz * ms == if sz == 16 {
            256 * ms
        } else {
            64 * ms
        },
        sz * sz * rows == if sz == 16 {
            256 * rows
        } else {
            64 * rows
        },
        sz * down == if sz == 16 {
            16 * down
        } else {
            8 * down
        },
        sz * col == if sz == 16 {
            16 * col
        } else {
            8 * col
        },
        (sz - 1) * (sz * w) + (sz - 1) == if sz == 16 {
            240 * w + 15
        } else {
            56 * w + 7
        },
        sz * sz * rows + sz * col + (sz - 1) * (sz * w) + (sz - 1) < sz * sz * ms,
{
    if sz == 16 {
        assert(sz * w == 16 * w) by (nonlinear_arith)
            requires
                sz == 16,
        ;
        assert(sz * sz * ms == 256 * ms) by (nonlinear_arith)
            requires
                sz == 16,
        ;
        assert(sz * sz * rows == 256 * rows) by (nonlinear_arith)
            requires
                sz == 16,
        ;
        assert(sz * down == 16 * down) by (nonlinear_arith)
            requires
                sz == 16,
        ;
        assert(sz * col == 16 * col) by (nonlinear_arith)
            requires
                sz == 16,
        ;
        assert((sz - 1) * (sz * w) == 240 * w) by (nonlinear_arith)
            requires
                sz == 16,
        ;
    } else {
        assert(sz * w == 8 * w) by (nonlinear_arith)
            requires
                sz == 8,
        ;
        assert(sz * sz * ms == 64 * ms) by (nonlinear_arith)
            requires
                sz == 8,
        ;
        assert(sz * sz * rows == 64 * rows) by (nonlinear_arith)
            requires
                sz == 8,
        ;
        assert(sz * down == 8 * down) by (nonlinear_arith)
            requires
                sz == 8,
        ;
        assert(sz * col == 8 * col) by (nonlinear_arith)
            requires
                sz == 8,
        ;
        assert((sz - 1) * (sz * w) == 56 * w) by (nonlinear_arith)
            requires
                sz == 8,
        ;
    }
}

fn half_floor(x: i32) -> (r: i32)
    ensures
        r == x as int / 2,
{
    assert(x >> 1 == x / 2) by (bit_vector);
    x >> 1
}

fn is_odd(x: i32) -> (r: bool)
    ensures
        r == (x as int % 2 != 0),
{
    assert(((x & 1) == 1) == (x % 2 != 0)) by (bit_vector);
    (x & 1) == 1
}

impl Mpeg1Video {
    /// Reads one part of the motion vector.
    #[verifier::rlimit(40)]
    pub(crate) fn decode_motion_vector(&mut self, r_size: i32, motion: i32) -> (r: Option<i32>)
        requires
            old(self).inv(),
            0 <= r_size <= 6,
            -motion_range(r_size as int) <= motion < motion_range(r_size as int),
        ensures
            final(self).inv(),
            final(self).model() == (VideoModel {
                ring: read_motion(old(self).model().ring, r_size as int, motion as int).1,
                ..old(self).model()
            }),
            match read_motion(old(self).model().ring, r_size as int, motion as int).0 {
                None => r is None,
                Some(m) => r is Some && r.unwrap() == m && -motion_range(r_size as int) <= m
                    < motion_range(r_size as int),
            },
            final(self).model().ring.len() <= old(self).model().ring.len(),
            final(self).model().ring.cap() == old(self).model().ring.cap(),
    {
        proof {
            reveal(read_motion);
            self.buffer_.lemma_wf();
            lemma_read_motion(self.model().ring, r_size as int, motion as int);
            limit_table();
        }
        let fscale: i32 = crate::block::pow2(r_size as u32) as i32;
        let m_code: i32 = match self.buffer_.read_vlc(&MP1V_VIDEO_MOTION) {
            None => {
                return None;
            },
            Some(code) => code as i32,
        };
        if m_code < -16 || m_code > 16 {
            return None;
        }
        let ghost r1 = self.model().ring;
        proof {
            self.buffer_.lemma_wf();
            r1.lemma_read(r_size as int);
        }
        let mut d: i32;
        if (m_code != 0) && (fscale != 1) {
            let r: i32 = self.buffer_.read(r_size as usize) as i32;
            let a: i32 = if m_code < 0 {
                -m_code - 1
            } else {
                m_code - 1
            };
            assert(0 <= a * fscale <= 15 * fscale) by (nonlinear_arith)
                requires
                    0 <= a <= 15,
                    fscale >= 1,
            ;
            d = a * fscale + r + 1;
            if m_code < 0 {
                d = -d;
            }
        } else {
            d = m_code;
        }
        let mut motion: i32 = motion + d;
        if motion > 16 * fscale - 1 {
            motion = motion - 32 * fscale;
        } else if motion < -16 * fscale {
            motion = motion + 32 * fscale;
        }
        return Some(motion);
    }

    /// Reads the motion vector of the current macroblock.
    pub(crate) fn decode_motion_vectors(&mut self) -> (ok: bool)
        requires
            old(self).inv(),
        ensures
            final(self).inv(),
            final(self).model() == old(self).model().decode_motion_vectors().0,
            ok == old(self).model().decode_motion_vectors().1,
            final(self).model().ring.len() <= old(self).model().ring.len(),
            final(self).model().same_setup(old(self).model()),
            final(self).model().same_picture(old(self).model()),
            final(self).model().arena == old(self).model().arena,
            final(self).model().rt == (VideoRuntime {
                motion_forward: final(self).model().rt.motion_forward,
                ..old(self).model().rt
            }),
            final(self).model().rt.motion_forward.is_set == old(
                self,
            ).model().rt.motion_forward.is_set,
            final(self).model().rt.motion_forward.r_size == old(
                self,
            ).model().rt.motion_forward.r_size,
            final(self).model().rt.motion_forward.full_px == old(
                self,
            ).model().rt.motion_forward.full_px,
    {
        proof {
            reveal(VideoModel::decode_motion_vectors);
            limit_table();
        }
        if self.runtime_.motion_forward.is_set != 0 {
            let r_size: i32 = self.runtime_.motion_forward.r_size;
            let h: i32 = self.runtime_.motion_forward.h;
            match self.decode_motion_vector(r_size, h) {
                None => {
                    return false;
                },
                Some(h) => {
                    self.runtime_.motion_forward.h = h;
                },
            }
            let v: i32 = self.runtime_.motion_forward.v;
            match self.decode_motion_vector(r_size, v) {
                None => {
                    return false;
                },
                Some(v) => {
                    self.runtime_.motion_forward.v = v;
                },
            }
        } else if self.runtime_.picture_type == PICTURE_TYPE_P {
            // No motion information in P-picture, reset vectors
            self.runtime_.motion_forward.h = 0;
            self.runtime_.motion_forward.v = 0;
        }
        true
    }

    /// Predicts one block of the current macroblock from the plane at `src`
    /// into the plane at `dst`. Returns false, and changes nothing, where
    /// the vector leads out of the plane.
    #[verifier::rlimit(40)]
    pub(crate) fn process_macroblock(
        &mut self,
        src: usize,
        dst: usize,
        mv_h: i32,
        mv_v: i32,
        block_size: u32,
    ) -> (ok: bool)
        requires
            old(self).inv(),
            old(self).model().mb_ready(),
            block_size == 8 || block_size == 16,
            src + block_size * block_size * old(self).model().info.mb_size <= old(
                self,
            ).model().arena.len(),
            dst + block_size * block_size * old(self).model().info.mb_size <= old(
                self,
            ).model().arena.len(),
            -0x1000 <= mv_h <= 0x1000,
            -0x1000 <= mv_v <= 0x1000,
        ensures
            final(self).inv(),
            final(self).model() == old(self).model().process_macroblock(
                src as int,
                dst as int,
                mv_h as int,
                mv_v as int,
                block_size as int,
            ).0,
            ok == old(self).model().process_macroblock(
                src as int,
                dst as int,
                mv_h as int,
                mv_v as int,
                block_size as int,
            ).1,
            final(self).model().mb_ready(),
            final(self).model().ring == old(self).model().ring,
            final(self).model().rt == old(self).model().rt,
            final(self).model().same_setup(old(self).model()),
            final(self).model().same_picture(old(self).model()),
            final(self).model().arena.len() == old(self).model().arena.len(),
    {
        proof {
            reveal(VideoModel::process_macroblock);
            lemma_mb_rows(
                self.runtime_.mb_row as int,
                self.info_.mb_width as int,
                self.info_.mb_height as int,
            );
            lemma_derived(self.info_);
        }
        let size: i64 = block_size as i64;
        let width: i64 = self.info_.mb_width as i64;
        let rows: i64 = (self.runtime_.mb_row as i64) * width;
        let col: i64 = self.runtime_.mb_col as i64;
        let mb_size: i64 = self.info_.mb_size as i64;
        let hp: i64 = half_floor(mv_h) as i64;
        let vp: i64 = half_floor(mv_v) as i64;
        let odd_h: bool = is_odd(mv_h);
        let odd_v: bool = is_odd(mv_v);
        assert(-0x8_0000 <= vp * width <= 0x8_0000) by (nonlinear_arith)
            requires
                -0x800 <= vp <= 0x800,
                0 <= width <= 256,
        ;
        let down: i64 = vp * width;
        let (dw, si, di, plane, span): (i64, i64, i64, i64, i64) = if block_size == 16 {
            (
                16 * width,
                256 * rows + 16 * down + 16 * col + hp,
                256 * rows + 16 * col,
                256 * mb_size,
                240 * width + 15,
            )
        } else {
            (
                8 * width,
                64 * rows + 8 * down + 8 * col + hp,
                64 * rows + 8 * col,
                64 * mb_size,
                56 * width + 7,
            )
        };
        proof {
            let sz = block_size as int;
            lemma_block_extent(
                sz,
                self.info_.mb_width as int,
                self.info_.mb_size as int,
                self.runtime_.mb_row * self.info_.mb_width,
                vp * self.info_.mb_width,
                col as int,
            );
            assert(si == self.model().motion_source(mv_h as int, mv_v as int, sz));
            assert(di == self.model().block_origin(sz));
            assert(span == (sz - 1) * dw + (sz - 1));
            assert(plane == sz * sz * self.info_.mb_size);
            assert(dw == sz * self.info_.mb_width);
        }
        let extra: i64 = (if odd_v {
            dw
        } else {
            0
        }) + (if odd_h {
            1
        } else {
            0
        });
        if si < 0 || si + span + extra >= plane {
            return false;
        }
        proof {
            let size = block_size as usize;
            let line = dw as usize;
            assert((size - 1) * line + (size - 1) == span);
        }
        copy_block(
            &mut self.frame_base_,
            src + si as usize,
            dst + di as usize,
            dw as usize,
            block_size as usize,
            odd_h,
            odd_v,
        );
        true
    }

    /// Predicts the current macroblock from the forward frame. Returns
    /// false where the vector leads out of a plane.
    #[verifier::rlimit(40)]
    pub(crate) fn predict_macroblock(&mut self) -> (ok: bool)
        requires
            old(self).inv(),
            old(self).model().mb_ready(),
        ensures
            final(self).inv(),
            final(self).model() == old(self).model().predict_macroblock().0,
            ok == old(self).model().predict_macroblock().1,
            final(self).model().mb_ready(),
            final(self).model().ring == old(self).model().ring,
            final(self).model().rt == old(self).model().rt,
            final(self).model().same_setup(old(self).model()),
            final(self).model().same_picture(old(self).model()),
    {
        proof {
            reveal(VideoModel::predict_macroblock);
        }
        let mut fw_h: i32 = self.runtime_.motion_forward.h;
        let mut fw_v: i32 = self.runtime_.motion_forward.v;
        proof {
            limit_table();
            lemma_derived(self.info_);
        }
        if self.runtime_.motion_forward.full_px == 1 {
            fw_h = fw_h * 2;
            fw_v = fw_v * 2;
        }
        let from: VideoFrame = frame_at(&self.info_, self.runtime_.frame_forward as usize);
        let to: VideoFrame = frame_at(&self.info_, self.runtime_.frame_current as usize);
        if !self.process_macroblock(from.y.base, to.y.base, fw_h, fw_v, 16) {
            return false;
        }
        if !self.process_macroblock(from.cb.base, to.cb.base, fw_h / 2, fw_v / 2, 8) {
            return false;
        }
        self.process_macroblock(from.cr.base, to.cr.base, fw_h / 2, fw_v / 2, 8)
    }
}

} // verus!
