//! Decoding of slices and of whole pictures.
use vstd::prelude::*;
use crate::bitbuf::Ring;
use crate::block::limit_table;
use crate::vblock::{reset_motion, reset_predictors};
use crate::video::{
    lemma_derived, DecodeResult, Mpeg1Video, VideoModel, VideoMotion, VideoRuntime,
    PICTURE_START_CODE, PICTURE_TYPE_I, PICTURE_TYPE_P, SLICE_LAST, SLICE_START,
    START_EXTENSION_CODE, USER_DATA_CODE,
};

verus! {

/// The buffer behind the extra information of a slice header: as long as
/// the next bit is 1, that bit and eight more are passed; the bit of 0 that
/// ends them is passed too.
pub open spec fn skip_extra(ring: Ring) -> Ring
    decreases ring.len(),
{
    if ring.read(1).0 == 0 {
        ring.read(1).1
    } else if 0 <= ring.read(1).1.read(8).1.len() < ring.len() {
        skip_extra(ring.read(1).1.read(8).1)
    } else {
        ring.read(1).1.read(8).1
    }
}

/// Passing the extra information keeps the buffer well formed and takes
/// bits away only.
pub proof fn lemma_skip_extra(ring: Ring)
    requires
        ring.wf(),
    ensures
        skip_extra(ring).wf(),
        skip_extra(ring).len() <= ring.len(),
        skip_extra(ring).cap() == ring.cap(),
    decreases ring.len(),
{
    ring.lemma_read(1);
    ring.read(1).1.lemma_read(8);
    if ring.read(1).0 != 0 && 0 <= ring.read(1).1.read(8).1.len() < ring.len() {
        lemma_skip_extra(ring.read(1).1.read(8).1);
    }
}

/// The last byte of the next start code that is neither user data nor an
/// extension, and the buffer behind it. `None` where no start code is left.
pub open spec fn skip_to_slice(ring: Ring) -> (Option<int>, Ring)
    decreases ring.len(),
{
    match ring.find_start() {
        None => (None, ring),
        Some(r1) => {
            let (code, r2) = r1.read(8);
            if code == USER_DATA_CODE || code == START_EXTENSION_CODE {
                if 0 <= r2.len() < ring.len() {
                    skip_to_slice(r2)
                } else {
                    (None, r2)
                }
            } else {
                (Some(code), r2)
            }
        },
    }
}

impl VideoModel {
    /// Decodes macroblocks until the last one of the picture is reached or
    /// a start code stands next.
    pub open spec fn decode_macroblocks(self, slice_begin: bool) -> (VideoModel, bool)
        decreases self.info.mb_size - self.rt.macroblock_address,
    {
        let next = self.decode_macroblock(slice_begin);
        if !next.1 {
            next
        } else if next.0.rt.macroblock_address >= next.0.info.mb_size - 1
            || next.0.ring.prefix_at(0) {
            next
        } else if next.0.info == self.info && self.rt.macroblock_address
            < next.0.rt.macroblock_address {
            next.0.decode_macroblocks(false)
        } else {
            (next.0, false)
        }
    }

    /// The state at the start of the slice whose start code ends in `code`:
    /// the address stands before the first macroblock of row `code - 1`,
    /// the vector is 0 and the DC predictors are 128; the header gives the
    /// quantizer scale in five bits.
    pub open spec fn slice_start(self, code: int) -> VideoModel {
        VideoModel {
            ring: skip_extra(self.ring.read(5).1),
            rt: reset_motion(
                reset_predictors(
                    VideoRuntime {
                        macroblock_address: ((code - 1) * self.info.mb_width - 1) as i32,
                        quantizer_scale: self.ring.read(5).0 as u32,
                        ..self.rt
                    },
                ),
            ),
            ..self
        }
    }

    /// Decodes one slice.
    #[verifier::opaque]
    pub open spec fn decode_slice(self, code: int) -> (VideoModel, bool) {
        self.slice_start(code).decode_macroblocks(true)
    }

    /// Decodes slices as long as the start code just read, which ends in
    /// `code`, is that of a slice. A slice must be followed by a start code.
    pub open spec fn decode_slices(self, code: int) -> (VideoModel, bool)
        decreases self.ring.len(),
    {
        if !(SLICE_START <= code <= SLICE_LAST) {
            (self, true)
        } else {
            let done = self.decode_slice(code);
            if !done.1 {
                done
            } else {
                match done.0.ring.find_start() {
                    None => (done.0, false),
                    Some(r1) => {
                        let next = VideoModel { ring: r1.read(8).1, ..done.0 };
                        if 0 <= next.ring.len() < self.ring.len() {
                            next.decode_slices(r1.read(8).0)
                        } else {
                            (next, false)
                        }
                    },
                }
            }
        }
    }

    /// The state behind the header of a picture of type `ptype`: for a
    /// predictive picture, the header says whether vectors are in full
    /// pixels and gives their range, which must not be 0.
    pub open spec fn picture_header(self, ptype: int) -> (VideoModel, bool) {
        let typed = VideoModel {
            rt: VideoRuntime { picture_type: ptype as u32, ..self.rt },
            ..self
        };
        if ptype != PICTURE_TYPE_I && ptype != PICTURE_TYPE_P {
            (typed, false)
        } else if ptype == PICTURE_TYPE_I {
            (typed, true)
        } else {
            let (full, r1) = self.ring.read(1);
            let (f_code, r2) = r1.read(3);
            let motion = VideoMotion { full_px: full as i32, ..self.rt.motion_forward };
            if f_code == 0 {
                (
                    VideoModel {
                        ring: r2,
                        rt: VideoRuntime { motion_forward: motion, ..typed.rt },
                        ..typed
                    },
                    false,
                )
            } else {
                (
                    VideoModel {
                        ring: r2,
                        rt: VideoRuntime {
                            motion_forward: VideoMotion {
                                r_size: (f_code - 1) as i32,
                                h: 0,
                                v: 0,
                                ..motion
                            },
                            ..typed.rt
                        },
                        ..typed
                    },
                    true,
                )
            }
        }
    }

    /// The state once a picture is complete: the start code that ended it
    /// is unread again, and the frame just decoded becomes the forward
    /// frame.
    pub open spec fn picture_done(self) -> VideoModel {
        VideoModel {
            ring: self.ring.back(32),
            rt: VideoRuntime {
                frame_forward: self.rt.frame_current,
                frame_current: (1 - self.rt.frame_current) as i32,
                ..self.rt
            },
            ..self
        }
    }

    /// Reads a picture up to its first slice: its start code is searched,
    /// ten bits of temporal reference are passed, three bits give the type,
    /// sixteen bits of delay are passed; behind the header, user data and
    /// extensions are passed over up to the first slice, which must be
    /// slice 1.
    #[verifier::opaque]
    pub open spec fn picture_start(self) -> (VideoModel, bool) {
        match self.ring.find_start_code(PICTURE_START_CODE) {
            None => (self, false),
            Some(r0) => {
                let headed = (VideoModel {
                    ring: r0.skip(10).read(3).1.skip(16),
                    ..self
                }).picture_header(r0.skip(10).read(3).0);
                if !headed.1 {
                    headed
                } else {
                    (
                        VideoModel { ring: skip_to_slice(headed.0.ring).1, ..headed.0 },
                        skip_to_slice(headed.0.ring).0 == Some(SLICE_START as int),
                    )
                }
            },
        }
    }

    /// Decodes the next picture: up to its first slice, then its slices.
    pub open spec fn decode_picture(self) -> (VideoModel, DecodeResult) {
        let start = self.picture_start();
        if !start.1 {
            (start.0, DecodeResult::InternalError)
        } else {
            let sliced = start.0.decode_slices(SLICE_START as int);
            if !sliced.1 {
                (sliced.0, DecodeResult::InternalError)
            } else {
                (sliced.0.picture_done(), DecodeResult::GotOneFrame)
            }
        }
    }
}

impl Mpeg1Video {
    /// Decodes one slice. Returns false where the stream cannot be decoded
    /// any further.
    #[verifier::rlimit(40)]
    pub(crate) fn decode_slice(&mut self, slice_code: u32) -> (ok: bool)
        requires
            old(self).inv(),
            old(self).model().info._parsed_,
            SLICE_START <= slice_code <= SLICE_LAST,
        ensures
            final(self).inv(),
            final(self).model() == old(self).model().decode_slice(slice_code as int).0,
            ok == old(self).model().decode_slice(slice_code as int).1,
            final(self).model().same_setup(old(self).model()),
            final(self).model().same_picture(old(self).model()),
            final(self).model().ring.len() <= old(self).model().ring.len(),
    {
        proof {
            reveal(VideoModel::decode_slice);
            lemma_derived(self.info_);
            limit_table();
            self.buffer_.lemma_wf();
            self.model().ring.lemma_read(5);
            lemma_skip_extra(self.model().ring.read(5).1);
        }
        let row: i32 = slice_code as i32 - 1;
        let width: i32 = self.info_.mb_width as i32;
        assert(0 <= row * width <= 174 * 256) by (nonlinear_arith)
            requires
                0 <= row <= 174,
                1 <= width <= 256,
        ;
        self.runtime_.macroblock_address = row * width - 1;
        // Reset motion vectors and DC predictors
        self.runtime_.motion_forward.h = 0;
        self.runtime_.motion_forward.v = 0;
        self.runtime_.dc_predictor[0] = 128;
        self.runtime_.dc_predictor[1] = 128;
        self.runtime_.dc_predictor[2] = 128;
        assert(self.runtime_.dc_predictor =~= [128i32, 128i32, 128i32]);
        // quantizer scale
        self.runtime_.quantizer_scale = self.buffer_.read(5);
        self.skip_extra();
        let ghost start = self.model();
        assert(start == old(self).model().slice_start(slice_code as int));
        let mut slice_begin: bool = true;
        loop
            invariant
                self.inv(),
                self.model().info._parsed_,
                self.model().same_setup(old(self).model()),
                self.model().same_picture(old(self).model()),
                self.model().ring.len() <= old(self).model().ring.len(),
                -1 <= self.model().rt.macroblock_address <= 0x1_0000,
                self.model().info.mb_size <= 0x1_0000,
                self.model().decode_macroblocks(slice_begin) == old(self).model().decode_slice(
                    slice_code as int,
                ),
            decreases self.model().info.mb_size - self.model().rt.macroblock_address,
        {
            if !self.decode_macroblock(slice_begin) {
                return false;
            }
            slice_begin = false;
            proof {
                self.buffer_.lemma_wf();
            }
            if (self.runtime_.macroblock_address >= self.info_.mb_size as i32 - 1)
                || self.buffer_.next_is_start() {
                return true;
            }
        }
    }

    /// Passes the extra information of a slice header.
    pub(crate) fn skip_extra(&mut self)
        requires
            old(self).inv(),
        ensures
            final(self).inv(),
            final(self).model() == (VideoModel {
                ring: skip_extra(old(self).model().ring),
                ..old(self).model()
            }),
    {
        proof {
            self.buffer_.lemma_wf();
            lemma_skip_extra(self.model().ring);
        }
        loop
            invariant
                self.inv(),
                self.model() == (VideoModel { ring: self.model().ring, ..old(self).model() }),
                self.model().ring.cap() == old(self).model().ring.cap(),
                skip_extra(self.model().ring) == skip_extra(old(self).model().ring),
            decreases self.model().ring.len(),
        {
            proof {
                self.buffer_.lemma_wf();
                self.model().ring.lemma_read(1);
                self.model().ring.read(1).1.lemma_read(8);
            }
            let before: usize = self.buffer_.len();
            if self.buffer_.read(1) == 0x00 {
                return ;
            }
            self.buffer_.read(8);
            if self.buffer_.len() >= before {
                return ;
            }
        }
    }

    /// Passes user data and extensions up to the next start code of
    /// another kind, and returns its last byte.
    pub(crate) fn skip_to_slice(&mut self) -> (r: Option<u32>)
        requires
            old(self).inv(),
        ensures
            final(self).inv(),
            final(self).model() == (VideoModel {
                ring: skip_to_slice(old(self).model().ring).1,
                ..old(self).model()
            }),
            match skip_to_slice(old(self).model().ring).0 {
                None => r is None,
                Some(code) => r is Some && r.unwrap() == code,
            },
            final(self).model().ring.len() <= old(self).model().ring.len(),
            final(self).model().ring.cap() == old(self).model().ring.cap(),
    {
        loop
            invariant
                self.inv(),
                self.model() == (VideoModel { ring: self.model().ring, ..old(self).model() }),
                self.model().ring.len() <= old(self).model().ring.len(),
                self.model().ring.cap() == old(self).model().ring.cap(),
                skip_to_slice(self.model().ring) == skip_to_slice(old(self).model().ring),
            decreases self.model().ring.len(),
        {
            proof {
                self.buffer_.lemma_wf();
                self.model().ring.lemma_find(0);
                if self.model().ring.find_start() is Some {
                    self.model().ring.find_start().unwrap().lemma_read(8);
                }
            }
            let before: usize = self.buffer_.len();
            // skip user data and extension
            if self.buffer_.find_start() == false {
                return None;
            }
            let code: u32 = self.buffer_.read(8);
            if code == USER_DATA_CODE || code == START_EXTENSION_CODE {
                if self.buffer_.len() >= before {
                    return None;
                }
            } else {
                return Some(code);
            }
        }
    }

    /// Reads what the header of a picture holds behind its type.
    pub(crate) fn picture_header(&mut self, picture_type: u32) -> (ok: bool)
        requires
            old(self).inv(),
        ensures
            final(self).inv(),
            final(self).model() == old(self).model().picture_header(picture_type as int).0,
            ok == old(self).model().picture_header(picture_type as int).1,
            final(self).model().same_setup(old(self).model()),
            final(self).model().arena == old(self).model().arena,
            final(self).model().ring.len() <= old(self).model().ring.len(),
    {
        proof {
            limit_table();
            self.buffer_.lemma_wf();
            self.model().ring.lemma_read(1);
            self.model().ring.read(1).1.lemma_read(3);
        }
        self.runtime_.picture_type = picture_type;
        if self.runtime_.picture_type != PICTURE_TYPE_I && self.runtime_.picture_type
            != PICTURE_TYPE_P {
            return false;
        }
        // forward full_px, f_code
        if self.runtime_.picture_type == PICTURE_TYPE_P {
            self.runtime_.motion_forward.full_px = self.buffer_.read(1) as i32;
            let f_code: i32 = self.buffer_.read(3) as i32;
            if f_code == 0x00 {
                return false;
            }
            self.runtime_.motion_forward.r_size = f_code - 1;
            self.runtime_.motion_forward.h = 0;
            self.runtime_.motion_forward.v = 0;
        }
        true
    }

    /// Decodes the slices of a picture from the first on.
    #[verifier::rlimit(40)]
    pub(crate) fn decode_slices(&mut self) -> (ok: bool)
        requires
            old(self).inv(),
            old(self).model().info._parsed_,
        ensures
            final(self).inv(),
            final(self).model() == old(self).model().decode_slices(SLICE_START as int).0,
            ok == old(self).model().decode_slices(SLICE_START as int).1,
            final(self).model().same_setup(old(self).model()),
            final(self).model().same_picture(old(self).model()),
            final(self).model().ring.len() <= old(self).model().ring.len(),
    {
        let mut next_code: u32 = SLICE_START;
        while next_code >= SLICE_START && next_code <= SLICE_LAST
            invariant
                self.inv(),
                self.model().info._parsed_,
                self.model().same_setup(old(self).model()),
                self.model().same_picture(old(self).model()),
                self.model().ring.len() <= old(self).model().ring.len(),
                self.model().decode_slices(next_code as int) == old(self).model().decode_slices(
                    SLICE_START as int,
                ),
            decreases self.model().ring.len(),
        {
            let before: usize = self.buffer_.len();
            if !self.decode_slice(next_code) {
                return false;
            }
            proof {
                self.buffer_.lemma_wf();
                self.model().ring.lemma_find(0);
                if self.model().ring.find_start() is Some {
                    self.model().ring.find_start().unwrap().lemma_read(8);
                }
            }
            if self.buffer_.find_start() == false {
                return false;
            }
            next_code = self.buffer_.read(8);
            if self.buffer_.len() >= before {
                return false;
            }
        }
        true
    }

    /// Decodes the next picture.
    #[verifier::rlimit(40)]
    pub(crate) fn decode_picture(&mut self) -> (r: DecodeResult)
        requires
            old(self).inv(),
            old(self).model().info._parsed_,
        ensures
            final(self).inv(),
            final(self).model() == old(self).model().decode_picture().0,
            r == old(self).model().decode_picture().1,
            final(self).model().same_setup(old(self).model()),
    {
        proof {
            reveal(VideoModel::picture_start);
            self.buffer_.lemma_wf();
            self.model().ring.lemma_find(PICTURE_START_CODE);
            limit_table();
        }
        if self.buffer_.find_start_code(PICTURE_START_CODE) == false {
            return DecodeResult::InternalError;
        }
        proof {
            self.buffer_.lemma_wf();
            let r0 = self.model().ring;
            r0.lemma_read(10);
            r0.skip(10).lemma_read(3);
            r0.skip(10).read(3).1.lemma_read(16);
        }
        // get current picture type
        self.buffer_.skip(10);  // skip temporalReference
        let picture_type: u32 = self.buffer_.read(3);
        self.buffer_.skip(16);  // skip vbv_delay
        if !self.picture_header(picture_type) {
            return DecodeResult::InternalError;
        }
        match self.skip_to_slice() {
            None => {
                return DecodeResult::InternalError;
            },
            Some(code) => {
                if code != SLICE_START {
                    return DecodeResult::InternalError;
                }
            },
        }
        if !self.decode_slices() {
            return DecodeResult::InternalError;
        }
        proof {
            self.buffer_.lemma_wf();
            self.model().ring.lemma_back(32);
        }
        self.buffer_.back(32);
        self.runtime_.frame_forward = self.runtime_.frame_current;
        self.runtime_.frame_current = 1 - self.runtime_.frame_current;
        return DecodeResult::GotOneFrame;
    }
}

} // verus!
