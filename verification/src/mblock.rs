//! Decoding of one macroblock: its address, its type, its motion vector
//! and its blocks.
use vstd::prelude::*;
use crate::bitbuf::Ring;
use crate::bits::limit;
use crate::block::limit_table;
use crate::vblock::{reset_motion, reset_predictors};
use crate::video::{
    lemma_derived, Mpeg1Video, VideoModel, VideoMotion, VideoRuntime, MAX_INCREMENT,
    PICTURE_TYPE_I, PICTURE_TYPE_P,
};
use crate::vlc::{
    MP1V_CODE_BLOCK_PATTERN, MP1V_MACROBLOCK_ADDRESS_INCREMENT, MP1V_MACROBLOCK_TYPE_INTRA,
    MP1V_MACROBLOCK_TYPE_PREDICTIVE,
};

verus! {

/// Bit `bit` of a small number, counted from the lowest.
pub open spec fn flag(x: int, bit: int) -> int {
    (x / limit(bit)) % 2
}

/// The address increment of a macroblock: what the codes add up to, where
/// `acc` was added up before. The stuffing code is passed over as long as
/// no escape was read; each escape adds 33. `None` where the bits read are
/// no code, or the sum leads out of every picture.
pub open spec fn read_increment(ring: Ring, acc: int, stuffing: bool) -> (Option<int>, Ring)
    decreases ring.len(),
{
    let (t, r1) = ring.vlc_walk(MP1V_MACROBLOCK_ADDRESS_INCREMENT@, 0);
    match t {
        None => (None, r1),
        Some(t) => if t == 34 && stuffing {
            if 0 <= r1.len() < ring.len() {
                read_increment(r1, acc, true)
            } else {
                (None, r1)
            }
        } else if t == 35 {
            if 0 <= r1.len() < ring.len() && acc + 33 <= MAX_INCREMENT {
                read_increment(r1, acc + 33, false)
            } else {
                (None, r1)
            }
        } else {
            (Some(acc + t), r1)
        },
    }
}

impl VideoModel {
    /// The state with the current macroblock at address `addr`.
    pub open spec fn at_address(self, addr: int) -> VideoModel {
        VideoModel {
            rt: VideoRuntime {
                macroblock_address: addr as i32,
                mb_row: (addr / (self.info.mb_width as int)) as u32,
                mb_col: (addr % (self.info.mb_width as int)) as u32,
                ..self.rt
            },
            ..self
        }
    }

    /// The state with the macroblock address replaced.
    pub open spec fn with_address(self, addr: int) -> VideoModel {
        VideoModel { rt: VideoRuntime { macroblock_address: addr as i32, ..self.rt }, ..self }
    }

    /// Predicts the `count` macroblocks behind the current one, which the
    /// stream skips, each from the same place in the forward frame.
    pub open spec fn predict_skipped(self, count: int) -> (VideoModel, bool)
        decreases count,
    {
        if count <= 0 {
            (self, true)
        } else {
            let next = self.at_address(self.rt.macroblock_address + 1).predict_macroblock();
            if !next.1 {
                next
            } else {
                next.0.predict_skipped(count - 1)
            }
        }
    }

    /// Decodes the blocks of the current macroblock from `block` on that the
    /// pattern `cbp` names: its highest of six bits stands for block 0.
    pub open spec fn decode_blocks(self, cbp: int, block: int) -> (VideoModel, bool)
        decreases 6 - block,
    {
        if block < 0 || block >= 6 {
            (self, true)
        } else if flag(cbp, 5 - block) == 1 {
            let done = self.decode_block(block);
            if !done.1 {
                done
            } else {
                done.0.decode_blocks(cbp, block + 1)
            }
        } else {
            self.decode_blocks(cbp, block + 1)
        }
    }

    /// The state with the type of the current macroblock and what follows
    /// from its bits: bit 0 intra, bit 1 pattern, bit 3 motion.
    pub open spec fn with_type(self, mb_type: int) -> VideoModel {
        VideoModel {
            rt: VideoRuntime {
                macroblock_type: mb_type as i32,
                macroblock_intra: flag(mb_type, 0) as i32,
                macroblock_pattern: (2 * flag(mb_type, 1)) as i32,
                motion_forward: VideoMotion {
                    is_set: (8 * flag(mb_type, 3)) as i32,
                    ..self.rt.motion_forward
                },
                ..self.rt
            },
            ..self
        }
    }

    /// Reads the head of the current macroblock: its type and, where bit 4
    /// of the type says so, the quantizer scale. For an intra macroblock
    /// the motion vector goes back to 0; for another the DC predictors go
    /// back to 128 and the vector is read.
    #[verifier::opaque]
    pub open spec fn macroblock_head(self) -> (VideoModel, bool) {
        if self.rt.picture_type != PICTURE_TYPE_I && self.rt.picture_type != PICTURE_TYPE_P {
            (self, false)
        } else {
            let (t, r1) = self.ring.vlc_walk(
                if self.rt.picture_type == PICTURE_TYPE_I {
                    MP1V_MACROBLOCK_TYPE_INTRA@
                } else {
                    MP1V_MACROBLOCK_TYPE_PREDICTIVE@
                },
                0,
            );
            if t is None || t.unwrap() < 0 || t.unwrap() > 0x1f {
                (VideoModel { ring: r1, ..self }, false)
            } else {
                let mb_type = t.unwrap() as int;
                let typed = (VideoModel { ring: r1, ..self }).with_type(mb_type);
                let scaled = if flag(mb_type, 4) == 1 {
                    VideoModel {
                        ring: r1.read(5).1,
                        rt: VideoRuntime { quantizer_scale: r1.read(5).0 as u32, ..typed.rt },
                        ..typed
                    }
                } else {
                    typed
                };
                if scaled.rt.macroblock_intra != 0 {
                    (VideoModel { rt: reset_motion(scaled.rt), ..scaled }, true)
                } else {
                    (VideoModel {
                        rt: reset_predictors(scaled.rt),
                        ..scaled
                    }).decode_motion_vectors()
                }
            }
        }
    }

    /// Decodes the blocks of the current macroblock that its pattern names,
    /// which is all six for an intra macroblock without a pattern and none
    /// for another.
    #[verifier::opaque]
    pub open spec fn macroblock_blocks(self) -> (VideoModel, bool) {
        if self.rt.macroblock_pattern != 0 {
            let (c, r2) = self.ring.vlc_walk(MP1V_CODE_BLOCK_PATTERN@, 0);
            if c is None || c.unwrap() < 0 || c.unwrap() > 63 {
                (VideoModel { ring: r2, ..self }, false)
            } else {
                (VideoModel { ring: r2, ..self }).decode_blocks(c.unwrap() as int, 0)
            }
        } else if self.rt.macroblock_intra != 0 {
            self.decode_blocks(0x3f, 0)
        } else {
            self.decode_blocks(0, 0)
        }
    }

    /// Decodes the current macroblock from its type on: the head is read, a
    /// macroblock that is not intra is predicted, and the blocks follow.
    pub open spec fn decode_macroblock_body(self) -> (VideoModel, bool) {
        let head = self.macroblock_head();
        if !head.1 {
            head
        } else {
            let moved = if head.0.rt.macroblock_intra != 0 {
                head
            } else {
                head.0.predict_macroblock()
            };
            if !moved.1 {
                moved
            } else {
                moved.0.macroblock_blocks()
            }
        }
    }

    /// Finds the place of the next macroblock of a slice. The first
    /// increment of a slice is added to the address as it is. A later one
    /// first has the macroblocks that it skips predicted, after the DC
    /// predictors went back to 128 and, in a predictive picture, the vector
    /// back to 0. An address outside the picture is fatal.
    #[verifier::opaque]
    pub open spec fn place_macroblock(self, slice_begin: bool) -> (VideoModel, bool) {
        let (inc, r1) = read_increment(self.ring, 0, true);
        let read = VideoModel { ring: r1, ..self };
        if inc is None {
            (read, false)
        } else {
            let increment = inc.unwrap();
            let address = self.rt.macroblock_address as int;
            let placed = if increment < 1 {
                (read, false)
            } else if slice_begin {
                (read.with_address(address + increment), true)
            } else if address < 0 || address + increment >= self.info.mb_size {
                (read, false)
            } else {
                let calm = if increment > 1 {
                    VideoModel {
                        rt: if self.rt.picture_type == PICTURE_TYPE_P {
                            reset_motion(reset_predictors(self.rt))
                        } else {
                            reset_predictors(self.rt)
                        },
                        ..read
                    }
                } else {
                    read
                };
                let skipped = calm.predict_skipped(increment - 1);
                if !skipped.1 {
                    skipped
                } else {
                    (skipped.0.with_address(skipped.0.rt.macroblock_address + 1), true)
                }
            };
            if !placed.1 {
                placed
            } else if placed.0.rt.macroblock_address < 0 || placed.0.rt.macroblock_address
                >= self.info.mb_size {
                (placed.0, false)
            } else {
                (placed.0.at_address(placed.0.rt.macroblock_address as int), true)
            }
        }
    }

    /// Decodes the next macroblock of a slice: at its place, from its type
    /// on.
    pub open spec fn decode_macroblock(self, slice_begin: bool) -> (VideoModel, bool) {
        let placed = self.place_macroblock(slice_begin);
        if !placed.1 {
            placed
        } else {
            placed.0.decode_macroblock_body()
        }
    }
}

/// Reading an address increment keeps the buffer well formed and takes bits
/// away only.
pub proof fn lemma_read_increment(ring: Ring, acc: int, stuffing: bool)
    requires
        ring.wf(),
        0 <= acc <= MAX_INCREMENT,
    ensures
        read_increment(ring, acc, stuffing).1.wf(),
        read_increment(ring, acc, stuffing).1.len() <= ring.len(),
        read_increment(ring, acc, stuffing).1.cap() == ring.cap(),
        match read_increment(ring, acc, stuffing).0 {
            None => true,
            Some(i) => -0x8000 <= i <= MAX_INCREMENT + 0x8000,
        },
    decreases ring.len(),
{
    ring.lemma_vlc_walk(MP1V_MACROBLOCK_ADDRESS_INCREMENT@, 0);
    let (t, r1) = ring.vlc_walk(MP1V_MACROBLOCK_ADDRESS_INCREMENT@, 0);
    if t is Some {
        let t = t.unwrap();
        if t == 34 && stuffing {
            if 0 <= r1.len() < ring.len() {
                lemma_read_increment(r1, acc, true);
            }
        } else if t == 35 {
            if 0 <= r1.len() < ring.len() && acc + 33 <= MAX_INCREMENT {
                lemma_read_increment(r1, acc + 33, false);
            }
        }
    }
}

/// The flags of a number of at most five bits.
pub proof fn lemma_flags(x: int)
    requires
        0 <= x <= 0x3f,
    ensures
        flag(x, 0) == x % 2,
        flag(x, 1) == (x / 2) % 2,
        flag(x, 2) == (x / 4) % 2,
        flag(x, 3) == (x / 8) % 2,
        flag(x, 4) == (x / 16) % 2,
        flag(x, 5) == (x / 32) % 2,
{
    limit_table();
}

impl Mpeg1Video {
    /// Reads the address increment of a macroblock.
    pub(crate) fn decode_increment(&mut self) -> (r: Option<i32>)
        requires
            old(self).inv(),
        ensures
            final(self).inv(),
            final(self).model() == (VideoModel {
                ring: read_increment(old(self).model().ring, 0, true).1,
                ..old(self).model()
            }),
            match read_increment(old(self).model().ring, 0, true).0 {
                None => r is None,
                Some(i) => r == Some(i as i32) && r.unwrap() == i,
            },
            final(self).model().ring.len() <= old(self).model().ring.len(),
            final(self).model().ring.cap() == old(self).model().ring.cap(),
    {
        let mut increment: i32 = 0;
        let mut stuffing: bool = true;
        proof {
            self.buffer_.lemma_wf();
            lemma_read_increment(self.model().ring, 0, true);
        }
        loop
            invariant
                self.inv(),
                0 <= increment <= MAX_INCREMENT,
                read_increment(self.model().ring, increment as int, stuffing) == read_increment(
                    old(self).model().ring,
                    0,
                    true,
                ),
                self.model() == (VideoModel { ring: self.model().ring, ..old(self).model() }),
                self.model().ring.len() <= old(self).model().ring.len(),
                self.model().ring.cap() == old(self).model().ring.cap(),
            decreases self.model().ring.len(),
        {
            proof {
                self.buffer_.lemma_wf();
                self.model().ring.lemma_vlc_walk(MP1V_MACROBLOCK_ADDRESS_INCREMENT@, 0);
                lemma_read_increment(self.model().ring, increment as int, stuffing);
            }
            let before: usize = self.buffer_.len();
            let t: i16 = match self.buffer_.read_vlc(&MP1V_MACROBLOCK_ADDRESS_INCREMENT) {
                None => {
                    return None;
                },
                Some(t) => t,
            };
            if t == 34 && stuffing {
                if self.buffer_.len() >= before {
                    return None;
                }
            } else if t == 35 {
                if self.buffer_.len() >= before || increment + 33 > MAX_INCREMENT {
                    return None;
                }
                increment = increment + 33;
                stuffing = false;
            } else {
                return Some(increment + t as i32);
            }
        }
    }

    /// Moves the current macroblock to address `addr`.
    pub(crate) fn set_address(&mut self, addr: i32)
        requires
            old(self).inv(),
            old(self).model().info._parsed_,
            0 <= addr,
        ensures
            final(self).inv(),
            final(self).model() == old(self).model().at_address(addr as int),
            final(self).model().same_setup(old(self).model()),
            final(self).model().same_picture(old(self).model()),
            final(self).model().rt.mb_col < final(self).model().info.mb_width,
            addr < old(self).model().info.mb_size ==> final(self).model().mb_ready(),
    {
        proof {
            lemma_derived(self.info_);
            if addr < self.info_.mb_size {
                vstd::arithmetic::div_mod::lemma_multiply_divide_lt(
                    addr as int,
                    self.info_.mb_width as int,
                    self.info_.mb_height as int,
                );
            }
        }
        self.runtime_.macroblock_address = addr;
        self.runtime_.mb_row = addr as u32 / self.info_.mb_width;
        self.runtime_.mb_col = addr as u32 % self.info_.mb_width;
    }

    /// Predicts the `count` macroblocks that the stream skips.
    pub(crate) fn predict_skipped(&mut self, count: i32) -> (ok: bool)
        requires
            old(self).inv(),
            old(self).model().info._parsed_,
            0 <= count,
            0 <= old(self).model().rt.macroblock_address,
            old(self).model().rt.macroblock_address + count < old(self).model().info.mb_size,
        ensures
            final(self).inv(),
            final(self).model() == old(self).model().predict_skipped(count as int).0,
            ok == old(self).model().predict_skipped(count as int).1,
            final(self).model().same_setup(old(self).model()),
            final(self).model().same_picture(old(self).model()),
            final(self).model().ring == old(self).model().ring,
            ok ==> final(self).model().rt.macroblock_address == old(
                self,
            ).model().rt.macroblock_address + count,
            final(self).model().rt.picture_type == old(self).model().rt.picture_type,
    {
        let mut left: i32 = count;
        proof {
            lemma_derived(self.info_);
        }
        while left > 0
            invariant
                self.inv(),
                self.model().info._parsed_,
                self.model().same_setup(old(self).model()),
                self.model().same_picture(old(self).model()),
                self.model().ring == old(self).model().ring,
                0 <= left <= count,
                self.model().info.mb_size <= 65536,
                self.model().rt.macroblock_address == old(self).model().rt.macroblock_address
                    + count - left,
                0 <= old(self).model().rt.macroblock_address,
                old(self).model().rt.macroblock_address + count < old(self).model().info.mb_size,
                self.model().predict_skipped(left as int) == old(self).model().predict_skipped(
                    count as int,
                ),
                self.model().rt.picture_type == old(self).model().rt.picture_type,
            decreases left,
        {
            let next: i32 = self.runtime_.macroblock_address + 1;
            self.set_address(next);
            if !self.predict_macroblock() {
                return false;
            }
            left = left - 1;
        }
        true
    }

    /// Decodes the blocks of the current macroblock that `cbp` names.
    pub(crate) fn decode_blocks(&mut self, cbp: u32) -> (ok: bool)
        requires
            old(self).inv(),
            old(self).model().mb_ready(),
            cbp <= 0x3f,
        ensures
            final(self).inv(),
            final(self).model() == old(self).model().decode_blocks(cbp as int, 0).0,
            ok == old(self).model().decode_blocks(cbp as int, 0).1,
            final(self).model().same_setup(old(self).model()),
            final(self).model().same_picture(old(self).model()),
            final(self).model().ring.len() <= old(self).model().ring.len(),
            final(self).model().rt.macroblock_address == old(self).model().rt.macroblock_address,
    {
        let mut mask: u32 = 0x20;
        let mut block: usize = 0;
        proof {
            limit_table();
        }
        while block < 6
            invariant
                self.inv(),
                self.model().mb_ready(),
                block <= 6,
                cbp <= 0x3f,
                block < 6 ==> mask == limit(5 - block),
                self.model().same_setup(old(self).model()),
                self.model().same_picture(old(self).model()),
                self.model().ring.len() <= old(self).model().ring.len(),
                self.model().rt.macroblock_address == old(self).model().rt.macroblock_address,
                self.model().decode_blocks(cbp as int, block as int) == old(
                    self,
                ).model().decode_blocks(cbp as int, 0),
            decreases 6 - block,
        {
            proof {
                limit_table();
            }
            if (cbp / mask) % 2 == 1 {
                if !self.decode_block(block) {
                    return false;
                }
            }
            mask = mask / 2;
            block = block + 1;
        }
        true
    }

    /// Decodes the current macroblock from its type on.
    #[verifier::rlimit(40)]
    pub(crate) fn decode_macroblock_body(&mut self) -> (ok: bool)
        requires
            old(self).inv(),
            old(self).model().mb_ready(),
        ensures
            final(self).inv(),
            final(self).model() == old(self).model().decode_macroblock_body().0,
            ok == old(self).model().decode_macroblock_body().1,
            final(self).model().same_setup(old(self).model()),
            final(self).model().same_picture(old(self).model()),
            final(self).model().ring.len() <= old(self).model().ring.len(),
            final(self).model().rt.macroblock_address == old(self).model().rt.macroblock_address,
    {
        proof {
            reveal(VideoModel::macroblock_head);
            reveal(VideoModel::macroblock_blocks);
            self.buffer_.lemma_wf();
            self.model().ring.lemma_vlc_walk(MP1V_MACROBLOCK_TYPE_INTRA@, 0);
            self.model().ring.lemma_vlc_walk(MP1V_MACROBLOCK_TYPE_PREDICTIVE@, 0);
        }
        // Process the current macroblock
        let macroblock_type: Option<i16> = if self.runtime_.picture_type == PICTURE_TYPE_I {
            self.buffer_.read_vlc(&MP1V_MACROBLOCK_TYPE_INTRA)
        } else if self.runtime_.picture_type == PICTURE_TYPE_P {
            self.buffer_.read_vlc(&MP1V_MACROBLOCK_TYPE_PREDICTIVE)
        } else {
            return false;
        };
        let mb_type: i32 = match macroblock_type {
            None => {
                return false;
            },
            Some(t) => t as i32,
        };
        if mb_type < 0 || mb_type > 0x1f {
            return false;
        }
        proof {
            lemma_flags(mb_type as int);
            self.buffer_.lemma_wf();
            self.model().ring.lemma_read(5);
            limit_table();
        }
        self.runtime_.macroblock_type = mb_type;
        self.runtime_.macroblock_intra = mb_type % 2;
        self.runtime_.macroblock_pattern = 2 * ((mb_type / 2) % 2);
        self.runtime_.motion_forward.is_set = 8 * ((mb_type / 8) % 2);
        // Quantizer scale
        if (mb_type / 16) % 2 == 1 {
            self.runtime_.quantizer_scale = self.buffer_.read(5);
        }
        if self.runtime_.macroblock_intra != 0 {
            // Intra-coded macroblocks reset motion vectors
            self.runtime_.motion_forward.h = 0;
            self.runtime_.motion_forward.v = 0;
        } else {
            // Non-intra macroblocks reset DC predictors
            self.runtime_.dc_predictor[0] = 128;
            self.runtime_.dc_predictor[1] = 128;
            self.runtime_.dc_predictor[2] = 128;
            assert(self.runtime_.dc_predictor =~= [128i32, 128i32, 128i32]);
            if !self.decode_motion_vectors() {
                return false;
            }
            if !self.predict_macroblock() {
                return false;
            }
        }
        // Decode blocks
        let cbp: u32 = if self.runtime_.macroblock_pattern != 0 {
            proof {
                self.buffer_.lemma_wf();
                self.model().ring.lemma_vlc_walk(MP1V_CODE_BLOCK_PATTERN@, 0);
            }
            match self.buffer_.read_vlc(&MP1V_CODE_BLOCK_PATTERN) {
                None => {
                    return false;
                },
                Some(c) => {
                    if c < 0 || c > 63 {
                        return false;
                    }
                    c as u32
                },
            }
        } else {
            if self.runtime_.macroblock_intra != 0 {
                0x3f
            } else {
                0x00
            }
        };
        self.decode_blocks(cbp)
    }

    /// Decodes the next macroblock of a slice. Returns false where the
    /// stream cannot be decoded any further.
    #[verifier::rlimit(40)]
    pub(crate) fn decode_macroblock(&mut self, slice_begin: bool) -> (ok: bool)
        requires
            old(self).inv(),
            old(self).model().info._parsed_,
            -1 <= old(self).model().rt.macroblock_address <= 0x1_0000,
        ensures
            final(self).inv(),
            final(self).model() == old(self).model().decode_macroblock(slice_begin).0,
            ok == old(self).model().decode_macroblock(slice_begin).1,
            final(self).model().same_setup(old(self).model()),
            final(self).model().same_picture(old(self).model()),
            final(self).model().ring.len() <= old(self).model().ring.len(),
            ok ==> old(self).model().rt.macroblock_address
                < final(self).model().rt.macroblock_address,
            ok ==> final(self).model().rt.macroblock_address < final(self).model().info.mb_size,
    {
        proof {
            reveal(VideoModel::place_macroblock);
            lemma_derived(self.info_);
            self.buffer_.lemma_wf();
            lemma_read_increment(self.model().ring, 0, true);
        }
        let increment: i32 = match self.decode_increment() {
            None => {
                return false;
            },
            Some(i) => i,
        };
        if increment < 1 {
            return false;
        }
        if slice_begin {
            // The first increment of a slice counts from the end of the row
            // before the slice, not from the macroblock before.
            self.runtime_.macroblock_address = self.runtime_.macroblock_address + increment;
        } else {
            if self.runtime_.macroblock_address < 0 || self.runtime_.macroblock_address + increment
                >= self.info_.mb_size as i32 {
                return false;
            }
            if increment > 1 {
                // Skipped macroblocks reset DC predictors
                self.runtime_.dc_predictor[0] = 128;
                self.runtime_.dc_predictor[1] = 128;
                self.runtime_.dc_predictor[2] = 128;
                assert(self.runtime_.dc_predictor =~= [128i32, 128i32, 128i32]);
                // Skipped macroblocks in P-pictures reset motion vectors
                if self.runtime_.picture_type == PICTURE_TYPE_P {
                    self.runtime_.motion_forward.h = 0;
                    self.runtime_.motion_forward.v = 0;
                }
                proof {
                    limit_table();
                }
            }
            // Predict skipped macroblocks
            if !self.predict_skipped(increment - 1) {
                return false;
            }
            self.runtime_.macroblock_address = self.runtime_.macroblock_address + 1;
        }
        let address: i32 = self.runtime_.macroblock_address;
        if address < 0 || address >= self.info_.mb_size as i32 {
            return false;
        }
        self.set_address(address);
        self.decode_macroblock_body()
    }
}

} // verus!
