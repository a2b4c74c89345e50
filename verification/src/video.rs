//! Decoder of MPEG-1 video, intra and predictive pictures only, over a ring
//! buffer that the caller fills.
use vstd::prelude::*;
use crate::bitbuf::{Ring, RingBitBuffer};
use crate::bits::limit;
use crate::block::{limit_table, MP1V_INTRA_QUANT_MATRIX, MP1V_NON_INTRA_QUANT_MATRIX};
use crate::frame::{VideoFrame, VideoPlane};

verus! {

/// Frame rates, in thousandths of a frame per second, by the code of the
/// sequence header; 0 for the codes that are reserved.
pub const MP1V_FRAME_RATE: [u32; 16] = [
    0, 23976, 24000, 25000, 29970, 30000, 50000, 59940,
    60000, 0, 0, 0, 0, 0, 0, 0,
];

pub const PICTURE_START_CODE: u32 = 0x00000100;

pub const SEQUENCE_START_CODE: u32 = 0x000001B3;

pub const START_EXTENSION_CODE: u32 = 0xB5;

pub const USER_DATA_CODE: u32 = 0xB2;

pub const SLICE_START: u32 = 0x01;

pub const SLICE_LAST: u32 = 0xAF;

pub const PICTURE_TYPE_I: u32 = 0x01;

pub const PICTURE_TYPE_P: u32 = 0x02;

/// An address increment beyond this leads out of every picture.
pub const MAX_INCREMENT: i32 = 0x2_0000;

#[derive(Debug, Clone, Copy, PartialEq, Eq, Structural)]
pub enum DecodeResult {
    /// One picture was decoded.
    GotOneFrame,
    /// The buffer does not hold a whole picture yet.
    NeedMoreData,
    /// The stream breaks the format or asks for what is not supported.
    InternalError,
}

/// What the sequence header says, and what follows from it.
#[derive(Debug, Default, Clone, Copy)]
pub struct CodecInfo {
    pub pic_width: u32,
    pub pic_height: u32,
    pub aspect_ratio: u32,
    /// In thousandths of a frame per second.
    pub frame_rate: u32,
    /// Width and height in macroblocks, and their product.
    pub mb_width: u32,
    pub mb_height: u32,
    pub mb_size: u32,
    pub luma_width: u32,
    pub luma_height: u32,
    pub chroma_width: u32,
    pub chroma_height: u32,
    pub _parsed_: bool,
}

#[derive(Debug, Clone, Copy)]
pub struct QuantMatrix {
    pub intra_quant_matrix: [u8; 64],
    pub non_intra_quant_matrix: [u8; 64],
}

#[derive(Debug, Default, Clone, Copy)]
pub struct VideoMotion {
    pub full_px: i32,
    pub is_set: i32,
    pub r_size: i32,
    pub h: i32,
    pub v: i32,
}

#[derive(Debug, Default, Clone, Copy)]
pub struct VideoRuntime {
    pub frame_current: i32,
    pub frame_forward: i32,
    pub quantizer_scale: u32,
    pub picture_type: u32,
    pub dc_predictor: [i32; 3],
    pub motion_forward: VideoMotion,
    pub mb_row: u32,
    pub mb_col: u32,
    pub macroblock_pattern: i32,
    pub macroblock_intra: i32,
    pub macroblock_type: i32,
    pub macroblock_address: i32,
}

/// Mathematical model of the decoder.
pub struct VideoModel {
    pub ring: Ring,
    /// The pixels of both frames.
    pub arena: Seq<u8>,
    pub info: CodecInfo,
    /// The quantization weights of intra blocks and of the others.
    pub intra_q: Seq<u8>,
    pub non_intra_q: Seq<u8>,
    pub rt: VideoRuntime,
}

/// The sizes in macroblocks and in pixels that follow from the size of the
/// picture.
pub open spec fn derived(info: CodecInfo) -> CodecInfo {
    let mb_width = (info.pic_width + 15) / 16;
    let mb_height = (info.pic_height + 15) / 16;
    CodecInfo {
        mb_width: mb_width as u32,
        mb_height: mb_height as u32,
        mb_size: (mb_width * mb_height) as u32,
        luma_width: (16 * mb_width) as u32,
        luma_height: (16 * mb_height) as u32,
        chroma_width: (8 * mb_width) as u32,
        chroma_height: (8 * mb_height) as u32,
        _parsed_: true,
        ..info
    }
}

/// The sizes agree with the size of a picture of at least one pixel and at
/// most 4095 in each direction.
pub open spec fn dims_ok(info: CodecInfo) -> bool {
    &&& 1 <= info.pic_width <= 4095
    &&& 1 <= info.pic_height <= 4095
    &&& info == derived(info)
}

/// Number of pixels of one frame: a luma plane and two chroma planes of a
/// quarter of its size.
pub open spec fn frame_size(info: CodecInfo) -> int {
    384 * info.mb_size
}

/// Frame `index` (0 or 1) in the array of pixels: luma first, then Cr, then
/// Cb.
pub open spec fn frame_of(info: CodecInfo, index: int) -> VideoFrame {
    let base = index * frame_size(info);
    VideoFrame {
        width: info.pic_width,
        height: info.pic_height,
        y: VideoPlane { base: base as usize, width: info.luma_width, height: info.luma_height },
        cr: VideoPlane {
            base: (base + 256 * info.mb_size) as usize,
            width: info.chroma_width,
            height: info.chroma_height,
        },
        cb: VideoPlane {
            base: (base + 320 * info.mb_size) as usize,
            width: info.chroma_width,
            height: info.chroma_height,
        },
    }
}

/// Half the range of a motion vector component for a given `r_size`.
pub open spec fn motion_range(r_size: int) -> int {
    16 * limit(r_size)
}

/// The state between macroblocks is in order: the frame roles are 0 or 1
/// and the motion vector is inside its range.
pub open spec fn rt_ok(rt: VideoRuntime) -> bool {
    &&& 0 <= rt.frame_current <= 1
    &&& 0 <= rt.frame_forward <= 1
    &&& 0 <= rt.motion_forward.r_size <= 6
    &&& -motion_range(rt.motion_forward.r_size as int) <= rt.motion_forward.h < motion_range(
        rt.motion_forward.r_size as int,
    )
    &&& -motion_range(rt.motion_forward.r_size as int) <= rt.motion_forward.v < motion_range(
        rt.motion_forward.r_size as int,
    )
}

impl VideoModel {
    pub open spec fn wf(self) -> bool {
        &&& self.ring.wf()
        &&& self.ring.cap() <= crate::bitbuf::RING_MAX_CAPACITY
        &&& rt_ok(self.rt)
        &&& self.info._parsed_ ==> dims_ok(self.info) && self.arena.len() == 2 * frame_size(
            self.info,
        )
    }

    /// What the sequence header fixed is the same in both models.
    pub open spec fn same_setup(self, other: VideoModel) -> bool {
        &&& self.info == other.info
        &&& self.intra_q == other.intra_q
        &&& self.non_intra_q == other.non_intra_q
        &&& self.ring.cap() == other.ring.cap()
    }

    /// What the header of the picture fixed is the same in both models.
    pub open spec fn same_picture(self, other: VideoModel) -> bool {
        &&& self.rt.frame_current == other.rt.frame_current
        &&& self.rt.frame_forward == other.rt.frame_forward
        &&& self.rt.picture_type == other.rt.picture_type
        &&& self.rt.motion_forward.r_size == other.rt.motion_forward.r_size
        &&& self.rt.motion_forward.full_px == other.rt.motion_forward.full_px
    }

    /// A macroblock can be decoded: the sequence header was read and the
    /// macroblock lies inside the picture.
    pub open spec fn mb_ready(self) -> bool {
        &&& self.wf()
        &&& self.info._parsed_
        &&& self.rt.mb_row < self.info.mb_height
        &&& self.rt.mb_col < self.info.mb_width
    }
}

/// A row of macroblocks inside the picture ends inside the picture.
pub proof fn lemma_mb_rows(row: int, width: int, height: int)
    requires
        0 <= row < height,
        0 <= width,
    ensures
        0 <= row * width,
        row * width + width <= width * height,
{
    assert(row * width + width <= width * height) by (nonlinear_arith)
        requires
            0 <= row < height,
            0 <= width,
    ;
    assert(0 <= row * width) by (nonlinear_arith)
        requires
            0 <= row,
            0 <= width,
    ;
}

/// The sizes that follow from a picture of 1 to 4095 pixels each way: at
/// most 256 macroblocks each way.
pub proof fn lemma_derived(info: CodecInfo)
    requires
        1 <= info.pic_width <= 4095,
        1 <= info.pic_height <= 4095,
    ensures
        dims_ok(derived(info)),
        1 <= derived(info).mb_width <= 256,
        1 <= derived(info).mb_height <= 256,
        1 <= derived(info).mb_size <= 65536,
        derived(info).mb_size == derived(info).mb_width * derived(info).mb_height,
{
    let w = (info.pic_width + 15) / 16;
    let h = (info.pic_height + 15) / 16;
    assert(1 <= w * h <= 65536) by (nonlinear_arith)
        requires
            1 <= w <= 256,
            1 <= h <= 256,
    ;
}
/// Decoder of MPEG-1 video.
pub struct Mpeg1Video {
    pub(crate) buffer_: RingBitBuffer,
    pub(crate) frame_base_: Vec<u8>,
    pub(crate) info_: CodecInfo,
    pub(crate) qmatrix_: QuantMatrix,
    pub(crate) runtime_: VideoRuntime,
}

impl View for Mpeg1Video {
    type V = VideoModel;

    closed spec fn view(&self) -> VideoModel {
        self.model()
    }
}

/// Frame `index` in the array of pixels.
pub fn frame_at(info: &CodecInfo, index: usize) -> (r: VideoFrame)
    requires
        dims_ok(*info),
        index <= 1,
    ensures
        r == frame_of(*info, index as int),
        r.y.base + 256 * info.mb_size == r.cr.base,
        r.cr.base + 64 * info.mb_size == r.cb.base,
        r.cb.base + 64 * info.mb_size == r.y.base + 384 * info.mb_size,
        r.y.base == 0 || r.y.base == 384 * info.mb_size,
        r.y.base == index * frame_size(*info),
{
    proof {
        lemma_derived(*info);
    }
    let mb_size: usize = info.mb_size as usize;
    let base: usize = if index == 0 {
        0
    } else {
        384 * mb_size
    };
    VideoFrame {
        width: info.pic_width,
        height: info.pic_height,
        y: VideoPlane { base: base, width: info.luma_width, height: info.luma_height },
        cr: VideoPlane {
            base: base + 256 * mb_size,
            width: info.chroma_width,
            height: info.chroma_height,
        },
        cb: VideoPlane {
            base: base + 320 * mb_size,
            width: info.chroma_width,
            height: info.chroma_height,
        },
    }
}

impl Mpeg1Video {
    /// The model that the fields stand for.
    pub(crate) open spec fn model(&self) -> VideoModel {
        VideoModel {
            ring: self.buffer_@,
            arena: self.frame_base_@,
            info: self.info_,
            intra_q: self.qmatrix_.intra_quant_matrix@,
            non_intra_q: self.qmatrix_.non_intra_quant_matrix@,
            rt: self.runtime_,
        }
    }

    pub(crate) open spec fn inv(&self) -> bool {
        &&& self.buffer_.wf()
        &&& self.model().wf()
    }

    pub closed spec fn wf(&self) -> bool {
        self.inv()
    }

    pub proof fn lemma_wf(&self)
        requires
            self.wf(),
        ensures
            self@.wf(),
    {
    }
}

/// What a new decoder knows of the sequence: nothing.
pub open spec fn initial_info() -> CodecInfo {
    CodecInfo {
        pic_width: 0,
        pic_height: 0,
        aspect_ratio: 0,
        frame_rate: 0,
        mb_width: 0,
        mb_height: 0,
        mb_size: 0,
        luma_width: 0,
        luma_height: 0,
        chroma_width: 0,
        chroma_height: 0,
        _parsed_: false,
    }
}

/// The state of a new decoder.
pub open spec fn initial_runtime() -> VideoRuntime {
    VideoRuntime {
        frame_current: 0,
        frame_forward: 0,
        quantizer_scale: 0,
        picture_type: 0,
        dc_predictor: [0i32, 0i32, 0i32],
        motion_forward: VideoMotion { full_px: 0, is_set: 0, r_size: 0, h: 0, v: 0 },
        mb_row: 0,
        mb_col: 0,
        macroblock_pattern: 0,
        macroblock_intra: 0,
        macroblock_type: 0,
        macroblock_address: 0,
    }
}

/// The 64 bytes of a quantization matrix that stand next in the buffer.
pub open spec fn matrix_at(ring: Ring) -> Seq<u8> {
    Seq::new(64, |i: int| ring.advance(8 * i).peek(8) as u8)
}

/// A quantization matrix of the sequence header, and the buffer behind it:
/// one bit says whether 64 bytes follow; `default` stands where they do
/// not. `None` where the buffer does not hold all of it.
pub open spec fn read_matrix(ring: Ring, default: Seq<u8>) -> Option<(Seq<u8>, Ring)> {
    if !ring.has(1) {
        None
    } else if ring.peek(1) == 0x01 {
        if ring.has(513) {
            Some((matrix_at(ring.advance(1)), ring.advance(513)))
        } else {
            None
        }
    } else {
        Some((default, ring.advance(1)))
    }
}

/// What reading a sequence header gives.
pub enum SeqHeader {
    /// The buffer does not hold the whole header: nothing was read.
    Deferred,
    /// The header gives a picture without pixels.
    Bad(Ring),
    /// The buffer behind the header, what the header says, and the two
    /// quantization matrices.
    Parsed(Ring, CodecInfo, Seq<u8>, Seq<u8>),
}

/// How an attempt to read the sequence header ended.
#[derive(Debug, Clone, Copy, PartialEq, Eq, Structural)]
pub enum SeqOutcome {
    Parsed,
    Deferred,
    Bad,
}

/// What the first 32 bits behind the start code of a sequence header say.
pub open spec fn sequence_fields(ring: Ring) -> CodecInfo {
    CodecInfo {
        pic_width: ring.peek(12) as u32,
        pic_height: ring.advance(12).peek(12) as u32,
        aspect_ratio: ring.advance(24).peek(4) as u32,
        frame_rate: MP1V_FRAME_RATE[ring.advance(28).peek(4)],
        mb_width: 0,
        mb_height: 0,
        mb_size: 0,
        luma_width: 0,
        luma_height: 0,
        chroma_width: 0,
        chroma_height: 0,
        _parsed_: false,
    }
}

/// The sequence header that stands next in the buffer, behind its start
/// code: width and height in twelve bits each, the aspect ratio and the
/// code of the frame rate in four bits each, thirty bits that are passed
/// over, and the two quantization matrices.
#[verifier::opaque]
pub open spec fn read_sequence_header(ring: Ring) -> SeqHeader {
    if !ring.has(64) {
        SeqHeader::Deferred
    } else {
        match read_matrix(ring.advance(62), MP1V_INTRA_QUANT_MATRIX@) {
            None => SeqHeader::Deferred,
            Some((intra_q, r1)) => match read_matrix(r1, MP1V_NON_INTRA_QUANT_MATRIX@) {
                None => SeqHeader::Deferred,
                Some((non_intra_q, r2)) => if ring.peek(12) == 0 || ring.advance(12).peek(12)
                    == 0 {
                    SeqHeader::Bad(r2)
                } else {
                    SeqHeader::Parsed(r2, derived(sequence_fields(ring)), intra_q, non_intra_q)
                },
            },
        }
    }
}

impl VideoModel {
    /// The state once a sequence header was read: the frames are new and
    /// black, and both roles fall to frame 0.
    pub open spec fn with_sequence(
        self,
        ring: Ring,
        info: CodecInfo,
        intra_q: Seq<u8>,
        non_intra_q: Seq<u8>,
    ) -> VideoModel {
        VideoModel {
            ring,
            arena: Seq::new((2 * frame_size(info)) as nat, |i: int| 0u8),
            info,
            intra_q,
            non_intra_q,
            rt: VideoRuntime { frame_current: 0, frame_forward: 0, ..self.rt },
        }
    }

    /// The state after an attempt to read the sequence header.
    pub open spec fn decode_sequence_header(self) -> (VideoModel, SeqOutcome) {
        match read_sequence_header(self.ring) {
            SeqHeader::Deferred => (self, SeqOutcome::Deferred),
            SeqHeader::Bad(ring) => (VideoModel { ring, ..self }, SeqOutcome::Bad),
            SeqHeader::Parsed(ring, info, intra_q, non_intra_q) => (
                self.with_sequence(ring, info, intra_q, non_intra_q),
                SeqOutcome::Parsed,
            ),
        }
    }

    /// One call of `decode`. Nothing is decoded before the start code of a
    /// picture stands twice in the buffer, which shows that one picture is
    /// complete. The first picture is decoded behind the first sequence
    /// header; where the buffer does not hold all of that header, the
    /// cursor goes back to its start code.
    pub open spec fn decode(self) -> (VideoModel, DecodeResult) {
        if !self.ring.include_two_code(PICTURE_START_CODE) {
            (self, DecodeResult::NeedMoreData)
        } else if self.info._parsed_ {
            self.decode_picture()
        } else {
            match self.ring.find_start_code(SEQUENCE_START_CODE) {
                None => (self, DecodeResult::InternalError),
                Some(r0) => {
                    let read = (VideoModel { ring: r0, ..self }).decode_sequence_header();
                    match read.1 {
                        SeqOutcome::Deferred => (
                            VideoModel { ring: r0.back(32), ..self },
                            DecodeResult::NeedMoreData,
                        ),
                        SeqOutcome::Bad => (read.0, DecodeResult::InternalError),
                        SeqOutcome::Parsed => read.0.decode_picture(),
                    }
                },
            }
        }
    }
}

/// Reads one quantization matrix of the sequence header.
#[verifier::rlimit(40)]
fn load_matrix(buffer: &mut RingBitBuffer, default: &[u8; 64]) -> (r: Option<[u8; 64]>)
    requires
        old(buffer).wf(),
    ensures
        final(buffer).wf(),
        match read_matrix(old(buffer)@, default@) {
            None => r is None && final(buffer)@ == old(buffer)@,
            Some((matrix, ring)) => r is Some && r.unwrap()@ == matrix && final(buffer)@ == ring
                && ring.wf() && ring.len() <= old(buffer)@.len() && (ring == old(
                buffer,
            )@.advance(1) || ring == old(buffer)@.advance(513)) && old(buffer)@.len()
                - ring.len() <= 513 && ring == old(buffer)@.advance(
                old(buffer)@.len() - ring.len(),
            ),
        },
{
    proof {
        buffer.lemma_wf();
        limit_table();
        crate::bits::lemma_bits_val_bound(old(buffer)@.buf, old(buffer)@.rbi, 1);
        if old(buffer)@.has(1) {
            old(buffer)@.lemma_unread(1);
            if old(buffer)@.has(513) {
                old(buffer)@.lemma_advance_add(1, 512);
            }
        }
    }
    if !buffer.has(1) {
        return None;
    }
    if buffer.read(1) == 0x01 {
        if buffer.has(64 * 8) == false {
            buffer.back(1);
            return None;
        }
        let ghost start = buffer@;
        let mut matrix: [u8; 64] = [0u8; 64];
        let mut i: usize = 0;
        proof {
            buffer.lemma_wf();
        }
        while i < 64
            invariant
                i <= 64,
                buffer.wf(),
                start.wf(),
                start.has(512),
                buffer@ == start.advance(8 * i),
                forall|k: int| 0 <= k < i ==> #[trigger] matrix[k] == matrix_at(start)[k],
            decreases 64 - i,
        {
            proof {
                start.lemma_advance_add(8 * i, 8);
                crate::bits::lemma_bits_val_bound(start.buf, start.advance(8 * i).rbi, 8);
            }
            matrix[i] = buffer.read(8) as u8;
            i = i + 1;
        }
        assert(matrix@ =~= matrix_at(start));
        Some(matrix)
    } else {
        Some(*default)
    }
}

/// Reads both quantization matrices of the sequence header.
fn load_matrices(buffer: &mut RingBitBuffer) -> (r: Option<([u8; 64], [u8; 64])>)
    requires
        old(buffer).wf(),
    ensures
        final(buffer).wf(),
        match read_matrix(old(buffer)@, MP1V_INTRA_QUANT_MATRIX@) {
            None => r is None && final(buffer)@ == old(buffer)@,
            Some((intra_q, r1)) => match read_matrix(r1, MP1V_NON_INTRA_QUANT_MATRIX@) {
                None => r is None && final(buffer)@ == old(buffer)@,
                Some((non_intra_q, r2)) => r is Some && r.unwrap().0@ == intra_q
                    && r.unwrap().1@ == non_intra_q && final(buffer)@ == r2 && r2.cap() == old(
                    buffer,
                )@.cap(),
            },
        },
{
    let start_len: usize = buffer.len();
    proof {
        buffer.lemma_wf();
    }
    //load intra quantiser matrix
    let intra_quant_matrix: [u8; 64] = match load_matrix(buffer, &MP1V_INTRA_QUANT_MATRIX) {
        None => {
            return None;
        },
        Some(matrix) => matrix,
    };
    let used: usize = start_len - buffer.len();
    proof {
        old(buffer)@.lemma_unread(used as int);
    }
    //load non-intra quantiser matrix
    let non_intra_quant_matrix: [u8; 64] = match load_matrix(buffer, &MP1V_NON_INTRA_QUANT_MATRIX) {
        None => {
            buffer.back(used);
            return None;
        },
        Some(matrix) => matrix,
    };
    Some((intra_quant_matrix, non_intra_quant_matrix))
}

impl Mpeg1Video {
    /// A decoder with an empty buffer that awaits the sequence header.
    pub fn new() -> (r: Self)
        ensures
            r.wf(),
            r@.ring.len() == 0,
            r@.ring.rbi == 0,
            r@.ring.wi == 0,
            r@.ring.cap() == crate::bitbuf::RING_DEFAULT_CAPACITY,
            r@.arena.len() == 0,
            r@.info == initial_info(),
            r@.rt == initial_runtime(),
            r@.intra_q == Seq::new(64, |i: int| 0u8),
            r@.non_intra_q == Seq::new(64, |i: int| 0u8),
    {
        proof {
            limit_table();
        }
        let info = CodecInfo {
            pic_width: 0,
            pic_height: 0,
            aspect_ratio: 0,
            frame_rate: 0,
            mb_width: 0,
            mb_height: 0,
            mb_size: 0,
            luma_width: 0,
            luma_height: 0,
            chroma_width: 0,
            chroma_height: 0,
            _parsed_: false,
        };
        let qm = QuantMatrix { intra_quant_matrix: [0u8; 64], non_intra_quant_matrix: [0u8; 64] };
        let runtime = VideoRuntime {
            frame_current: 0,
            frame_forward: 0,
            quantizer_scale: 0,
            picture_type: 0,
            dc_predictor: [0i32; 3],
            motion_forward: VideoMotion { full_px: 0, is_set: 0, r_size: 0, h: 0, v: 0 },
            mb_row: 0,
            mb_col: 0,
            macroblock_pattern: 0,
            macroblock_intra: 0,
            macroblock_type: 0,
            macroblock_address: 0,
        };
        let buffer = RingBitBuffer::new();
        proof {
            buffer.lemma_wf();
            assert(qm.intra_quant_matrix@ =~= Seq::new(64, |i: int| 0u8));
            assert(qm.non_intra_quant_matrix@ =~= Seq::new(64, |i: int| 0u8));
            assert(runtime.dc_predictor =~= [0i32, 0i32, 0i32]);
        }
        Mpeg1Video {
            info_: info,
            qmatrix_: qm,
            runtime_: runtime,
            buffer_: buffer,
            frame_base_: Vec::new(),
        }
    }

    /// Copies as many bytes of `data` into the buffer as there is room for,
    /// and returns how many.
    pub fn push(&mut self, data: &[u8]) -> (count: usize)
        requires
            old(self).wf(),
        ensures
            final(self).wf(),
            count as int == if data.len() <= old(self)@.ring.room() {
                data.len() as int
            } else {
                old(self)@.ring.room()
            },
            final(self)@ == (VideoModel {
                ring: old(self)@.ring.append(data@.take(count as int)),
                ..old(self)@
            }),
    {
        proof {
            self.buffer_.lemma_wf();
        }
        let count: usize = self.buffer_.push(data);
        proof {
            self.buffer_.lemma_wf();
        }
        count
    }

    /// What the sequence header said.
    pub fn info(&self) -> (r: CodecInfo)
        ensures
            r == self@.info,
    {
        self.info_
    }

    /// The frame that was decoded last.
    pub fn frame(&self) -> (r: VideoFrame)
        requires
            self.wf(),
            self@.info._parsed_,
        ensures
            r == frame_of(self@.info, self@.rt.frame_forward as int),
    {
        frame_at(&self.info_, self.runtime_.frame_forward as usize)
    }

    /// The pixels of both frames.
    pub fn pixels(&self) -> (r: &[u8])
        ensures
            r@ == self@.arena,
    {
        self.frame_base_.as_slice()
    }

    /// Makes the frames anew for the sizes that the sequence header gave.
    fn init_frames(&mut self)
        requires
            old(self).buffer_.wf(),
            old(self).model().ring.wf(),
            old(self).model().ring.cap() <= crate::bitbuf::RING_MAX_CAPACITY,
            rt_ok(old(self).model().rt),
            dims_ok(old(self).model().info),
        ensures
            final(self).inv(),
            final(self).model() == (VideoModel {
                arena: Seq::new((2 * frame_size(old(self).model().info)) as nat, |i: int| 0u8),
                rt: VideoRuntime { frame_current: 0, frame_forward: 0, ..old(self).model().rt },
                ..old(self).model()
            }),
    {
        proof {
            lemma_derived(self.info_);
        }
        let luma_plane_size: usize = 256 * (self.info_.mb_size as usize);
        let chroma_plane_size: usize = 64 * (self.info_.mb_size as usize);
        let frame_data_size: usize = luma_plane_size + 2 * chroma_plane_size;
        self.frame_base_ = vec![0u8; 2 * frame_data_size];
        self.runtime_.frame_current = 0;
        self.runtime_.frame_forward = 0;
        assert(self.frame_base_@ =~= Seq::new(
            (2 * frame_size(old(self).model().info)) as nat,
            |i: int| 0u8,
        ));
    }

    /// Reads the sizes, the aspect ratio and the frame rate at the start of
    /// the sequence header, and passes what follows up to the matrices.
    fn read_sequence_fields(&mut self) -> (r: CodecInfo)
        requires
            old(self).inv(),
            old(self).model().ring.has(62),
        ensures
            final(self).inv(),
            final(self).model() == (VideoModel {
                ring: old(self).model().ring.advance(62),
                ..old(self).model()
            }),
            r == sequence_fields(old(self).model().ring),
            r.pic_width <= 4095,
            r.pic_height <= 4095,
            r.pic_width == old(self).model().ring.peek(12),
            r.pic_height == old(self).model().ring.advance(12).peek(12),
    {
        let ghost r0 = self.model().ring;
        proof {
            self.buffer_.lemma_wf();
            limit_table();
            r0.lemma_advance_add(12, 12);
            r0.lemma_advance_add(24, 4);
            r0.lemma_advance_add(28, 4);
            r0.lemma_advance_add(32, 30);
            crate::bits::lemma_bits_val_bound(r0.buf, r0.rbi, 12);
            crate::bits::lemma_bits_val_bound(r0.buf, r0.advance(12).rbi, 12);
            crate::bits::lemma_bits_val_bound(r0.buf, r0.advance(24).rbi, 4);
            crate::bits::lemma_bits_val_bound(r0.buf, r0.advance(28).rbi, 4);
        }
        let pic_width: u32 = self.buffer_.read(12);
        let pic_height: u32 = self.buffer_.read(12);
        let aspect_ratio: u32 = self.buffer_.read(4);
        let frame_rate: u32 = MP1V_FRAME_RATE[self.buffer_.read(4) as usize];
        //skip bitRate, marker, bufferSize and constrained bit
        self.buffer_.skip(18 + 1 + 10 + 1);
        proof {
            self.buffer_.lemma_wf();
        }
        CodecInfo {
            pic_width,
            pic_height,
            aspect_ratio,
            frame_rate,
            mb_width: 0,
            mb_height: 0,
            mb_size: 0,
            luma_width: 0,
            luma_height: 0,
            chroma_width: 0,
            chroma_height: 0,
            _parsed_: false,
        }
    }

    /// Reads the sequence header behind its start code.
    #[verifier::rlimit(40)]
    fn decode_sequence_header(&mut self) -> (r: SeqOutcome)
        requires
            old(self).inv(),
        ensures
            final(self).inv(),
            final(self).model() == old(self).model().decode_sequence_header().0,
            r == old(self).model().decode_sequence_header().1,
            r == SeqOutcome::Parsed ==> final(self).model().info._parsed_,
    {
        let ghost r0 = self.model().ring;
        proof {
            reveal(read_sequence_header);
            self.buffer_.lemma_wf();
        }
        if self.buffer_.has(8 * 8) == false {
            return SeqOutcome::Deferred;
        }
        proof {
            r0.lemma_unread(62);
        }
        let fields: CodecInfo = self.read_sequence_fields();
        let (intra_quant_matrix, non_intra_quant_matrix) = match load_matrices(&mut self.buffer_) {
            None => {
                self.buffer_.back(62);
                return SeqOutcome::Deferred;
            },
            Some(matrices) => matrices,
        };
        if fields.pic_width == 0 || fields.pic_height == 0 {
            return SeqOutcome::Bad;
        }
        let mb_width: u32 = (fields.pic_width + 15) / 16;
        let mb_height: u32 = (fields.pic_height + 15) / 16;
        assert(1 <= mb_width * mb_height <= 65536) by (nonlinear_arith)
            requires
                1 <= mb_width <= 256,
                1 <= mb_height <= 256,
        ;
        self.info_ = CodecInfo {
            mb_width,
            mb_height,
            mb_size: mb_width * mb_height,
            luma_width: 16 * mb_width,
            luma_height: 16 * mb_height,
            chroma_width: 8 * mb_width,
            chroma_height: 8 * mb_height,
            _parsed_: true,
            ..fields
        };
        self.qmatrix_.intra_quant_matrix = intra_quant_matrix;
        self.qmatrix_.non_intra_quant_matrix = non_intra_quant_matrix;
        proof {
            lemma_derived(fields);
            assert(self.info_ == derived(fields));
        }
        self.init_frames();
        SeqOutcome::Parsed
    }

    /// Decodes the next picture where the buffer holds one.
    #[verifier::rlimit(40)]
    pub fn decode(&mut self) -> (r: DecodeResult)
        requires
            old(self).wf(),
        ensures
            final(self).wf(),
            final(self)@ == old(self)@.decode().0,
            r == old(self)@.decode().1,
    {
        proof {
            self.buffer_.lemma_wf();
            self.model().ring.lemma_find(SEQUENCE_START_CODE);
        }
        if self.buffer_.include_two_code(PICTURE_START_CODE) == false {
            return DecodeResult::NeedMoreData;
        }
        if self.info_._parsed_ == false {
            if self.buffer_.find_start_code(SEQUENCE_START_CODE) == false {
                return DecodeResult::InternalError;
            }
            proof {
                self.buffer_.lemma_wf();
            }
            match self.decode_sequence_header() {
                SeqOutcome::Deferred => {
                    self.buffer_.back(32);
                    proof {
                        self.buffer_.lemma_wf();
                    }
                    return DecodeResult::NeedMoreData;
                },
                SeqOutcome::Bad => {
                    return DecodeResult::InternalError;
                },
                SeqOutcome::Parsed => {},
            }
        }
        return self.decode_picture();
    }
}

} // verus!
