//! Demultiplexer for MPEG program streams, fed in chunks of any size, and
//! the reassembly of a program stream carried in transport stream cells.
use vstd::prelude::*;
use vstd::slice::slice_subrange;
use crate::bitbuf::BitBuffer;
use crate::bits::bits_val;

verus! {

#[allow(non_camel_case_types)]
#[derive(Debug, Clone, Copy, PartialEq, Eq, Structural)]
pub enum PacketError {
    /// The element is not complete yet; the number is how many more bytes
    /// it takes, or 0 where that cannot be told yet.
    OUT_LENGTH(usize),
    /// No start code of the kind awaited is buffered.
    NO_START_CODE,
    /// The element breaks the format.
    FORMAT_ERROR,
}

#[allow(non_camel_case_types)]
#[derive(Debug, Clone, Copy, PartialEq, Eq, Structural)]
pub enum PacketType {
    PS_PACK_HEADER,
    PS_SYSTEM_HEADER,
    PES_AUDIO,
    PES_VIDEO,
    PES_SKIP,
    PES_UNKNOW,
}

#[derive(Debug, Clone, Copy, PartialEq, Eq, Structural)]
pub struct PESPacketInfo {
    pub pes_type: PacketType,
    /// Last byte of the start code.
    pub code: u8,
    /// Presentation time stamp in ticks of 90 kHz, 0 where there is none.
    pub pts: u64,
    /// Where the element starts.
    pub offset: usize,
    /// Length of the whole element in bytes.
    pub len: usize,
    /// Where the payload starts, counted from `offset`.
    pub payload: usize,
}

/// The start codes that a search stops at.
#[derive(Debug, Clone, Copy, PartialEq, Eq, Structural)]
pub enum CodeClass {
    /// The pack header.
    Pack,
    /// The system header.
    System,
    /// Audio, video, padding and private packets.
    Packet,
    /// All of the above.
    Any,
}

pub const PACK_HEADER_CODE: u8 = 0xBA;

pub const SYSTEM_HEADER_CODE: u8 = 0xBB;

pub const PES_VIDEO_BEGIN: u8 = 0xE0;

pub const PES_VIDEO_END: u8 = 0xEF;

pub const PES_AUDIO_BEGIN: u8 = 0xC0;

pub const PES_AUDIO_END: u8 = 0xDF;

pub const PES_PRIVATE_CODE: u8 = 0xBD;

pub const PES_PADDING_CODE: u8 = 0xBE;

/// The kind of element that a start code ending in `code` begins.
pub open spec fn packet_type(code: u8) -> PacketType {
    if PES_AUDIO_BEGIN <= code <= PES_AUDIO_END {
        PacketType::PES_AUDIO
    } else if PES_VIDEO_BEGIN <= code <= PES_VIDEO_END {
        PacketType::PES_VIDEO
    } else if code == PACK_HEADER_CODE || code == SYSTEM_HEADER_CODE || code == PES_PADDING_CODE
        || code == PES_PRIVATE_CODE {
        PacketType::PES_SKIP
    } else {
        PacketType::PES_UNKNOW
    }
}

pub open spec fn accepts(class: CodeClass, code: u8) -> bool {
    match class {
        CodeClass::Pack => code == PACK_HEADER_CODE,
        CodeClass::System => code == SYSTEM_HEADER_CODE,
        CodeClass::Packet => packet_type(code) != PacketType::PES_UNKNOW && code
            != PACK_HEADER_CODE && code != SYSTEM_HEADER_CODE,
        CodeClass::Any => packet_type(code) != PacketType::PES_UNKNOW,
    }
}

/// Whether a start code of the class stands at `pos`: `00 00 01` and a
/// fourth byte that the class accepts.
pub open spec fn code_at(data: Seq<u8>, class: CodeClass, pos: int) -> bool {
    &&& 0 <= pos
    &&& pos + 4 <= data.len()
    &&& data[pos] == 0x00
    &&& data[pos + 1] == 0x00
    &&& data[pos + 2] == 0x01
    &&& accepts(class, data[pos + 3])
}

/// The first start code of the class at `pos` or later: its position and
/// its fourth byte.
pub open spec fn find_code_from(data: Seq<u8>, class: CodeClass, pos: int) -> Option<(usize, u8)>
    decreases data.len() - pos,
{
    if pos < 0 || pos + 4 > data.len() {
        None
    } else if code_at(data, class, pos) {
        Some((pos as usize, data[pos + 3]))
    } else {
        find_code_from(data, class, pos + 1)
    }
}

pub open spec fn find_code(data: Seq<u8>, class: CodeClass) -> Option<(usize, u8)> {
    find_code_from(data, class, 0)
}

/// A start code that the search finds stands where the search says, and
/// none of the class stands before it.
pub proof fn lemma_find_code(data: Seq<u8>, class: CodeClass, from: int)
    requires
        0 <= from,
        data.len() <= usize::MAX,
    ensures
        match find_code_from(data, class, from) {
            Some((pos, code)) => from <= pos && code_at(data, class, pos as int) && code
                == data[pos + 3] && forall|q: int| from <= q < pos ==> !code_at(data, class, q),
            None => forall|q: int| from <= q ==> !code_at(data, class, q),
        },
    decreases data.len() - from,
{
    if from + 4 <= data.len() && !code_at(data, class, from) {
        lemma_find_code(data, class, from + 1);
    }
}

/// A time stamp of 33 bits, stored as 3, 15 and 15 bits with one marker bit
/// behind each part, that starts at bit `at`.
pub open spec fn timestamp(d: Seq<u8>, at: int) -> u64 {
    ((bits_val(d, at, 3) as u64) << 30) | ((bits_val(d, at + 4, 15) as u64) << 15) | (bits_val(
        d,
        at + 20,
        15,
    ) as u64)
}

/// The pack header that starts `d`: the system clock reference and the bit
/// rate. It takes 12 bytes, and the four bits behind the start code must be
/// `0010`.
pub open spec fn pack_header(d: Seq<u8>) -> Result<(u64, u64), PacketError> {
    if d.len() < 12 {
        Err(PacketError::OUT_LENGTH((12 - d.len()) as usize))
    } else if bits_val(d, 32, 4) != 0x02 {
        Err(PacketError::FORMAT_ERROR)
    } else {
        Ok((timestamp(d, 36), bits_val(d, 73, 22) as u64))
    }
}

/// The length in bytes that the 16 bits behind the start code give, counted
/// from behind those bits.
pub open spec fn length_field(d: Seq<u8>) -> int {
    bits_val(d, 32, 16)
}

/// The system header that starts `d`: its whole length and the numbers of
/// audio and video streams. A header too short to hold these breaks the
/// format.
pub open spec fn system_header(d: Seq<u8>) -> Result<(usize, i32, i32), PacketError> {
    if d.len() < 6 {
        Err(PacketError::OUT_LENGTH(0))
    } else if d.len() < 6 + length_field(d) {
        Err(PacketError::OUT_LENGTH((6 + length_field(d) - d.len()) as usize))
    } else if length_field(d) < 5 {
        Err(PacketError::FORMAT_ERROR)
    } else {
        Ok(((6 + length_field(d)) as usize, bits_val(d, 72, 6) as i32, bits_val(d, 83, 5) as i32))
    }
}

/// What the header of a packet says, once its length `total` is known: the
/// time stamp and where the payload starts. The header is read from the
/// packet's own bytes; one that does not fit into them breaks the format,
/// and so does the reserved pattern `01` of the time stamp flags.
pub open spec fn pes_fields(d: Seq<u8>, total: int) -> Result<(u64, usize), PacketError> {
    let p = d.take(total);
    if total < 7 {
        Err(PacketError::FORMAT_ERROR)
    } else {
        let extra: int = if bits_val(p, 48, 2) == 0x01 {
            2
        } else {
            0
        };
        if total < 7 + extra {
            Err(PacketError::FORMAT_ERROR)
        } else {
            let indicator = bits_val(p, 50 + 8 * extra, 2);
            let payload: int = 6 + extra + if indicator == 0x00 {
                1int
            } else if indicator == 0x03 {
                10int
            } else {
                5int
            };
            if indicator == 0x01 || payload > total {
                Err(PacketError::FORMAT_ERROR)
            } else if indicator == 0x00 {
                Ok((0, payload as usize))
            } else {
                Ok((timestamp(p, 52 + 8 * extra), payload as usize))
            }
        }
    }
}

/// The packet that starts `d`, with its place left at 0. A length field of
/// 0 means that the packet ends where the next start code of any kind
/// begins.
pub open spec fn pes_header(d: Seq<u8>) -> Result<PESPacketInfo, PacketError> {
    if d.len() < 6 {
        Err(PacketError::OUT_LENGTH(0))
    } else if d.len() < 6 + length_field(d) {
        Err(PacketError::OUT_LENGTH((6 + length_field(d) - d.len()) as usize))
    } else if packet_type(d[3]) == PacketType::PES_SKIP {
        Ok(
            (PESPacketInfo {
                pes_type: PacketType::PES_SKIP,
                code: d[3],
                offset: 0,
                len: (length_field(d) + 6) as usize,
                pts: 0,
                payload: 0,
            }),
        )
    } else if length_field(d) == 0 && find_code(d.skip(6), CodeClass::Any) is None {
        Err(PacketError::OUT_LENGTH(0))
    } else {
        let total: int = if length_field(d) == 0 {
            find_code(d.skip(6), CodeClass::Any).unwrap().0 + 6
        } else {
            length_field(d) + 6
        };
        match pes_fields(d, total) {
            Err(e) => Err(e),
            Ok((pts, payload)) => Ok(
                (PESPacketInfo {
                    pes_type: packet_type(d[3]),
                    code: d[3],
                    offset: 0,
                    len: total as usize,
                    pts: pts,
                    payload: payload,
                }),
            ),
        }
    }
}

/// The kind of element that a start code ending in `code` begins.
pub fn code2type(code: u8) -> (r: PacketType)
    ensures
        r == packet_type(code),
{
    if code >= PES_AUDIO_BEGIN && code <= PES_AUDIO_END {
        return PacketType::PES_AUDIO;
    }
    if code >= PES_VIDEO_BEGIN && code <= PES_VIDEO_END {
        return PacketType::PES_VIDEO;
    }
    if code == PACK_HEADER_CODE || code == SYSTEM_HEADER_CODE || code == PES_PADDING_CODE || code
        == PES_PRIVATE_CODE {
        return PacketType::PES_SKIP;
    }
    return PacketType::PES_UNKNOW;
}

fn class_accepts(class: CodeClass, code: u8) -> (r: bool)
    ensures
        r == accepts(class, code),
{
    match class {
        CodeClass::Pack => code == PACK_HEADER_CODE,
        CodeClass::System => code == SYSTEM_HEADER_CODE,
        CodeClass::Packet => code2type(code) != PacketType::PES_UNKNOW && code != PACK_HEADER_CODE
            && code != SYSTEM_HEADER_CODE,
        CodeClass::Any => code2type(code) != PacketType::PES_UNKNOW,
    }
}

/// Finds the first start code of the class in `data`.
pub fn find_code_of(data: &[u8], class: CodeClass) -> (r: Option<(usize, u8)>)
    ensures
        r == find_code(data@, class),
{
    if data.len() < 4 {
        return None;
    }
    let mut pos: usize = 0;
    while pos < data.len() - 3
        invariant
            data.len() >= 4,
            pos <= data.len() - 3,
            find_code_from(data@, class, pos as int) == find_code(data@, class),
        decreases data.len() - pos,
    {
        if data[pos] == 0x00 && data[pos + 1] == 0x00 && data[pos + 2] == 0x01 {
            let code: u8 = data[pos + 3];
            if class_accepts(class, code) {
                return Some((pos, code));
            }
        }
        pos = pos + 1;
    }
    None
}

fn read_timestamp(buffer: &mut BitBuffer) -> (ts: u64)
    requires
        old(buffer).wf(),
        old(buffer)@.has(36),
    ensures
        final(buffer).wf(),
        final(buffer)@ == old(buffer)@.advance(36),
        ts == timestamp(old(buffer)@.buf, old(buffer)@.bi),
{
    let mut ts: u64 = 0;
    let a: u32 = buffer.read(3).unwrap();
    buffer.skip(1);
    let b: u32 = buffer.read(15).unwrap();
    buffer.skip(1);
    let c: u32 = buffer.read(15).unwrap();
    buffer.skip(1);
    ts = ts | ((a as u64) << 30);
    ts = ts | ((b as u64) << 15);
    ts = ts | (c as u64);
    assert(0u64 | ((a as u64) << 30) | ((b as u64) << 15) | (c as u64) == ((a as u64) << 30) | ((
    b as u64) << 15) | (c as u64)) by (bit_vector);
    ts
}

/// Reads the pack header at the start of `data`.
pub fn parse_pack_header(data: &[u8]) -> (r: Result<(u64, u64), PacketError>)
    requires
        8 * data.len() + 8 <= usize::MAX,
    ensures
        r == pack_header(data@),
{
    let mut buffer = BitBuffer::new(data);
    if buffer.len() < 12 {
        return Err(PacketError::OUT_LENGTH(12 - buffer.len()));
    }
    buffer.skip(32);
    let marker_bits: u32 = buffer.read(4).unwrap();
    if marker_bits != 0x02 {
        return Err(PacketError::FORMAT_ERROR);
    }
    let clock: u64 = read_timestamp(&mut buffer);
    buffer.skip(1);
    let bit_rate: u64 = buffer.read(22).unwrap() as u64;
    buffer.skip(1);
    Ok((clock, bit_rate))
}

/// Reads the system header at the start of `data`.
pub fn parse_system_header(data: &[u8]) -> (r: Result<(usize, i32, i32), PacketError>)
    requires
        8 * data.len() + 8 <= usize::MAX,
    ensures
        r == system_header(data@),
{
    let mut buffer = BitBuffer::new(data);
    if buffer.len() < 6 {
        return Err(PacketError::OUT_LENGTH(0));
    }
    buffer.skip(32);
    let pes_length: usize = buffer.read(16).unwrap() as usize;
    assert(pes_length < 0x1_0000) by {
        crate::bits::lemma_bits_val_bound(data@, 32, 16);
    }
    if buffer.len() < 6 + pes_length {
        return Err(PacketError::OUT_LENGTH(6 + pes_length - buffer.len()));
    }
    if pes_length < 5 {
        return Err(PacketError::FORMAT_ERROR);
    }
    buffer.skip(24);
    let num_audio_streams: i32 = buffer.read(6).unwrap() as i32;
    buffer.skip(5);
    let num_video_streams: i32 = buffer.read(5).unwrap() as i32;
    buffer.skip((pes_length - 5) * 8);
    Ok((buffer.pos() / 8, num_audio_streams, num_video_streams))
}

fn parse_pes_fields(p: &[u8]) -> (r: Result<(u64, usize), PacketError>)
    requires
        8 * p.len() + 8 <= usize::MAX,
    ensures
        r == pes_fields(p@, p.len() as int),
{
    assert(p@.take(p.len() as int) =~= p@);
    let total: usize = p.len();
    let mut buffer = BitBuffer::new(p);
    if total < 7 {
        return Err(PacketError::FORMAT_ERROR);
    }
    buffer.skip(48);
    let mut payload: usize = 6;
    if buffer.read(2).unwrap() == 0x01 {
        if total < 9 {
            return Err(PacketError::FORMAT_ERROR);
        }
        buffer.skip(16);
        payload = payload + 2;
    }
    // 11 = both present, 01 is forbidden, 10 = only PTS, 00 = no PTS or DTS
    let indicator: u32 = buffer.read(2).unwrap();
    proof {
        crate::bits::lemma_bits_val_bound(p@, 50 + 8 * (payload - 6), 2);
    }
    if indicator == 0x00 {
        payload = payload + 1;
        return Ok((0, payload));
    } else if indicator == 0x01 {
        return Err(PacketError::FORMAT_ERROR);
    }
    payload = payload + 5;
    if indicator == 0x03 {
        payload = payload + 5;
    }
    if payload > total {
        return Err(PacketError::FORMAT_ERROR);
    }
    let ts: u64 = read_timestamp(&mut buffer);
    Ok((ts, payload))
}

/// Reads the packet at the start of `data`.
#[verifier::rlimit(40)]
pub fn parse_pes_header(data: &[u8]) -> (r: Result<PESPacketInfo, PacketError>)
    requires
        8 * data.len() + 8 <= usize::MAX,
    ensures
        r == pes_header(data@),
{
    let n: usize = data.len();
    if n < 6 {
        return Err(PacketError::OUT_LENGTH(0));
    }
    let code: u8 = data[3];
    let mut buffer = BitBuffer::new(data);
    buffer.skip(32);
    let mut pes_length: usize = buffer.read(16).unwrap() as usize;
    proof {
        crate::bits::lemma_bits_val_bound(data@, 32, 16);
    }
    if n < 6 + pes_length {
        return Err(PacketError::OUT_LENGTH(6 + pes_length - n));
    }
    if code2type(code) == PacketType::PES_SKIP {
        return Ok(
            PESPacketInfo {
                pes_type: PacketType::PES_SKIP,
                code: code,
                offset: 0,
                len: pes_length + 6,
                pts: 0,
                payload: 0,
            },
        );
    }
    if pes_length == 0 {
        let rest = slice_subrange(data, 6, n);
        assert(rest@ =~= data@.skip(6));
        match find_code_of(rest, CodeClass::Any) {
            Some((pos, _)) => {
                proof {
                    lemma_find_code(rest@, CodeClass::Any, 0);
                }
                pes_length = pos;
            },
            None => {
                return Err(PacketError::OUT_LENGTH(0));
            },
        }
    }
    let total: usize = pes_length + 6;
    let packet = slice_subrange(data, 0, total);
    assert(packet@ =~= data@.take(total as int));
    assert(packet@.take(total as int) =~= packet@);
    match parse_pes_fields(packet) {
        Err(e) => Err(e),
        Ok((pts, payload)) => Ok(
            PESPacketInfo {
                pes_type: code2type(code),
                code: code,
                offset: 0,
                len: total,
                pts: pts,
                payload: payload,
            },
        ),
    }
}

/// Mathematical model of the demultiplexer.
pub struct PsModel {
    /// The bytes buffered.
    pub data: Seq<u8>,
    /// Where the part not yet parsed starts.
    pub offset: int,
    /// How many bytes the buffer can hold.
    pub cap: int,
    pub has_pack_header: bool,
    pub has_system_header: bool,
    pub system_clock_ref: u64,
    pub bit_rate: u64,
    pub num_audio_streams: i32,
    pub num_video_streams: i32,
    /// The bytes of a transport cell that is not complete yet.
    pub ts_rest: Seq<u8>,
    /// The transport stream's video PID, -1 until it is known.
    pub ts_pid: i32,
}

/// Number of bytes of one cell of a transport stream.
pub const TS_CELL: usize = 188;

/// The element that the class awaits in `w`, its place counted from the
/// start of `w`.
pub open spec fn next_packet(class: CodeClass, w: Seq<u8>) -> Result<PESPacketInfo, PacketError> {
    match find_code(w, class) {
        None => Err(PacketError::NO_START_CODE),
        Some((pos, code)) => {
            let d = w.skip(pos as int);
            match class {
                CodeClass::Pack => match pack_header(d) {
                    Err(e) => Err(e),
                    Ok(_) => Ok(
                        (PESPacketInfo {
                            pes_type: PacketType::PS_PACK_HEADER,
                            code: code,
                            offset: pos,
                            len: 12,
                            pts: 0,
                            payload: 0,
                        }),
                    ),
                },
                CodeClass::System => match system_header(d) {
                    Err(e) => Err(e),
                    Ok(h) => Ok(
                        (PESPacketInfo {
                            pes_type: PacketType::PS_SYSTEM_HEADER,
                            code: code,
                            offset: pos,
                            len: h.0,
                            pts: 0,
                            payload: 0,
                        }),
                    ),
                },
                _ => match pes_header(d) {
                    Err(e) => Err(e),
                    Ok(p) => Ok((PESPacketInfo { offset: pos, ..p })),
                },
            }
        },
    }
}

impl PsModel {
    pub open spec fn wf(self) -> bool {
        &&& 0 <= self.offset <= self.data.len() <= self.cap <= usize::MAX
        &&& self.ts_rest.len() < TS_CELL
        &&& self.ts_pid >= -1
    }

    /// The bytes not yet parsed.
    pub open spec fn window(self) -> Seq<u8> {
        self.data.skip(self.offset)
    }

    /// How many more bytes the buffer can take.
    pub open spec fn room(self) -> int {
        self.cap - self.data.len()
    }

    /// The class of start code that is awaited: the pack header first, then
    /// the system header, then packets. What came out of a transport
    /// stream holds neither header, so there packets are awaited at once.
    pub open spec fn awaited(self) -> CodeClass {
        if self.ts_pid != -1 {
            CodeClass::Packet
        } else if !self.has_pack_header {
            CodeClass::Pack
        } else if !self.has_system_header {
            CodeClass::System
        } else {
            CodeClass::Packet
        }
    }

    /// The model after `bytes` were appended.
    pub open spec fn append(self, bytes: Seq<u8>) -> PsModel {
        PsModel { data: self.data + bytes, ..self }
    }

    /// The model after `push`, which takes as many bytes as there is room
    /// for.
    pub open spec fn pushed(self, data: Seq<u8>) -> PsModel {
        self.append(
            data.take(
                if data.len() <= self.room() {
                    data.len() as int
                } else {
                    self.room()
                },
            ),
        )
    }

    /// The bytes parsed already dropped, the rest moved to the front.
    pub open spec fn compact(self) -> PsModel {
        PsModel { data: self.window(), offset: 0, ..self }
    }

    /// What one attempt to parse finds, its place counted from the start of
    /// the window.
    pub open spec fn attempt(self) -> Result<PESPacketInfo, PacketError> {
        next_packet(self.awaited(), self.window())
    }

    /// What a header that was parsed leaves behind in the model.
    pub open spec fn latch(self) -> PsModel {
        match self.attempt() {
            Ok(p) => {
                let d = self.window().skip(p.offset as int);
                match self.awaited() {
                    CodeClass::Pack => PsModel {
                        has_pack_header: true,
                        system_clock_ref: pack_header(d).unwrap().0,
                        bit_rate: pack_header(d).unwrap().1,
                        ..self
                    },
                    CodeClass::System => PsModel {
                        has_system_header: true,
                        num_audio_streams: system_header(d).unwrap().1,
                        num_video_streams: system_header(d).unwrap().2,
                        ..self
                    },
                    _ => self,
                }
            },
            Err(_) => self,
        }
    }

    /// The model after one call of `get`: an element found is passed; where
    /// no start code is found, or more bytes are missing than there is room
    /// for, the buffer is compacted.
    pub open spec fn after_get(self) -> PsModel {
        match self.attempt() {
            Ok(p) => PsModel { offset: self.offset + p.offset + p.len, ..self.latch() },
            Err(PacketError::OUT_LENGTH(more)) => if more > self.room() {
                self.compact()
            } else {
                self
            },
            Err(PacketError::NO_START_CODE) => self.compact(),
            Err(PacketError::FORMAT_ERROR) => self,
        }
    }

    /// What `get` returns: the element with its place counted from the start
    /// of the buffer.
    pub open spec fn got(self) -> Result<PESPacketInfo, PacketError> {
        match self.attempt() {
            Ok(p) => Ok((PESPacketInfo { offset: (self.offset + p.offset) as usize, ..p })),
            Err(e) => Err(e),
        }
    }
}

/// Demultiplexer of a program stream over a bounded buffer.
pub struct MpegPS {
    pub system_clock_ref: u64,
    pub bit_rate: u64,
    pub num_audio_streams: i32,
    pub num_video_streams: i32,
    pub has_pack_header: bool,
    pub has_system_header: bool,
    buffer_: Vec<u8>,
    offset_: usize,
    len_: usize,
    ts_rest_: Vec<u8>,
    ts_pid_: i32,
}

/// Largest capacity, in bytes, that a demultiplexer can be made with.
pub const PS_MAX_CAPACITY: usize = 0x0800_0000;

/// Capacity, in bytes, of a demultiplexer made by `new`.
pub const PS_DEFAULT_CAPACITY: usize = 0x0040_0000;

impl View for MpegPS {
    type V = PsModel;

    closed spec fn view(&self) -> PsModel {
        PsModel {
            data: self.buffer_@.take(self.len_ as int),
            offset: self.offset_ as int,
            cap: self.buffer_.len() as int,
            has_pack_header: self.has_pack_header,
            has_system_header: self.has_system_header,
            system_clock_ref: self.system_clock_ref,
            bit_rate: self.bit_rate,
            num_audio_streams: self.num_audio_streams,
            num_video_streams: self.num_video_streams,
            ts_rest: self.ts_rest_@,
            ts_pid: self.ts_pid_,
        }
    }
}

impl MpegPS {
    pub closed spec fn wf(&self) -> bool {
        &&& self.len_ <= self.buffer_.len() <= PS_MAX_CAPACITY
        &&& self@.wf()
    }

    pub proof fn lemma_wf(&self)
        requires
            self.wf(),
        ensures
            self@.wf(),
            self@.cap <= PS_MAX_CAPACITY,
    {
    }

    /// The kind of element that a start code ending in `code` begins.
    pub fn code2type(code: u8) -> (r: PacketType)
        ensures
            r == packet_type(code),
    {
        code2type(code)
    }

    /// Finds the first start code of any known kind in `data`.
    pub fn find_start_code(data: &[u8]) -> (r: Option<(usize, u8)>)
        ensures
            r == find_code(data@, CodeClass::Any),
    {
        find_code_of(data, CodeClass::Any)
    }

    fn data<'a>(&'a self, pos: usize) -> (r: &'a [u8])
        requires
            self.wf(),
            pos <= self@.window().len(),
        ensures
            r@ == self@.window().skip(pos as int),
    {
        let r = slice_subrange(self.buffer_.as_slice(), self.offset_ + pos, self.len_);
        assert(r@ =~= self@.window().skip(pos as int));
        r
    }

    fn rewind(&mut self)
        requires
            old(self).wf(),
        ensures
            final(self).wf(),
            final(self)@ == old(self)@.compact(),
    {
        let count: usize = self.len_ - self.offset_;
        let offset: usize = self.offset_;
        let mut i: usize = 0;
        while i < count
            invariant
                offset + count == old(self).len_,
                self.len_ == old(self).len_,
                self.offset_ == offset,
                self.buffer_.len() == old(self).buffer_.len(),
                self.len_ <= self.buffer_.len(),
                i <= count,
                forall|k: int| 0 <= k < i ==> self.buffer_@[k] == old(self).buffer_@[k + offset],
                forall|k: int|
                    i <= k < self.buffer_.len() ==> self.buffer_@[k] == old(self).buffer_@[k],
                self.has_pack_header == old(self).has_pack_header,
                self.has_system_header == old(self).has_system_header,
                self.system_clock_ref == old(self).system_clock_ref,
                self.bit_rate == old(self).bit_rate,
                self.num_audio_streams == old(self).num_audio_streams,
                self.num_video_streams == old(self).num_video_streams,
                self.ts_rest_ == old(self).ts_rest_,
                self.ts_pid_ == old(self).ts_pid_,
            decreases count - i,
        {
            let b: u8 = self.buffer_[i + offset];
            self.buffer_[i] = b;
            i = i + 1;
        }
        self.len_ = count;
        self.offset_ = 0;
        assert(self@.data =~= old(self)@.window());
    }

    /// A demultiplexer of the default capacity that awaits the pack header.
    pub fn new() -> (r: MpegPS)
        ensures
            r.wf(),
            r@.cap == PS_DEFAULT_CAPACITY,
            r@.data.len() == 0,
            r@.offset == 0,
            !r@.has_pack_header,
            !r@.has_system_header,
            r@.ts_rest.len() == 0,
            r@.ts_pid == -1,
    {
        MpegPS::with_capacity(PS_DEFAULT_CAPACITY)
    }

    /// A demultiplexer whose buffer holds `capacity` bytes.
    pub fn with_capacity(capacity: usize) -> (r: MpegPS)
        requires
            capacity <= PS_MAX_CAPACITY,
        ensures
            r.wf(),
            r@.cap == capacity,
            r@.data.len() == 0,
            r@.offset == 0,
            !r@.has_pack_header,
            !r@.has_system_header,
            r@.ts_rest.len() == 0,
            r@.ts_pid == -1,
    {
        let buffer: Vec<u8> = vec![0u8; capacity];
        MpegPS {
            has_pack_header: false,
            has_system_header: false,
            system_clock_ref: 0x00,
            bit_rate: 0,
            num_audio_streams: -1,
            num_video_streams: -1,
            buffer_: buffer,
            offset_: 0,
            len_: 0,
            ts_rest_: Vec::new(),
            ts_pid_: -1,
        }
    }

    /// Appends as many bytes of `data` as there is room for, from its start,
    /// and returns how many.
    pub fn push(&mut self, data: &[u8]) -> (count: usize)
        requires
            old(self).wf(),
        ensures
            final(self).wf(),
            count as int == if data.len() <= old(self)@.room() {
                data.len() as int
            } else {
                old(self)@.room()
            },
            final(self)@ == old(self)@.append(data@.take(count as int)),
            final(self)@ == old(self)@.pushed(data@),
    {
        let mut copy_len: usize = self.buffer_.len() - self.len_;
        if copy_len > data.len() {
            copy_len = data.len();
        }
        let start: usize = self.len_;
        let mut i: usize = 0;
        while i < copy_len
            invariant
                start == old(self).len_,
                self.len_ == start,
                self.offset_ == old(self).offset_,
                self.buffer_.len() == old(self).buffer_.len(),
                start + copy_len <= self.buffer_.len(),
                copy_len <= data.len(),
                i <= copy_len,
                self.buffer_@.take(start as int) == old(self)@.data,
                forall|k: int| 0 <= k < i ==> self.buffer_@[start + k] == data@[k],
                self.has_pack_header == old(self).has_pack_header,
                self.has_system_header == old(self).has_system_header,
                self.system_clock_ref == old(self).system_clock_ref,
                self.bit_rate == old(self).bit_rate,
                self.num_audio_streams == old(self).num_audio_streams,
                self.num_video_streams == old(self).num_video_streams,
                self.ts_rest_ == old(self).ts_rest_,
                self.ts_pid_ == old(self).ts_pid_,
            decreases copy_len - i,
        {
            let ghost prev = self.buffer_@;
            self.buffer_[start + i] = data[i];
            assert(self.buffer_@.take(start as int) =~= prev.take(start as int));
            i = i + 1;
        }
        self.len_ = self.len_ + copy_len;
        assert(self@.data =~= old(self)@.data + data@.take(copy_len as int));
        return copy_len;
    }

    /// The payload of an element that `get` returned. The element must
    /// still be buffered: `get` and `push` may move or drop it.
    pub fn payload(&self, pkt: &PESPacketInfo) -> (r: &[u8])
        requires
            self.wf(),
            pkt.offset + pkt.len <= self@.data.len(),
            pkt.payload <= pkt.len,
        ensures
            r@ == self@.data.subrange(pkt.offset + pkt.payload, pkt.offset + pkt.len),
    {
        let r = slice_subrange(
            self.buffer_.as_slice(),
            pkt.offset + pkt.payload,
            pkt.offset + pkt.len,
        );
        assert(r@ =~= self@.data.subrange(pkt.offset + pkt.payload, pkt.offset + pkt.len));
        r
    }

    /// Tries once to parse the element that is awaited, and passes it if it
    /// is complete.
    pub fn get(&mut self) -> (r: Result<PESPacketInfo, PacketError>)
        requires
            old(self).wf(),
        ensures
            final(self).wf(),
            r == old(self)@.got(),
            final(self)@ == old(self)@.after_get(),
    {
        let pkt_result = self.get_packet();
        match pkt_result {
            Ok(pkt) => {
                proof {
                    lemma_packet_fits(old(self)@.awaited(), old(self)@.window());
                }
                self.offset_ = self.offset_ + pkt.len + pkt.offset;
                Ok(PESPacketInfo { offset: self.offset_ - pkt.len, ..pkt })
            },
            Err(e) => {
                match e {
                    PacketError::OUT_LENGTH(more) => {
                        let remain: usize = self.buffer_.len() - self.len_;
                        if more > remain {
                            self.rewind();
                        }
                    },
                    PacketError::NO_START_CODE => {
                        self.rewind();
                    },
                    PacketError::FORMAT_ERROR => {},
                }
                Err(e)
            },
        }
    }

    /// Parses the element that is awaited at the start of the window, and
    /// latches what a header says.
    pub fn get_packet(&mut self) -> (r: Result<PESPacketInfo, PacketError>)
        requires
            old(self).wf(),
        ensures
            final(self).wf(),
            r == old(self)@.attempt(),
            final(self)@ == old(self)@.latch(),
    {
        let class: CodeClass = if self.ts_pid_ != -1 {
            CodeClass::Packet
        } else if !self.has_pack_header {
            CodeClass::Pack
        } else if !self.has_system_header {
            CodeClass::System
        } else {
            CodeClass::Packet
        };
        let pos: usize;
        assert(self@.window().skip(0) =~= self@.window());
        match find_code_of(self.data(0), class) {
            Some((_pos, _code)) => {
                pos = _pos;
            },
            None => {
                return Err(PacketError::NO_START_CODE);
            },
        }
        proof {
            lemma_find_code(self@.window(), class, 0);
        }
        match class {
            CodeClass::Pack => self.get_pack_header_packet(pos),
            CodeClass::System => self.get_system_header_packet(pos),
            _ => self.get_pes_packet(pos),
        }
    }

    /// Parses the packet that starts at `begin` in the window.
    pub fn get_pes_packet(&mut self, begin: usize) -> (r: Result<PESPacketInfo, PacketError>)
        requires
            old(self).wf(),
            begin <= old(self)@.window().len(),
        ensures
            *final(self) == *old(self),
            r == match pes_header(old(self)@.window().skip(begin as int)) {
                Err(e) => Err(e),
                Ok(p) => Ok((PESPacketInfo { offset: begin, ..p })),
            },
    {
        match parse_pes_header(self.data(begin)) {
            Err(e) => Err(e),
            Ok(p) => Ok(PESPacketInfo { offset: begin, ..p }),
        }
    }

    /// Parses the system header that starts at `begin` in the window, and
    /// latches the numbers of streams.
    pub fn get_system_header_packet(&mut self, begin: usize) -> (r: Result<
        PESPacketInfo,
        PacketError,
    >)
        requires
            old(self).wf(),
            begin + 4 <= old(self)@.window().len(),
        ensures
            final(self).wf(),
            r == match system_header(old(self)@.window().skip(begin as int)) {
                Err(e) => Err(e),
                Ok(h) => Ok(
                    (PESPacketInfo {
                        pes_type: PacketType::PS_SYSTEM_HEADER,
                        code: old(self)@.window()[begin + 3],
                        offset: begin,
                        len: h.0,
                        pts: 0,
                        payload: 0,
                    }),
                ),
            },
            final(self)@ == match system_header(old(self)@.window().skip(begin as int)) {
                Err(e) => old(self)@,
                Ok(h) => PsModel {
                    has_system_header: true,
                    num_audio_streams: h.1,
                    num_video_streams: h.2,
                    ..old(self)@
                },
            },
    {
        let data = self.data(begin);
        let code: u8 = data[3];
        match parse_system_header(data) {
            Err(e) => Err(e),
            Ok((len, num_audio_streams, num_video_streams)) => {
                let pkt = PESPacketInfo {
                    pes_type: PacketType::PS_SYSTEM_HEADER,
                    code: code,
                    offset: begin,
                    len: len,
                    pts: 0,
                    payload: 0,
                };
                self.num_audio_streams = num_audio_streams;
                self.num_video_streams = num_video_streams;
                self.has_system_header = true;
                Ok(pkt)
            },
        }
    }

    /// Parses the pack header that starts at `begin` in the window, and
    /// latches the clock reference and the bit rate.
    pub fn get_pack_header_packet(&mut self, begin: usize) -> (r: Result<
        PESPacketInfo,
        PacketError,
    >)
        requires
            old(self).wf(),
            begin + 4 <= old(self)@.window().len(),
        ensures
            final(self).wf(),
            r == match pack_header(old(self)@.window().skip(begin as int)) {
                Err(e) => Err(e),
                Ok(h) => Ok(
                    (PESPacketInfo {
                        pes_type: PacketType::PS_PACK_HEADER,
                        code: old(self)@.window()[begin + 3],
                        offset: begin,
                        len: 12,
                        pts: 0,
                        payload: 0,
                    }),
                ),
            },
            final(self)@ == match pack_header(old(self)@.window().skip(begin as int)) {
                Err(e) => old(self)@,
                Ok(h) => PsModel {
                    has_pack_header: true,
                    system_clock_ref: h.0,
                    bit_rate: h.1,
                    ..old(self)@
                },
            },
    {
        let data = self.data(begin);
        let code: u8 = data[3];
        match parse_pack_header(data) {
            Err(e) => Err(e),
            Ok((clock, bit_rate)) => {
                let pkt = PESPacketInfo {
                    pes_type: PacketType::PS_PACK_HEADER,
                    code: code,
                    offset: begin,
                    len: 12,
                    pts: 0,
                    payload: 0,
                };
                self.system_clock_ref = clock;
                self.bit_rate = bit_rate;
                self.has_pack_header = true;
                Ok(pkt)
            },
        }
    }
}

/// How the attempt to take one cell of a transport stream ended.
#[derive(Debug, Clone, Copy, PartialEq, Eq, Structural)]
pub enum CellResult {
    /// The header of the cell breaks the format.
    Fatal,
    /// The buffer has no room for the payload of the cell.
    Full,
    /// The cell was taken: its payload was appended or passed over.
    Done,
}

/// Number of bits in a cell of a transport stream.
pub open spec fn ts_cell_bits() -> int {
    8 * TS_CELL
}

/// Where the payload of a cell starts, in bits: behind the four bytes of the
/// header and, where the cell has one that fits into it, behind the
/// adaptation field.
pub open spec fn ts_payload_bit(cell: Seq<u8>) -> int {
    if bits_val(cell, 26, 2) >= 2 {
        if 40 + 8 * bits_val(cell, 32, 8) <= ts_cell_bits() {
            40 + 8 * bits_val(cell, 32, 8)
        } else {
            40
        }
    } else {
        32
    }
}

/// The header of a cell: the payload unit start flag, the PID, the
/// continuity counter, the first four bytes of the payload as one number
/// (all bits set where fewer are left), and where the payload starts in
/// bytes. `None` where the cell does not start with the sync byte `47` or
/// its adaptation field control is 0.
pub open spec fn ts_header(cell: Seq<u8>) -> Option<(u32, u32, u32, u32, usize)> {
    if bits_val(cell, 0, 8) != 0x47 || bits_val(cell, 26, 2) == 0 {
        None
    } else {
        let at = ts_payload_bit(cell);
        Some(
            (
                bits_val(cell, 9, 1) as u32,
                bits_val(cell, 11, 13) as u32,
                bits_val(cell, 28, 4) as u32,
                if at + 32 <= ts_cell_bits() {
                    bits_val(cell, at, 32) as u32
                } else {
                    0xFFFF_FFFFu32
                },
                (at / 8) as usize,
            ),
        )
    }
}

/// The video PID after a cell with header `h` was seen: the PID of the first
/// cell whose payload starts a unit with the start code of a video packet.
/// A PID has 13 bits.
pub open spec fn ts_latch(pid: i32, h: (u32, u32, u32, u32, usize)) -> i32 {
    if h.0 == 0x01 && pid == -1 && 0x0000_01E0 <= h.3 <= 0x0000_01EF && h.1 < 0x2000 {
        h.1 as i32
    } else {
        pid
    }
}

/// Whether the payload of a cell with header `h` belongs to the video
/// stream.
pub open spec fn ts_takes(pid: i32, h: (u32, u32, u32, u32, usize)) -> bool {
    ts_latch(pid, h) != -1 && h.1 < 0x2000 && h.1 as i32 == ts_latch(pid, h)
}

impl PsModel {
    /// The model after one whole cell was offered, and how that ended. A
    /// cell is taken only where the buffer has room for more than its
    /// payload.
    pub open spec fn feed_cell(self, cell: Seq<u8>) -> (CellResult, PsModel) {
        match ts_header(cell) {
            None => (CellResult::Fatal, self),
            Some(h) => if TS_CELL - h.4 < self.room() {
                (
                    CellResult::Done,
                    PsModel {
                        data: if ts_takes(self.ts_pid, h) {
                            self.data + cell.skip(h.4 as int)
                        } else {
                            self.data
                        },
                        ts_pid: ts_latch(self.ts_pid, h),
                        ..self
                    },
                )
            } else {
                (CellResult::Full, self)
            },
        }
    }

    /// The model after the whole cells of `input` from `at` on were offered
    /// in turn, up to the first that is not taken, and where in `input` that
    /// ended.
    pub open spec fn feed_cells(self, input: Seq<u8>, at: int) -> (PsModel, int)
        decreases input.len() - at,
    {
        if at < 0 || at + TS_CELL > input.len() {
            (self, at)
        } else if self.feed_cell(input.subrange(at, at + TS_CELL)).0 == CellResult::Done {
            self.feed_cell(input.subrange(at, at + TS_CELL)).1.feed_cells(input, at + TS_CELL)
        } else {
            (self, at)
        }
    }

    /// Number of bytes of `input` that complete the cell begun before.
    pub open spec fn ts_need(self) -> int {
        if self.ts_rest.len() > 0 {
            TS_CELL - self.ts_rest.len()
        } else {
            0
        }
    }

    /// The model after `push_ts`, and what it returns. Fewer bytes than a
    /// cell are not looked at. The bytes kept from the call before and the
    /// first bytes of `input` make up the first cell. The number returned
    /// says how far `input` was taken: all of it, the rest behind the last
    /// whole cell being kept for the next call; or up to the first cell for
    /// which there is no room or whose header breaks the format. Where the
    /// very first cell breaks the format, it is an error and nothing changes.
    pub open spec fn push_ts(self, input: Seq<u8>) -> (PsModel, Result<usize, PacketError>) {
        if input.len() < TS_CELL {
            (self, Ok(0))
        } else {
            let need = self.ts_need();
            let first = if need > 0 {
                self.feed_cell(self.ts_rest + input.take(need))
            } else {
                (CellResult::Done, self)
            };
            match first.0 {
                CellResult::Fatal => (self, Err(PacketError::FORMAT_ERROR)),
                CellResult::Full => (self, Ok(0)),
                CellResult::Done => {
                    let joined = PsModel { ts_rest: Seq::empty(), ..first.1 };
                    let (fed, at) = joined.feed_cells(input, need);
                    if at + TS_CELL <= input.len() {
                        if at == 0 && fed.feed_cell(input.subrange(0, TS_CELL as int)).0
                            == CellResult::Fatal {
                            (self, Err(PacketError::FORMAT_ERROR))
                        } else {
                            (fed, Ok(at as usize))
                        }
                    } else {
                        (PsModel { ts_rest: input.skip(at), ..fed }, Ok(input.len() as usize))
                    }
                },
            }
        }
    }
}

impl MpegPS {
    /// Whether the payload of a cell with header `ts` belongs to the video
    /// stream; the first cell that starts a video packet fixes the PID.
    pub fn pid2pes(&mut self, ts: (u32, u32, u32, u32, usize)) -> (r: bool)
        requires
            old(self).wf(),
        ensures
            final(self).wf(),
            r == ts_takes(old(self)@.ts_pid, ts),
            final(self)@ == (PsModel { ts_pid: ts_latch(old(self)@.ts_pid, ts), ..old(self)@ }),
    {
        if ts.1 >= 0x2000 {
            return false;
        }
        if ts.0 == 0x01 && self.ts_pid_ == -1 {
            if ts.3 >= 0x000001E0 && ts.3 <= 0x000001EF {
                self.ts_pid_ = ts.1 as i32;
                return true;
            }
        }
        if self.ts_pid_ == -1 {
            return false;
        }
        if ts.1 as i32 == self.ts_pid_ {
            return true;
        }
        return false;
    }

    /// How many more bytes the buffer can take.
    pub fn remind(&self) -> (r: usize)
        requires
            self.wf(),
        ensures
            r == self@.room(),
    {
        self.buffer_.len() - self.len_
    }

    /// Reads the header of one cell of a transport stream.
    pub fn parse_ts(data: &[u8]) -> (r: Option<(u32, u32, u32, u32, usize)>)
        requires
            data.len() == TS_CELL,
        ensures
            r == ts_header(data@),
            r is Some ==> r.unwrap().4 <= TS_CELL && r.unwrap().1 < 0x2000,
    {
        let mut buffer = BitBuffer::new(data);
        if buffer.read(8).unwrap() != 0x47 {
            return None;
        }
        buffer.skip(1);
        let payload_start: u32 = buffer.read(1).unwrap();
        buffer.skip(1);
        let pid: u32 = buffer.read(13).unwrap();
        buffer.skip(2);
        let adaptation_field_control: u32 = buffer.read(2).unwrap();
        let continuity_counter: u32 = buffer.read(4).unwrap();
        proof {
            crate::bits::lemma_bits_val_bound(data@, 26, 2);
            crate::bits::lemma_bits_val_bound(data@, 11, 13);
            crate::bits::lemma_bits_val_bound(data@, 32, 8);
        }
        if adaptation_field_control == 0x00 {
            return None;
        }
        if adaptation_field_control >= 2 {
            let field_length: u32 = buffer.read(8).unwrap();
            buffer.skip((field_length as usize) * 8);
        }
        let code: u32 = if buffer.has(32) {
            let ret: u32 = buffer.read(32).unwrap();
            buffer.back(32);
            ret
        } else {
            0xFFFFFFFF
        };
        return Some((payload_start, pid, continuity_counter, code, buffer.pos() / 8));
    }

    /// Offers one whole cell: appends its payload where it belongs to the
    /// video stream and the buffer has room for more than it.
    pub fn feed_cell(&mut self, cell: &[u8]) -> (r: CellResult)
        requires
            old(self).wf(),
            cell.len() == TS_CELL,
        ensures
            final(self).wf(),
            r == old(self)@.feed_cell(cell@).0,
            final(self)@ == old(self)@.feed_cell(cell@).1,
    {
        match MpegPS::parse_ts(cell) {
            None => CellResult::Fatal,
            Some(ret) => {
                let payload_len: usize = TS_CELL - ret.4;
                if payload_len < self.remind() {
                    if self.pid2pes(ret) {
                        let payload = slice_subrange(cell, ret.4, TS_CELL);
                        assert(payload@ =~= cell@.skip(ret.4 as int));
                        assert(payload@.take(payload.len() as int) =~= payload@);
                        self.push(payload);
                    }
                    CellResult::Done
                } else {
                    CellResult::Full
                }
            },
        }
    }

    /// Takes the video stream out of cells of a transport stream and appends
    /// it to the buffer. Returns how many bytes of `data` were taken.
    #[verifier::rlimit(40)]
    pub fn push_ts(&mut self, data: &[u8]) -> (r: Result<usize, PacketError>)
        requires
            old(self).wf(),
        ensures
            final(self).wf(),
            r == old(self)@.push_ts(data@).1,
            final(self)@ == old(self)@.push_ts(data@).0,
    {
        if data.len() < TS_CELL {
            return Ok(0);
        }
        let mut offset: usize = 0;
        if self.ts_rest_.len() > 0 {
            offset = TS_CELL - self.ts_rest_.len();
            let mut cell: Vec<u8> = Vec::new();
            cell.extend_from_slice(self.ts_rest_.as_slice());
            let head = slice_subrange(data, 0, offset);
            cell.extend_from_slice(head);
            assert(cell@ =~= old(self)@.ts_rest + data@.take(offset as int));
            match self.feed_cell(cell.as_slice()) {
                CellResult::Fatal => {
                    return Err(PacketError::FORMAT_ERROR);
                },
                CellResult::Full => {
                    return Ok(0);
                },
                CellResult::Done => {},
            }
            self.ts_rest_ = Vec::new();
        }
        let ghost joined = self@;
        let ghost need = offset as int;
        let ghost fin = joined.feed_cells(data@, need);
        proof {
            assert(self@.ts_rest =~= Seq::<u8>::empty());
            if need == 0 {
                assert(old(self)@.ts_rest =~= Seq::<u8>::empty());
            }
        }
        while data.len() - offset >= TS_CELL
            invariant
                self.wf(),
                data.len() >= TS_CELL,
                offset <= data.len(),
                need <= offset,
                self@.ts_rest == Seq::<u8>::empty(),
                fin == joined.feed_cells(data@, need),
                self@.feed_cells(data@, offset as int) == fin,
                offset == 0 ==> self@ == old(self)@,
                old(self)@.push_ts(data@) == if fin.1 + TS_CELL <= data.len() {
                    if fin.1 == 0 && fin.0.feed_cell(data@.subrange(0, TS_CELL as int)).0
                        == CellResult::Fatal {
                        (old(self)@, Err::<usize, PacketError>(PacketError::FORMAT_ERROR))
                    } else {
                        (fin.0, Ok::<usize, PacketError>(fin.1 as usize))
                    }
                } else {
                    (
                        PsModel { ts_rest: data@.skip(fin.1), ..fin.0 },
                        Ok::<usize, PacketError>(data.len()),
                    )
                },
            decreases data.len() - offset,
        {
            let cell = slice_subrange(data, offset, offset + TS_CELL);
            match self.feed_cell(cell) {
                CellResult::Done => {
                    offset = offset + TS_CELL;
                },
                CellResult::Full => {
                    return Ok(offset);
                },
                CellResult::Fatal => {
                    if offset == 0 {
                        return Err(PacketError::FORMAT_ERROR);
                    }
                    return Ok(offset);
                },
            }
        }
        if offset < data.len() {
            let tail = slice_subrange(data, offset, data.len());
            self.ts_rest_ = vstd::slice::slice_to_vec(tail);
            assert(self@.ts_rest =~= data@.skip(offset as int));
        } else {
            assert(self@.ts_rest =~= data@.skip(offset as int));
        }
        return Ok(data.len());
    }
}

/// An element that was parsed lies inside the window, and its payload
/// inside the element.
pub proof fn lemma_packet_fits(class: CodeClass, w: Seq<u8>)
    requires
        w.len() <= usize::MAX,
    ensures
        match next_packet(class, w) {
            Ok(p) => p.offset + p.len <= w.len() && p.payload <= p.len && p.len >= 6 && code_at(
                w,
                class,
                p.offset as int,
            ),
            Err(_) => true,
        },
{
    lemma_find_code(w, class, 0);
    match find_code(w, class) {
        None => {},
        Some((pos, code)) => {
            let d = w.skip(pos as int);
            crate::bits::lemma_bits_val_bound(d, 32, 16);
            if d.len() >= 6 && length_field(d) == 0 {
                lemma_find_code(d.skip(6), CodeClass::Any, 0);
            }
        },
    }
}

} // verus!
