//! Two bit readers: a circular buffer that is filled byte by byte and read
//! bit by bit, and a cursor over a slice that is already complete.
use vstd::prelude::*;
use crate::bits::{
    bit_at, bit_of, bits_val, lemma_bit_range, lemma_byte_val, limit, read_bits, wrap,
};

verus! {

/// Mathematical model of the circular buffer: its bytes, the read cursor in
/// bits and the write cursor in bytes.
pub struct Ring {
    pub buf: Seq<u8>,
    pub rbi: int,
    pub wi: int,
}

impl Ring {
    pub open spec fn cap(self) -> int {
        self.buf.len() as int
    }

    pub open spec fn cap8(self) -> int {
        8 * (self.buf.len() as int)
    }

    /// Both cursors are inside the buffer, and a read cursor that stands in
    /// the byte about to be written stands at its first bit.
    pub open spec fn wf(self) -> bool {
        &&& self.cap() >= 1
        &&& 0 <= self.wi < self.cap()
        &&& 0 <= self.rbi < self.cap8()
        &&& (self.rbi / 8 == self.wi ==> self.rbi % 8 == 0)
    }

    /// Number of unread bits.
    pub open spec fn len(self) -> int {
        wrap(8 * self.wi + self.cap8() - self.rbi, self.cap8())
    }

    pub open spec fn has(self, n: int) -> bool {
        n <= self.len()
    }

    pub open spec fn is_empty(self) -> bool {
        self.rbi / 8 == self.wi
    }

    pub open spec fn is_full(self) -> bool {
        wrap(self.wi + 1, self.cap()) == self.rbi / 8
    }

    /// Number of bytes that can still be written: one byte always stays
    /// unused, so that a full buffer differs from an empty one.
    pub open spec fn room(self) -> int {
        self.cap() - 1 - (self.len() + 7) / 8
    }

    /// The `i`-th unread bit.
    pub open spec fn bit(self, i: int) -> int {
        bit_at(self.buf, self.rbi + i)
    }

    /// The next `n` bits as a number, first bit most significant.
    pub open spec fn peek(self, n: int) -> int {
        bits_val(self.buf, self.rbi, n)
    }

    /// The read cursor moved `n` bits forward.
    pub open spec fn advance(self, n: int) -> Ring {
        Ring { rbi: wrap(self.rbi + n, self.cap8()), ..self }
    }

    /// Whether the read cursor can move `n` bits back without crossing the
    /// write cursor.
    pub open spec fn can_rewind(self, n: int) -> bool {
        0 <= n <= self.cap8() - 8 - self.len()
    }

    /// The read cursor moved `n` bits back.
    pub open spec fn rewind(self, n: int) -> Ring {
        Ring {
            rbi: if self.rbi >= n {
                self.rbi - n
            } else {
                self.rbi + self.cap8() - n
            },
            ..self
        }
    }

    /// The buffer after `bytes` were written at the write cursor.
    pub open spec fn append(self, bytes: Seq<u8>) -> Ring {
        Ring {
            buf: Seq::new(
                self.buf.len(),
                |i: int|
                    if wrap(i + self.cap() - self.wi, self.cap()) < bytes.len() {
                        bytes[wrap(i + self.cap() - self.wi, self.cap())]
                    } else {
                        self.buf[i]
                    },
            ),
            wi: wrap(self.wi + bytes.len(), self.cap()),
            ..self
        }
    }

    /// The read cursor moved up to the next byte boundary.
    pub open spec fn aligned(self) -> Ring {
        Ring { rbi: wrap((self.rbi + 7) / 8 * 8, self.cap8()), ..self }
    }

    /// Number of whole unread bytes from the next byte boundary on.
    pub open spec fn bytes_ahead(self) -> int {
        self.len() / 8
    }

    /// The `i`-th whole byte from the next byte boundary on.
    pub open spec fn byte(self, i: int) -> u8 {
        self.buf[wrap((self.rbi + 7) / 8 + i, self.cap())]
    }

    /// The 32-bit shift register after the first `j` whole bytes were shifted
    /// in, low byte last; it starts with all bits set.
    pub open spec fn shift_reg(self, j: int) -> u32
        decreases j,
    {
        if j <= 0 {
            0xFFFF_FFFFu32
        } else {
            (self.shift_reg(j - 1) << 8) | (self.byte(j - 1) as u32)
        }
    }

    /// The least number of bytes, `j` or more, after which the shift register
    /// holds `code`; 0 where it never does.
    pub open spec fn first_match_from(self, code: u32, j: int) -> int
        decreases self.bytes_ahead() + 1 - j,
    {
        if j > self.bytes_ahead() {
            0
        } else if self.shift_reg(j) == code {
            j
        } else {
            self.first_match_from(code, j + 1)
        }
    }

    /// How often the shift register holds `code` after `j` or more bytes.
    pub open spec fn match_count_from(self, code: u32, j: int) -> nat
        decreases self.bytes_ahead() + 1 - j,
    {
        if j > self.bytes_ahead() {
            0
        } else if self.shift_reg(j) == code {
            1 + self.match_count_from(code, j + 1)
        } else {
            self.match_count_from(code, j + 1)
        }
    }

    /// The cursor right behind the first place, from the next byte boundary
    /// on, at which the shift register holds `code`.
    pub open spec fn find_start_code(self, code: u32) -> Option<Ring> {
        let j = self.first_match_from(code, 1);
        if j > 0 {
            Some(self.aligned().advance(8 * j))
        } else {
            None
        }
    }

    /// Whether `code` is found at least twice ahead of the cursor.
    pub open spec fn include_two_code(self, code: u32) -> bool {
        self.match_count_from(code, 1) >= 2
    }

    /// Whether the bytes `00 00 01` stand at whole byte `i`.
    pub open spec fn prefix_at(self, i: int) -> bool {
        &&& 0 <= i
        &&& i + 3 <= self.bytes_ahead()
        &&& self.byte(i) == 0
        &&& self.byte(i + 1) == 0
        &&& self.byte(i + 2) == 1
    }

    /// The first whole byte, `i` or later, at which `00 00 01` stands; -1
    /// where there is none.
    pub open spec fn first_prefix_from(self, i: int) -> int
        decreases self.bytes_ahead() + 1 - i,
    {
        if i + 3 > self.bytes_ahead() {
            -1
        } else if self.prefix_at(i) {
            i
        } else {
            self.first_prefix_from(i + 1)
        }
    }

    /// The cursor right behind the next `00 00 01`.
    pub open spec fn find_start(self) -> Option<Ring> {
        let i = self.first_prefix_from(0);
        if i >= 0 {
            Some(self.aligned().advance(8 * (i + 3)))
        } else {
            None
        }
    }

    /// Walks a prefix-code table from pair `idx` on: each bit picks one entry
    /// of the pair; an entry whose first part is 0 is a leaf and gives its
    /// second part, a positive first part is the next pair, which must lie
    /// further on in the table, and anything else is no code. A missing bit
    /// counts as 0.
    pub open spec fn vlc_walk<V>(self, table: Seq<(i16, V)>, idx: int) -> (Option<V>, Ring)
        decreases table.len() - idx,
    {
        if idx < 0 || idx + 1 >= table.len() {
            (None, self)
        } else {
            let bit = if self.has(1) {
                self.peek(1)
            } else {
                0
            };
            let after = if self.has(1) {
                self.advance(1)
            } else {
                self
            };
            let entry = table[idx + bit];
            if entry.0 == 0 {
                (Some(entry.1), after)
            } else if entry.0 <= idx || entry.0 + 1 >= table.len() {
                (None, after)
            } else {
                after.vlc_walk(table, entry.0 as int)
            }
        }
    }

    /// What reading `n` bits gives, and the buffer behind them: nothing is
    /// read, and the value is 0, where fewer bits remain.
    pub open spec fn read(self, n: int) -> (int, Ring) {
        if self.has(n) {
            (self.peek(n), self.advance(n))
        } else {
            (0, self)
        }
    }

    /// The buffer after `n` bits were skipped, which stays as it is where
    /// fewer remain.
    pub open spec fn skip(self, n: int) -> Ring {
        if self.has(n) {
            self.advance(n)
        } else {
            self
        }
    }

    /// The buffer after the cursor moved `n` bits back, which stays as it is
    /// where that would cross the write cursor.
    pub open spec fn back(self, n: int) -> Ring {
        if self.can_rewind(n) {
            self.rewind(n)
        } else {
            self
        }
    }

    /// Reading keeps the buffer well formed, takes bits away only, and gives
    /// a number of `n` bits.
    pub proof fn lemma_read(self, n: int)
        requires
            self.wf(),
            0 <= n,
        ensures
            self.read(n).1.wf(),
            self.read(n).1.len() <= self.len(),
            self.has(n) ==> self.read(n).1.len() == self.len() - n,
            self.read(n).1.cap() == self.cap(),
            0 <= self.read(n).0 < limit(n),
            self.skip(n) == self.read(n).1,
    {
        crate::bits::lemma_bits_val_bound(self.buf, self.rbi, n);
    }

    /// Decoding a symbol keeps the buffer well formed and takes bits away
    /// only; it takes at least one where one is there.
    pub proof fn lemma_vlc_walk<V>(self, table: Seq<(i16, V)>, idx: int)
        requires
            self.wf(),
        ensures
            self.vlc_walk(table, idx).1.wf(),
            self.vlc_walk(table, idx).1.len() <= self.len(),
            self.vlc_walk(table, idx).1.cap() == self.cap(),
            self.has(1) && 0 <= idx && idx + 1 < table.len() ==> self.vlc_walk(table, idx).1.len()
                < self.len(),
            self.vlc_walk(table, idx).0 is Some ==> exists|i: int|
                0 <= i < table.len() && self.vlc_walk(table, idx).0 == Some(
                    (#[trigger] table[i]).1,
                ),
        decreases table.len() - idx,
    {
        if 0 <= idx && idx + 1 < table.len() {
            let bit = if self.has(1) {
                self.peek(1)
            } else {
                0
            };
            let after = if self.has(1) {
                self.advance(1)
            } else {
                self
            };
            reveal_with_fuel(bits_val, 2);
            lemma_bit_range(self.buf, self.rbi);
            let entry = table[idx + bit];
            if entry.0 != 0 && !(entry.0 <= idx || entry.0 + 1 >= table.len()) {
                after.lemma_vlc_walk(table, entry.0 as int);
            }
        }
    }

    /// Moving forward twice is moving forward once by the sum.
    pub proof fn lemma_advance_add(self, a: int, b: int)
        requires
            self.wf(),
            0 <= a,
            0 <= b,
            a + b <= self.len(),
        ensures
            self.advance(a).wf(),
            self.advance(a).len() == self.len() - a,
            self.advance(a).advance(b) == self.advance(a + b),
    {
    }

    /// A search that finds a start code ends behind at least one byte, and
    /// one that finds the prefix `00 00 01` behind at least three; both keep
    /// the buffer well formed.
    pub proof fn lemma_find(self, code: u32)
        requires
            self.wf(),
        ensures
            match self.find_start_code(code) {
                Some(r) => r.wf() && r.len() + 8 <= self.len() && r.cap() == self.cap(),
                None => true,
            },
            match self.find_start() {
                Some(r) => r.wf() && r.len() + 24 <= self.len() && r.cap() == self.cap(),
                None => true,
            },
    {
        self.lemma_first_match(code, 1);
        self.lemma_first_prefix(0);
    }

    proof fn lemma_first_match(self, code: u32, j: int)
        requires
            1 <= j,
        ensures
            self.first_match_from(code, j) == 0 || j <= self.first_match_from(code, j)
                <= self.bytes_ahead(),
        decreases self.bytes_ahead() + 1 - j,
    {
        if j <= self.bytes_ahead() && self.shift_reg(j) != code {
            self.lemma_first_match(code, j + 1);
        }
    }

    proof fn lemma_first_prefix(self, i: int)
        requires
            0 <= i,
        ensures
            self.first_prefix_from(i) == -1 || i <= self.first_prefix_from(i) <= self.bytes_ahead()
                - 3,
        decreases self.bytes_ahead() + 1 - i,
    {
        if i + 3 <= self.bytes_ahead() && !self.prefix_at(i) {
            self.lemma_first_prefix(i + 1);
        }
    }

    /// Moving back keeps the buffer well formed.
    pub proof fn lemma_back(self, n: int)
        requires
            self.wf(),
        ensures
            self.back(n).wf(),
            self.back(n).cap() == self.cap(),
    {
    }

    /// Moving back over bits just passed restores the buffer.
    pub proof fn lemma_unread(self, n: int)
        requires
            self.wf(),
            0 <= n <= self.len(),
        ensures
            self.advance(n).back(n) == self,
            self.advance(n).wf(),
            self.skip(n) == self.advance(n),
            self.read(n).1 == self.advance(n),
    {
    }

    /// Moving forward over `n` unread bits leaves the bits behind them as
    /// they were, each `n` places nearer.
    pub proof fn lemma_advance(self, n: int)
        requires
            self.wf(),
            0 <= n <= self.len(),
        ensures
            self.advance(n).wf(),
            self.advance(n).len() == self.len() - n,
            forall|m: int| self.advance(n).has(m) == self.has(n + m),
            forall|i: int|
                0 <= i < self.len() - n ==> #[trigger] self.advance(n).bit(i) == self.bit(n + i),
    {
    }

    /// Reading `n` bits and moving back over them restores the buffer, so
    /// that reading again gives the same value.
    pub proof fn lemma_read_back(self, n: int)
        requires
            self.wf(),
            0 <= n <= self.len(),
        ensures
            self.read(n).1.can_rewind(n),
            self.read(n).1.back(n) == self,
            self.read(n).1.back(n).read(n) == self.read(n),
    {
    }

    /// After `bytes` were written, byte `k` of them is read as eight bits
    /// once the bits unread before and the `k` bytes before it are passed.
    pub proof fn lemma_push_read(self, bytes: Seq<u8>, k: int)
        requires
            self.wf(),
            bytes.len() <= self.room(),
            0 <= k < bytes.len(),
        ensures
            self.append(bytes).has(self.len() + 8 * k + 8),
            !self.append(bytes).has(self.len() + 8 * bytes.len() + 1),
            self.append(bytes).advance(self.len() + 8 * k).peek(8) == bytes[k],
    {
        self.lemma_append(bytes);
        let after = self.append(bytes);
        let at = after.advance(self.len() + 8 * k);
        after.lemma_advance(self.len() + 8 * k);
        lemma_byte_val(at.buf, at.rbi);
        let p = at.rbi / 8;
        assert(wrap(p + self.cap() - self.wi, self.cap()) == k);
    }

    /// The four whole bytes from byte `p` on as one number, first byte
    /// highest.
    pub open spec fn word_at(self, p: int) -> u32 {
        ((self.byte(p) as u32) << 24) | ((self.byte(p + 1) as u32) << 16) | ((self.byte(
            p + 2,
        ) as u32) << 8) | (self.byte(p + 3) as u32)
    }

    /// Whether the four bytes of `code` stand at whole byte `p`.
    pub open spec fn occurs_at(self, code: u32, p: int) -> bool {
        &&& 0 <= p
        &&& p + 4 <= self.bytes_ahead()
        &&& self.word_at(p) == code
    }

    proof fn lemma_shift_reg(self, j: int)
        requires
            1 <= j,
        ensures
            j < 4 ==> self.shift_reg(j) >> 24 == 0xFF,
            j >= 4 ==> self.shift_reg(j) == self.word_at(j - 4),
    {
        reveal_with_fuel(Ring::shift_reg, 5);
        if j < 4 {
            let x = self.shift_reg(0);
            let b0 = self.byte(0) as u32;
            let b1 = self.byte(1) as u32;
            let b2 = self.byte(2) as u32;
            assert(x == 0xFFFF_FFFFu32 ==> ((x << 8) | b0) >> 24 == 0xFF && ((((x << 8) | b0) << 8)
                | b1) >> 24 == 0xFF && ((((((x << 8) | b0) << 8) | b1) << 8) | b2) >> 24 == 0xFF)
                by (bit_vector);
        } else {
            let x = self.shift_reg(j - 4);
            let b0 = self.byte(j - 4) as u32;
            let b1 = self.byte(j - 3) as u32;
            let b2 = self.byte(j - 2) as u32;
            let b3 = self.byte(j - 1) as u32;
            assert(b0 < 256 && b1 < 256 && b2 < 256 && b3 < 256 ==> ((((((((x << 8) | b0) << 8)
                | b1) << 8) | b2) << 8) | b3) == ((b0 << 24) | (b1 << 16) | (b2 << 8) | b3))
                by (bit_vector);
        }
    }

    proof fn lemma_no_match_before(self, code: u32, j: int, p: int)
        requires
            code >> 24 != 0xFF,
            1 <= j <= p + 4 <= self.bytes_ahead(),
            forall|q: int| 0 <= q < p ==> !self.occurs_at(code, q),
        ensures
            self.first_match_from(code, j) == self.first_match_from(code, p + 4),
        decreases p + 4 - j,
    {
        if j < p + 4 {
            self.lemma_shift_reg(j);
            if j >= 4 {
                assert(!self.occurs_at(code, j - 4));
            }
            self.lemma_no_match_before(code, j + 1, p);
        }
    }

    proof fn lemma_no_match(self, code: u32, j: int)
        requires
            code >> 24 != 0xFF,
            1 <= j,
            forall|q: int| !self.occurs_at(code, q),
        ensures
            self.first_match_from(code, j) == 0,
        decreases self.bytes_ahead() + 1 - j,
    {
        if j <= self.bytes_ahead() {
            self.lemma_shift_reg(j);
            if j >= 4 {
                assert(!self.occurs_at(code, j - 4));
            }
            self.lemma_no_match(code, j + 1);
        }
    }

    /// Where the bytes of `code` stand at whole byte `p` and nowhere before
    /// it, the search ends four bytes behind `p`. This holds of every code
    /// whose highest byte is not `FF`, as the shift register starts with all
    /// bits set.
    pub proof fn lemma_find_start_code(self, code: u32, p: int)
        requires
            self.wf(),
            code >> 24 != 0xFF,
            self.occurs_at(code, p),
            forall|q: int| 0 <= q < p ==> !self.occurs_at(code, q),
        ensures
            self.find_start_code(code) == Some(self.aligned().advance(8 * (p + 4))),
    {
        self.lemma_no_match_before(code, 1, p);
        self.lemma_shift_reg(p + 4);
    }

    /// Where the bytes of `code` stand nowhere ahead, the search fails.
    pub proof fn lemma_find_start_code_absent(self, code: u32)
        requires
            self.wf(),
            code >> 24 != 0xFF,
            forall|q: int| !self.occurs_at(code, q),
        ensures
            self.find_start_code(code) is None,
    {
        self.lemma_no_match(code, 1);
    }

    /// Writing keeps every unread bit where it is and puts the bits of the
    /// new bytes, most significant first, right behind them.
    pub proof fn lemma_append(self, bytes: Seq<u8>)
        requires
            self.wf(),
            bytes.len() <= self.room(),
        ensures
            self.append(bytes).wf(),
            self.append(bytes).len() == self.len() + 8 * bytes.len(),
            self.append(bytes).room() == self.room() - bytes.len(),
            forall|i: int|
                0 <= i < self.len() ==> #[trigger] self.append(bytes).bit(i) == self.bit(i),
            forall|i: int|
                0 <= i < 8 * bytes.len() ==> #[trigger] self.append(bytes).bit(self.len() + i)
                    == bit_of(bytes[i / 8], i % 8),
    {
        let after = self.append(bytes);
        assert forall|i: int| 0 <= i < self.len() implies #[trigger] after.bit(i) == self.bit(
            i,
        ) by {
            let p = wrap(self.rbi + i, self.cap8()) / 8;
            assert(wrap(p + self.cap() - self.wi, self.cap()) >= bytes.len());
        }
        assert forall|i: int| 0 <= i < 8 * bytes.len() implies #[trigger] after.bit(
            self.len() + i,
        ) == bit_of(bytes[i / 8], i % 8) by {
            let p = wrap(self.rbi + self.len() + i, self.cap8()) / 8;
            assert(wrap(p + self.cap() - self.wi, self.cap()) == i / 8);
            assert((self.rbi + self.len() + i) % 8 == i % 8);
        }
    }
}

/// Circular byte buffer with a read cursor that moves bit by bit and a write
/// cursor that moves byte by byte.
#[derive(Debug)]
pub struct RingBitBuffer {
    buffer_: Vec<u8>,
    rbi_: usize,
    wi_: usize,
    cap_: usize,
}

/// Largest capacity, in bytes, that a ring buffer can be made with.
pub const RING_MAX_CAPACITY: usize = 0x0800_0000;

/// Capacity, in bytes, of a ring buffer made by `new`.
pub const RING_DEFAULT_CAPACITY: usize = 0x0040_0000;

impl View for RingBitBuffer {
    type V = Ring;

    closed spec fn view(&self) -> Ring {
        Ring { buf: self.buffer_@, rbi: self.rbi_ as int, wi: self.wi_ as int }
    }
}

impl RingBitBuffer {
    pub closed spec fn wf(&self) -> bool {
        &&& self.cap_ == self.buffer_.len()
        &&& self.cap_ <= RING_MAX_CAPACITY
        &&& self@.wf()
    }

    pub proof fn lemma_wf(&self)
        requires
            self.wf(),
        ensures
            self@.wf(),
            self@.cap() <= RING_MAX_CAPACITY,
    {
    }

    fn round(&self, p: usize) -> (r: usize)
        requires
            self.wf(),
            p < 2 * self.cap_,
        ensures
            r as int == wrap(p as int, self@.cap()),
    {
        if p >= self.cap_ {
            p - self.cap_
        } else {
            p
        }
    }

    /// Number of unread bits.
    pub fn len(&self) -> (r: usize)
        requires
            self.wf(),
        ensures
            r as int == self@.len(),
    {
        let rby: usize = self.rbi_ / 8;
        if rby == self.wi_ {
            return 0;
        }
        let has_bytes: usize = if self.wi_ >= rby {
            self.wi_ - rby
        } else {
            self.wi_ + self.cap_ - rby
        };
        has_bytes * 8 - self.rbi_ % 8
    }

    /// Whether at least `count` unread bits remain.
    pub fn has(&self, count: usize) -> (r: bool)
        requires
            self.wf(),
        ensures
            r == self@.has(count as int),
    {
        self.len() >= count
    }

    /// An empty buffer of the default capacity.
    pub fn new() -> (r: Self)
        ensures
            r.wf(),
            r@.cap() == RING_DEFAULT_CAPACITY,
            r@.rbi == 0,
            r@.wi == 0,
            r@.len() == 0,
    {
        RingBitBuffer::with_capacity(RING_DEFAULT_CAPACITY)
    }

    /// An empty buffer of `capacity` bytes, one of which always stays unused.
    pub fn with_capacity(capacity: usize) -> (r: Self)
        requires
            1 <= capacity <= RING_MAX_CAPACITY,
        ensures
            r.wf(),
            r@.cap() == capacity,
            r@.rbi == 0,
            r@.wi == 0,
            r@.len() == 0,
    {
        let buffer: Vec<u8> = vec![0u8; capacity];
        RingBitBuffer { cap_: capacity, buffer_: buffer, rbi_: 0, wi_: 0 }
    }

    pub fn empty(&self) -> (r: bool)
        requires
            self.wf(),
        ensures
            r == self@.is_empty(),
            r == (self@.len() == 0),
    {
        self.rbi_ / 8 == self.wi_
    }

    pub fn full(&self) -> (r: bool)
        requires
            self.wf(),
        ensures
            r == self@.is_full(),
            r == (self@.room() == 0),
    {
        self.round(self.wi_ + 1) == self.rbi_ / 8
    }

    /// Number of bytes that `push` can still take.
    pub fn room(&self) -> (r: usize)
        requires
            self.wf(),
        ensures
            r as int == self@.room(),
    {
        let rby: usize = self.rbi_ / 8;
        if rby > self.wi_ {
            rby - self.wi_ - 1
        } else {
            rby + self.cap_ - self.wi_ - 1
        }
    }

    /// Copies as many bytes of `data` as there is room for, from its start,
    /// and returns how many were copied.
    pub fn push(&mut self, data: &[u8]) -> (count: usize)
        requires
            old(self).wf(),
        ensures
            final(self).wf(),
            count as int == if data.len() <= old(self)@.room() {
                data.len() as int
            } else {
                old(self)@.room()
            },
            final(self)@ == old(self)@.append(data@.take(count as int)),
            final(self)@.len() == old(self)@.len() + 8 * count,
            forall|i: int|
                0 <= i < old(self)@.len() ==> #[trigger] final(self)@.bit(i) == old(self)@.bit(i),
            forall|i: int|
                0 <= i < 8 * count ==> #[trigger] final(self)@.bit(old(self)@.len() + i) == bit_of(
                    data[i / 8],
                    i % 8,
                ),
    {
        let room: usize = self.room();
        let count: usize = if data.len() <= room {
            data.len()
        } else {
            room
        };
        let ghost before = self@;
        let mut wlen: usize = 0;
        assert(self@.buf =~= before.append(data@.take(0)).buf);
        while wlen < count
            invariant
                self.wf(),
                before.wf(),
                self.cap_ == old(self).cap_,
                count <= before.room(),
                count <= data.len(),
                wlen <= count,
                self@.rbi == before.rbi,
                self@.buf =~= before.append(data@.take(wlen as int)).buf,
                self@.wi == before.append(data@.take(wlen as int)).wi,
            decreases count - wlen,
        {
            self.buffer_[self.wi_] = data[wlen];
            self.wi_ = self.round(self.wi_ + 1);
            wlen = wlen + 1;
        }
        proof {
            before.lemma_append(data@.take(count as int));
            assert(self@ == before.append(data@.take(count as int)));
        }
        count
    }

    /// Moves the read cursor `count` bits forward and returns `count`, or
    /// leaves it and returns 0 where fewer bits remain.
    pub fn skip(&mut self, count: usize) -> (r: usize)
        requires
            old(self).wf(),
        ensures
            final(self).wf(),
            old(self)@.has(count as int) ==> r == count && final(self)@ == old(self)@.advance(
                count as int,
            ),
            !old(self)@.has(count as int) ==> r == 0 && final(self)@ == old(self)@,
            final(self)@ == old(self)@.skip(count as int),
    {
        if self.has(count) {
            let cap8: usize = self.cap_ * 8;
            let mut p: usize = self.rbi_ + count;
            if p >= cap8 {
                p = p - cap8;
            }
            self.rbi_ = p;
            return count;
        }
        0
    }

    /// Reads the next `count` bits, first bit most significant, and moves
    /// past them; reads nothing and returns 0 where fewer bits remain.
    pub fn read(&mut self, count: usize) -> (value: u32)
        requires
            old(self).wf(),
            count <= 32,
        ensures
            final(self).wf(),
            old(self)@.has(count as int) ==> value as int == old(self)@.peek(count as int)
                && final(self)@ == old(self)@.advance(count as int),
            !old(self)@.has(count as int) ==> value == 0 && final(self)@ == old(self)@,
            value as int == old(self)@.read(count as int).0,
            final(self)@ == old(self)@.read(count as int).1,
    {
        if !self.has(count) {
            return 0x00;
        }
        let value: u32 = read_bits(self.buffer_.as_slice(), self.rbi_, count);
        self.skip(count);
        value
    }

    /// Moves the read cursor `count` bits back and returns `count`, or leaves
    /// it and returns 0 where that would cross the write cursor.
    pub fn back(&mut self, count: usize) -> (r: usize)
        requires
            old(self).wf(),
        ensures
            final(self).wf(),
            old(self)@.can_rewind(count as int) ==> r == count && final(self)@
                == old(self)@.rewind(count as int),
            !old(self)@.can_rewind(count as int) ==> r == 0 && final(self)@ == old(self)@,
            final(self)@ == old(self)@.back(count as int),
    {
        let cap8: usize = self.cap_ * 8;
        let len: usize = self.len();
        if count > cap8 - 8 - len {
            return 0;
        }
        if self.rbi_ >= count {
            self.rbi_ = self.rbi_ - count;
        } else {
            self.rbi_ = self.rbi_ + cap8 - count;
        }
        count
    }
    /// Whether `code` occurs at least twice ahead of the cursor; the cursor
    /// stays where it is.
    pub fn include_two_code(&self, code: u32) -> (r: bool)
        requires
            self.wf(),
        ensures
            r == self@.include_two_code(code),
    {
        let n: usize = self.len() / 8;
        let mut pos: usize = self.round((self.rbi_ + 7) / 8);
        let mut pattern: u32 = 0xFFFFFFFF;
        let mut times: usize = 0;
        let mut j: usize = 0;
        while j < n
            invariant
                self.wf(),
                n as int == self@.bytes_ahead(),
                j <= n,
                pos as int == wrap((self@.rbi + 7) / 8 + j, self@.cap()),
                pattern == self@.shift_reg(j as int),
                times < 2,
                times + self@.match_count_from(code, j + 1) == self@.match_count_from(code, 1),
            decreases n - j,
        {
            pattern = (pattern << 8) | (self.buffer_[pos] as u32);
            pos = self.round(pos + 1);
            j = j + 1;
            if pattern == code {
                times = times + 1;
                if times == 2 {
                    return true;
                }
            }
        }
        false
    }

    /// Moves to the next byte boundary and on until the last four bytes
    /// passed are `code`. Returns whether it was found; if not, the cursor
    /// stays where it was.
    pub fn find_start_code(&mut self, code: u32) -> (found: bool)
        requires
            old(self).wf(),
        ensures
            final(self).wf(),
            found == old(self)@.find_start_code(code).is_some(),
            found ==> final(self)@ == old(self)@.find_start_code(code).unwrap(),
            !found ==> final(self)@ == old(self)@,
    {
        let n: usize = self.len() / 8;
        let mut pos: usize = self.round((self.rbi_ + 7) / 8);
        let mut pattern: u32 = 0xFFFFFFFF;
        let mut j: usize = 0;
        while j < n
            invariant
                self.wf(),
                *self == *old(self),
                n as int == self@.bytes_ahead(),
                j <= n,
                pos as int == wrap((self@.rbi + 7) / 8 + j, self@.cap()),
                pattern == self@.shift_reg(j as int),
                self@.first_match_from(code, j + 1) == self@.first_match_from(code, 1),
            decreases n - j,
        {
            pattern = (pattern << 8) | (self.buffer_[pos] as u32);
            pos = self.round(pos + 1);
            j = j + 1;
            if pattern == code {
                self.rbi_ = pos * 8;
                return true;
            }
        }
        false
    }

    /// Whether the bytes `00 00 01` stand at the next byte boundary; the
    /// cursor stays where it is.
    pub fn next_is_start(&self) -> (r: bool)
        requires
            self.wf(),
        ensures
            r == self@.prefix_at(0),
    {
        let n: usize = self.len() / 8;
        if n < 3 {
            return false;
        }
        let p0: usize = self.round((self.rbi_ + 7) / 8);
        let p1: usize = self.round(p0 + 1);
        let p2: usize = self.round(p1 + 1);
        self.buffer_[p0] == 0 && self.buffer_[p1] == 0 && self.buffer_[p2] == 1
    }

    /// Moves to the next byte boundary and on to right behind the next
    /// `00 00 01`. Returns whether one was found; if not, the cursor stays
    /// where it was.
    pub fn find_start(&mut self) -> (found: bool)
        requires
            old(self).wf(),
        ensures
            final(self).wf(),
            found == old(self)@.find_start().is_some(),
            found ==> final(self)@ == old(self)@.find_start().unwrap(),
            !found ==> final(self)@ == old(self)@,
    {
        let n: usize = self.len() / 8;
        let start: usize = self.round((self.rbi_ + 7) / 8);
        let mut p0: usize = start;
        let mut i: usize = 0;
        while n >= 3 && i <= n - 3
            invariant
                self.wf(),
                *self == *old(self),
                n as int == self@.bytes_ahead(),
                p0 as int == wrap((self@.rbi + 7) / 8 + i, self@.cap()),
                self@.first_prefix_from(i as int) == self@.first_prefix_from(0),
            decreases n - i,
        {
            let p1: usize = self.round(p0 + 1);
            let p2: usize = self.round(p1 + 1);
            if self.buffer_[p0] == 0 && self.buffer_[p1] == 0 && self.buffer_[p2] == 1 {
                self.rbi_ = self.round(p2 + 1) * 8;
                return true;
            }
            p0 = p1;
            i = i + 1;
        }
        false
    }

    fn walk<V: Copy>(&mut self, table: &[(i16, V)]) -> (r: Option<V>)
        requires
            old(self).wf(),
        ensures
            final(self).wf(),
            r == old(self)@.vlc_walk(table@, 0).0,
            final(self)@ == old(self)@.vlc_walk(table@, 0).1,
    {
        let mut idx: usize = 0;
        loop
            invariant
                self.wf(),
                self@.vlc_walk(table@, idx as int) == old(self)@.vlc_walk(table@, 0),
            decreases table.len() - idx,
        {
            if idx >= table.len() || idx + 1 >= table.len() {
                return None;
            }
            let ghost before = self@;
            let bit: usize = self.read(1) as usize;
            proof {
                reveal_with_fuel(bits_val, 2);
                assert(bit <= 1) by {
                    if before.has(1) {
                        lemma_bit_range(before.buf, before.rbi);
                    }
                }
            }
            let entry: (i16, V) = table[idx + bit];
            if entry.0 == 0 {
                return Some(entry.1);
            }
            if entry.0 < 0 || (entry.0 as usize) <= idx || (entry.0 as usize) + 1 >= table.len() {
                return None;
            }
            idx = entry.0 as usize;
        }
    }

    /// Decodes one symbol of the prefix code that `table` describes.
    /// Returns `None` where the bits read are no code of the table.
    pub fn read_vlc(&mut self, table: &[(i16, i16)]) -> (r: Option<i16>)
        requires
            old(self).wf(),
        ensures
            final(self).wf(),
            r == old(self)@.vlc_walk(table@, 0).0,
            final(self)@ == old(self)@.vlc_walk(table@, 0).1,
    {
        self.walk(table)
    }

    /// As `read_vlc`, for a table whose symbols are unsigned.
    pub fn read_vlc_u16(&mut self, table: &[(i16, u16)]) -> (r: Option<u16>)
        requires
            old(self).wf(),
        ensures
            final(self).wf(),
            r == old(self)@.vlc_walk(table@, 0).0,
            final(self)@ == old(self)@.vlc_walk(table@, 0).1,
    {
        self.walk(table)
    }
}

/// Mathematical model of a cursor over a complete slice: the bytes and the
/// position in bits.
pub struct Cursor {
    pub buf: Seq<u8>,
    pub bi: int,
}

impl Cursor {
    pub open spec fn wf(self) -> bool {
        0 <= self.bi <= 8 * self.buf.len()
    }

    pub open spec fn has(self, n: int) -> bool {
        n <= 8 * self.buf.len() - self.bi
    }

    pub open spec fn peek(self, n: int) -> int {
        bits_val(self.buf, self.bi, n)
    }

    pub open spec fn advance(self, n: int) -> Cursor {
        Cursor { bi: self.bi + n, ..self }
    }

    /// The cursor after `n` bits were skipped, which stays where it is where
    /// fewer remain.
    pub open spec fn skip(self, n: int) -> Cursor {
        if self.has(n) {
            self.advance(n)
        } else {
            self
        }
    }
}

/// Bit reader over a slice of bytes that is complete from the start.
pub struct BitBuffer<'a> {
    _buf: &'a [u8],
    _bi: usize,
}

impl<'a> View for BitBuffer<'a> {
    type V = Cursor;

    closed spec fn view(&self) -> Cursor {
        Cursor { buf: self._buf@, bi: self._bi as int }
    }
}

impl<'a> BitBuffer<'a> {
    pub closed spec fn wf(&self) -> bool {
        &&& 8 * self._buf.len() + 8 <= usize::MAX
        &&& self@.wf()
    }

    /// Length of the slice in bytes.
    pub fn len(&self) -> (r: usize)
        ensures
            r == self@.buf.len(),
    {
        self._buf.len()
    }

    pub fn new(buf: &'a [u8]) -> (r: Self)
        requires
            8 * buf.len() + 8 <= usize::MAX,
        ensures
            r.wf(),
            r@.buf == buf@,
            r@.bi == 0,
    {
        BitBuffer::<'a> { _buf: buf, _bi: 0 }
    }

    /// Position of the cursor in bits.
    pub fn pos(&self) -> (r: usize)
        ensures
            r == self@.bi,
    {
        self._bi
    }

    pub fn has(&self, count: usize) -> (r: bool)
        requires
            self.wf(),
        ensures
            r == self@.has(count as int),
    {
        count <= self._buf.len() * 8 - self._bi
    }

    /// Moves `count` bits forward and returns `count`, or stays and returns 0
    /// where fewer bits remain.
    pub fn skip(&mut self, count: usize) -> (r: usize)
        requires
            old(self).wf(),
        ensures
            final(self).wf(),
            final(self)@ == old(self)@.skip(count as int),
            r == if old(self)@.has(count as int) {
                count
            } else {
                0
            },
    {
        if self.has(count) {
            self._bi = self._bi + count;
            return count;
        }
        0
    }

    /// Reads the next `count` bits, first bit most significant, and moves
    /// past them; `None`, with the cursor unmoved, where fewer bits remain.
    pub fn read(&mut self, count: usize) -> (r: Option<u32>)
        requires
            old(self).wf(),
            count <= 32,
        ensures
            final(self).wf(),
            final(self)@ == old(self)@.skip(count as int),
            r == if old(self)@.has(count as int) {
                Some(old(self)@.peek(count as int) as u32)
            } else {
                None
            },
            r is Some ==> r.unwrap() as int == old(self)@.peek(count as int),
    {
        if !self.has(count) {
            return None;
        }
        if count == 0 {
            return Some(0);
        }
        let value: u32 = read_bits(self._buf, self._bi, count);
        self._bi = self._bi + count;
        Some(value)
    }

    /// Moves `count` bits back and returns `count`, or stays and returns 0
    /// where the cursor is less than `count` bits from the start.
    pub fn back(&mut self, count: usize) -> (r: usize)
        requires
            old(self).wf(),
        ensures
            final(self).wf(),
            final(self)@.buf == old(self)@.buf,
            count <= old(self)@.bi ==> r == count && final(self)@.bi == old(self)@.bi - count,
            count > old(self)@.bi ==> r == 0 && final(self)@ == old(self)@,
    {
        if self._bi >= count {
            self._bi = self._bi - count;
            return count;
        }
        0
    }
}

} // verus!
