//! What holds of the demultiplexer whatever it is fed: the order in which
//! elements are returned, what a shortfall promises, and that the elements
//! returned do not depend on how the stream was cut into pieces.
use vstd::prelude::*;
use crate::bits::{lemma_bits_val_bound, lemma_bits_val_prefix};
use crate::pkt::{
    code_at, find_code, find_code_from, lemma_find_code, lemma_packet_fits, length_field,
    next_packet, packet_type, timestamp, CodeClass, PESPacketInfo, PacketError, PacketType,
    PsModel,
};

verus! {

/// A start code that was found is found again, at the same place, after
/// bytes were appended.
pub proof fn lemma_find_code_stable(w: Seq<u8>, more: Seq<u8>, class: CodeClass, from: int)
    requires
        0 <= from,
        find_code_from(w, class, from) is Some,
    ensures
        find_code_from(w + more, class, from) == find_code_from(w, class, from),
    decreases w.len() - from,
{
    if from + 4 <= w.len() {
        assert((w + more)[from] == w[from]);
        assert((w + more)[from + 1] == w[from + 1]);
        assert((w + more)[from + 2] == w[from + 2]);
        assert((w + more)[from + 3] == w[from + 3]);
        if !code_at(w, class, from) {
            lemma_find_code_stable(w, more, class, from + 1);
        }
    }
}

/// Where an attempt says that `n` more bytes are missing, `n` being more
/// than 0, the attempt on the window with exactly `n` bytes appended decides
/// the element: it is returned, ending at the last byte, or it breaks the
/// format.
pub proof fn lemma_retry_after_more(class: CodeClass, w: Seq<u8>, more: Seq<u8>)
    requires
        w.len() + more.len() <= usize::MAX,
        more.len() > 0,
        next_packet(class, w) == Err::<PESPacketInfo, PacketError>(
            PacketError::OUT_LENGTH(more.len() as usize),
        ),
    ensures
        match next_packet(class, w + more) {
            Ok(p) => p.offset + p.len == w.len() + more.len(),
            Err(e) => e == PacketError::FORMAT_ERROR,
        },
{
    lemma_find_code(w, class, 0);
    lemma_find_code_stable(w, more, class, 0);
    let pos = find_code(w, class).unwrap().0 as int;
    let d = w.skip(pos);
    let e = (w + more).skip(pos);
    assert(e =~= d + more);
    lemma_bits_val_bound(d, 32, 16);
    if d.len() >= 6 {
        lemma_bits_val_prefix(d, more, 32, 16);
        assert(e[3] == d[3]);
    }
}

/// The bits of a time stamp that lies inside the bytes stay what they are
/// when bytes are appended.
proof fn lemma_timestamp_prefix(d: Seq<u8>, more: Seq<u8>, at: int)
    requires
        0 <= at,
        at + 35 <= 8 * d.len(),
    ensures
        timestamp(d + more, at) == timestamp(d, at),
{
    lemma_bits_val_prefix(d, more, at, 3);
    lemma_bits_val_prefix(d, more, at + 4, 15);
    lemma_bits_val_prefix(d, more, at + 20, 15);
}

/// An element that an attempt has decided, by returning it or by finding
/// that it breaks the format, is decided in the same way however many bytes
/// follow it: what `get` returns does not depend on how the stream was cut
/// into pieces.
pub proof fn lemma_decided_is_stable(class: CodeClass, w: Seq<u8>, more: Seq<u8>)
    requires
        w.len() <= usize::MAX,
        next_packet(class, w) is Ok || next_packet(class, w) == Err::<
            PESPacketInfo,
            PacketError,
        >(PacketError::FORMAT_ERROR),
    ensures
        next_packet(class, w + more) == next_packet(class, w),
{
    lemma_find_code(w, class, 0);
    lemma_find_code_stable(w, more, class, 0);
    let pos = find_code(w, class).unwrap().0 as int;
    let d = w.skip(pos);
    let e = (w + more).skip(pos);
    assert(e =~= d + more);
    lemma_bits_val_bound(d, 32, 16);
    match class {
        CodeClass::Pack => {
            lemma_bits_val_prefix(d, more, 32, 4);
            lemma_timestamp_prefix(d, more, 36);
            lemma_bits_val_prefix(d, more, 73, 22);
        },
        CodeClass::System => {
            lemma_bits_val_prefix(d, more, 32, 16);
            if length_field(d) >= 5 {
                lemma_bits_val_prefix(d, more, 72, 6);
                lemma_bits_val_prefix(d, more, 83, 5);
            }
        },
        _ => {
            lemma_bits_val_prefix(d, more, 32, 16);
            assert(e[3] == d[3]);
            if packet_type(d[3]) != PacketType::PES_SKIP {
                if length_field(d) == 0 {
                    lemma_find_code(d.skip(6), CodeClass::Any, 0);
                    lemma_find_code_stable(d.skip(6), more, CodeClass::Any, 0);
                    assert(e.skip(6) =~= d.skip(6) + more);
                }
                let total: int = if length_field(d) == 0 {
                    find_code(d.skip(6), CodeClass::Any).unwrap().0 + 6
                } else {
                    length_field(d) + 6
                };
                assert(e.take(total) =~= d.take(total));
            }
        },
    }
}

impl PsModel {
    /// A failed attempt keeps the window, so that bytes pushed after it
    /// extend what it saw.
    pub proof fn lemma_failure_keeps_window(self)
        requires
            self.wf(),
            self.got() is Err,
        ensures
            self.after_get().wf(),
            self.after_get().window() == self.window(),
            self.after_get().awaited() == self.awaited(),
            forall|bytes: Seq<u8>| #[trigger]
                self.after_get().append(bytes).window() == self.window() + bytes,
    {
        assert(self.compact().window() =~= self.window());
        assert forall|bytes: Seq<u8>| #[trigger]
            self.after_get().append(bytes).window() == self.window() + bytes by {
            assert(self.after_get().append(bytes).window() =~= self.window() + bytes);
        }
    }

    /// Where `get` says that `n` more bytes are missing, `n` being more than
    /// 0, pushing exactly `n` bytes and calling it again decides the
    /// element: it is returned, ending at the last byte buffered, or it
    /// breaks the format.
    pub proof fn lemma_out_of_length_retry(self, more: Seq<u8>)
        requires
            self.wf(),
            self.data.len() + more.len() <= usize::MAX,
            more.len() > 0,
            self.got() == Err::<PESPacketInfo, PacketError>(
                PacketError::OUT_LENGTH(more.len() as usize),
            ),
        ensures
            match self.after_get().append(more).got() {
                Ok(p) => p.offset + p.len == self.after_get().append(more).data.len(),
                Err(e) => e == PacketError::FORMAT_ERROR,
            },
    {
        self.lemma_failure_keeps_window();
        lemma_retry_after_more(self.awaited(), self.window(), more);
        let later = self.after_get().append(more);
        assert(later.window() == self.window() + more);
        lemma_packet_fits(later.awaited(), later.window());
    }

    /// `get` returns the system header only when the pack header was
    /// returned before, and a packet only when both were, unless the bytes
    /// came out of a transport stream; and it is by returning a header, and
    /// not otherwise, that `get` notes it as returned.
    pub proof fn lemma_headers_first(self)
        requires
            self.wf(),
        ensures
            match self.got() {
                Ok(p) => match p.pes_type {
                    PacketType::PS_PACK_HEADER => !self.has_pack_header && self.ts_pid == -1,
                    PacketType::PS_SYSTEM_HEADER => self.has_pack_header
                        && !self.has_system_header && self.ts_pid == -1,
                    _ => (self.has_pack_header && self.has_system_header) || self.ts_pid != -1,
                },
                Err(_) => true,
            },
            self.after_get().has_pack_header == (self.has_pack_header || (self.got() is Ok
                && self.got().unwrap().pes_type == PacketType::PS_PACK_HEADER)),
            self.after_get().has_system_header == (self.has_system_header || (self.got() is Ok
                && self.got().unwrap().pes_type == PacketType::PS_SYSTEM_HEADER)),
            forall|bytes: Seq<u8>| #[trigger]
                self.append(bytes).has_pack_header == self.has_pack_header && self.append(
                    bytes,
                ).has_system_header == self.has_system_header,
    {
        lemma_packet_fits(self.awaited(), self.window());
    }
}

/// One call on the demultiplexer: bytes pushed, or `get`.
pub enum PsCall {
    Push(Seq<u8>),
    Get,
}

impl PsModel {
    /// The model after one call.
    pub open spec fn call(self, c: PsCall) -> PsModel {
        match c {
            PsCall::Push(data) => self.pushed(data),
            PsCall::Get => self.after_get(),
        }
    }

    /// The model after the calls were made in turn.
    pub open spec fn run(self, calls: Seq<PsCall>) -> PsModel
        decreases calls.len(),
    {
        if calls.len() == 0 {
            self
        } else {
            self.call(calls[0]).run(calls.skip(1))
        }
    }

    /// One more call at the end is made on the model that the calls before
    /// it left.
    pub proof fn lemma_run_push(self, calls: Seq<PsCall>, c: PsCall)
        ensures
            self.run(calls.push(c)) == self.run(calls).call(c),
        decreases calls.len(),
    {
        if calls.len() == 0 {
            assert(calls.push(c).skip(1) =~= Seq::<PsCall>::empty());
            assert(self.call(c).run(calls.push(c).skip(1)) == self.call(c));
        } else {
            assert(calls.push(c).skip(1) =~= calls.skip(1).push(c));
            self.call(calls[0]).lemma_run_push(calls.skip(1), c);
        }
    }

    /// The kind of element that call `i` returned, where it was a `get`
    /// that returned one.
    pub open spec fn returned(self, calls: Seq<PsCall>, i: int) -> Option<PacketType> {
        match calls[i] {
            PsCall::Push(_) => None,
            PsCall::Get => match self.run(calls.take(i)).got() {
                Ok(p) => Some(p.pes_type),
                Err(_) => None,
            },
        }
    }

    /// A demultiplexer that has returned nothing yet and was never fed from
    /// a transport stream.
    pub open spec fn fresh(self) -> bool {
        &&& self.wf()
        &&& !self.has_pack_header
        &&& !self.has_system_header
        &&& self.ts_pid == -1
    }

    /// Whether a call before call `n` returned the pack header.
    pub open spec fn pack_returned(self, calls: Seq<PsCall>, n: int) -> bool {
        exists|j: int|
            0 <= j < n && #[trigger] self.returned(calls, j) == Some(PacketType::PS_PACK_HEADER)
    }

    /// Whether a call before call `n` returned the system header, and one
    /// before that the pack header.
    pub open spec fn both_returned(self, calls: Seq<PsCall>, n: int) -> bool {
        exists|k: int|
            0 <= k < n && #[trigger] self.returned(calls, k) == Some(
                PacketType::PS_SYSTEM_HEADER,
            ) && self.pack_returned(calls, k)
    }

    proof fn lemma_call_wf(self, c: PsCall)
        requires
            self.wf(),
            self.ts_pid == -1,
        ensures
            self.call(c).wf(),
            self.call(c).ts_pid == -1,
    {
        lemma_packet_fits(self.awaited(), self.window());
    }

    #[verifier::rlimit(40)]
    proof fn lemma_run(self, calls: Seq<PsCall>, n: int)
        requires
            self.fresh(),
            0 <= n <= calls.len(),
        ensures
            self.run(calls.take(n)).wf(),
            self.run(calls.take(n)).ts_pid == -1,
            self.run(calls.take(n)).has_pack_header ==> self.pack_returned(calls, n),
            self.run(calls.take(n)).has_system_header ==> self.both_returned(calls, n),
        decreases n,
    {
        if n > 0 {
            self.lemma_run(calls, n - 1);
            let before = self.run(calls.take(n - 1));
            assert(calls.take(n) =~= calls.take(n - 1).push(calls[n - 1]));
            self.lemma_run_push(calls.take(n - 1), calls[n - 1]);
            assert(self.run(calls.take(n)) == before.call(calls[n - 1]));
            before.lemma_call_wf(calls[n - 1]);
            before.lemma_headers_first();
            let after = before.call(calls[n - 1]);
            if after.has_pack_header {
                if before.has_pack_header {
                    let j = choose|j: int|
                        0 <= j < n - 1 && #[trigger] self.returned(calls, j) == Some(
                            PacketType::PS_PACK_HEADER,
                        );
                    assert(self.returned(calls, j) == Some(PacketType::PS_PACK_HEADER));
                } else {
                    assert(self.returned(calls, n - 1) == Some(PacketType::PS_PACK_HEADER));
                }
            }
            if after.has_system_header {
                if before.has_system_header {
                    let k = choose|k: int|
                        0 <= k < n - 1 && #[trigger] self.returned(calls, k) == Some(
                            PacketType::PS_SYSTEM_HEADER,
                        ) && self.pack_returned(calls, k);
                    assert(self.returned(calls, k) == Some(PacketType::PS_SYSTEM_HEADER));
                } else {
                    assert(self.returned(calls, n - 1) == Some(PacketType::PS_SYSTEM_HEADER));
                    assert(self.pack_returned(calls, n - 1));
                }
            }
        } else {
            assert(calls.take(0) =~= Seq::<PsCall>::empty());
        }
    }

    /// Whatever is pushed, and in whatever pieces: a demultiplexer that
    /// starts fresh returns the system header only behind the pack header,
    /// and a packet only behind both.
    pub proof fn lemma_headers_before_packets(self, calls: Seq<PsCall>, i: int)
        requires
            self.fresh(),
            0 <= i < calls.len(),
            self.returned(calls, i) is Some,
        ensures
            self.returned(calls, i) != Some(PacketType::PS_PACK_HEADER) ==> self.pack_returned(
                calls,
                i,
            ),
            self.returned(calls, i) != Some(PacketType::PS_PACK_HEADER) && self.returned(calls, i)
                != Some(PacketType::PS_SYSTEM_HEADER) ==> self.both_returned(calls, i),
    {
        self.lemma_run(calls, i);
        self.run(calls.take(i)).lemma_headers_first();
    }
}

/// The class of start code that a demultiplexer outside a transport stream
/// awaits.
pub open spec fn awaited_class(has_pack_header: bool, has_system_header: bool) -> CodeClass {
    if !has_pack_header {
        CodeClass::Pack
    } else if !has_system_header {
        CodeClass::System
    } else {
        CodeClass::Packet
    }
}

/// An element of a stream: where in the stream it starts, and what `get`
/// says of it apart from its place.
pub struct Element {
    pub place: int,
    pub info: PESPacketInfo,
}

/// The element `p`, found in a window that starts at `at` in the stream.
pub open spec fn element_at(at: int, p: PESPacketInfo) -> Element {
    Element { place: at + p.offset, info: PESPacketInfo { offset: 0, ..p } }
}

/// The elements of the stream `s`, which starts at place `at`, up to the
/// first that is not complete or breaks the format.
pub open spec fn elements(
    has_pack_header: bool,
    has_system_header: bool,
    s: Seq<u8>,
    at: int,
) -> Seq<Element>
    decreases s.len(),
{
    match next_packet(awaited_class(has_pack_header, has_system_header), s) {
        Ok(p) => if 0 < p.offset + p.len <= s.len() {
            seq![element_at(at, p)] + elements(
                has_pack_header || p.pes_type == PacketType::PS_PACK_HEADER,
                has_system_header || p.pes_type == PacketType::PS_SYSTEM_HEADER,
                s.skip(p.offset + p.len),
                at + p.offset + p.len,
            )
        } else {
            Seq::empty()
        },
        Err(_) => Seq::empty(),
    }
}

impl PsModel {
    /// The bytes that the pushes among the calls appended, in turn.
    pub open spec fn fed(self, calls: Seq<PsCall>) -> Seq<u8>
        decreases calls.len(),
    {
        if calls.len() == 0 {
            Seq::empty()
        } else {
            match calls[0] {
                PsCall::Push(data) => self.pushed(data).data.skip(self.data.len() as int)
                    + self.call(calls[0]).fed(calls.skip(1)),
                PsCall::Get => self.call(calls[0]).fed(calls.skip(1)),
            }
        }
    }

    /// How many bytes of the stream the elements take that the calls
    /// returned, with what lies between them.
    pub open spec fn passed(self, calls: Seq<PsCall>) -> int
        decreases calls.len(),
    {
        if calls.len() == 0 {
            0
        } else {
            match calls[0] {
                PsCall::Push(_) => self.call(calls[0]).passed(calls.skip(1)),
                PsCall::Get => match self.attempt() {
                    Ok(p) => p.offset + p.len + self.call(calls[0]).passed(calls.skip(1)),
                    Err(_) => self.call(calls[0]).passed(calls.skip(1)),
                },
            }
        }
    }

    /// The elements that the calls returned, in turn, where the window
    /// starts at place `at` in the stream.
    pub open spec fn outputs(self, calls: Seq<PsCall>, at: int) -> Seq<Element>
        decreases calls.len(),
    {
        if calls.len() == 0 {
            Seq::empty()
        } else {
            match calls[0] {
                PsCall::Push(_) => self.call(calls[0]).outputs(calls.skip(1), at),
                PsCall::Get => match self.attempt() {
                    Ok(p) => seq![element_at(at, p)] + self.call(calls[0]).outputs(
                        calls.skip(1),
                        at + p.offset + p.len,
                    ),
                    Err(_) => self.call(calls[0]).outputs(calls.skip(1), at),
                },
            }
        }
    }

    /// What a `get` that returns an element does to the window and to the
    /// flags.
    proof fn lemma_get_ok(self)
        requires
            self.wf(),
            self.ts_pid == -1,
            self.attempt() is Ok,
        ensures
            self.after_get().wf(),
            self.after_get().ts_pid == -1,
            0 < self.attempt().unwrap().offset + self.attempt().unwrap().len
                <= self.window().len(),
            self.window().len() <= usize::MAX,
            self.after_get().window() == self.window().skip(
                self.attempt().unwrap().offset + self.attempt().unwrap().len,
            ),
            self.after_get().has_pack_header == (self.has_pack_header
                || self.attempt().unwrap().pes_type == PacketType::PS_PACK_HEADER),
            self.after_get().has_system_header == (self.has_system_header
                || self.attempt().unwrap().pes_type == PacketType::PS_SYSTEM_HEADER),
            self.attempt() == next_packet(
                awaited_class(self.has_pack_header, self.has_system_header),
                self.window(),
            ),
    {
        lemma_packet_fits(self.awaited(), self.window());
        self.lemma_headers_first();
        let k = self.attempt().unwrap().offset + self.attempt().unwrap().len;
        assert(self.after_get().window() =~= self.window().skip(k));
    }

    /// What a `get` that returns no element, and a push, do to the window
    /// and to the flags.
    proof fn lemma_other_calls(self, c: PsCall)
        requires
            self.wf(),
            self.ts_pid == -1,
            c is Get ==> self.attempt() is Err,
        ensures
            self.call(c).wf(),
            self.call(c).ts_pid == -1,
            self.call(c).has_pack_header == self.has_pack_header,
            self.call(c).has_system_header == self.has_system_header,
            self.call(c).window() == self.window() + match c {
                PsCall::Push(data) => self.pushed(data).data.skip(self.data.len() as int),
                PsCall::Get => Seq::empty(),
            },
    {
        self.lemma_call_wf(c);
        match c {
            PsCall::Push(data) => {
                let taken = self.pushed(data).data.skip(self.data.len() as int);
                assert(self.call(c).window() =~= self.window() + taken);
            },
            PsCall::Get => {
                self.lemma_failure_keeps_window();
                assert(self.window() + Seq::<u8>::empty() =~= self.window());
            },
        }
    }

    /// However the stream is cut into pieces, and whenever `get` is called
    /// between them: what the calls return are the first elements of the
    /// stream, in their order, each as complete as the whole stream has it.
    /// The stream is what was buffered and not parsed at the start, and
    /// what the pushes appended; its elements are those that the calls
    /// returned, and then those of what is left in the window at the end.
    #[verifier::spinoff_prover]
    #[verifier::rlimit(40)]
    pub proof fn lemma_elements_whatever_the_pieces(self, calls: Seq<PsCall>, at: int)
        requires
            self.wf(),
            self.ts_pid == -1,
        ensures
            self.run(calls).wf(),
            elements(
                self.has_pack_header,
                self.has_system_header,
                self.window() + self.fed(calls),
                at,
            ) == self.outputs(calls, at) + elements(
                self.run(calls).has_pack_header,
                self.run(calls).has_system_header,
                self.run(calls).window(),
                at + self.passed(calls),
            ),
        decreases calls.len(),
    {
        let all = elements(
            self.has_pack_header,
            self.has_system_header,
            self.window() + self.fed(calls),
            at,
        );
        if calls.len() == 0 {
            assert(self.window() + self.fed(calls) =~= self.window());
            assert(self.outputs(calls, at) + all =~= all);
        } else {
            let next = self.call(calls[0]);
            let rest = calls.skip(1);
            let later = next.fed(rest);
            let w = self.window();
            if calls[0] is Get && self.attempt() is Ok {
                let p = self.attempt().unwrap();
                let k = p.offset + p.len;
                self.lemma_get_ok();
                lemma_decided_is_stable(
                    awaited_class(self.has_pack_header, self.has_system_header),
                    w,
                    later,
                );
                assert((w + later).skip(k) =~= next.window() + later);
                assert(self.fed(calls) == later);
                next.lemma_elements_whatever_the_pieces(rest, at + k);
                let tail = elements(
                    next.run(rest).has_pack_header,
                    next.run(rest).has_system_header,
                    next.run(rest).window(),
                    at + k + next.passed(rest),
                );
                assert(seq![element_at(at, p)] + (next.outputs(rest, at + k) + tail) =~= (
                seq![element_at(at, p)] + next.outputs(rest, at + k)) + tail);
            } else {
                self.lemma_other_calls(calls[0]);
                let taken = match calls[0] {
                    PsCall::Push(data) => self.pushed(data).data.skip(self.data.len() as int),
                    PsCall::Get => Seq::empty(),
                };
                assert(self.fed(calls) =~= taken + later);
                assert(w + self.fed(calls) =~= next.window() + later);
                next.lemma_elements_whatever_the_pieces(rest, at);
            }
        }
    }
}

} // verus!
