//! A byte buffer that keeps what was pushed at the front of its storage and
//! can drop a prefix of it.
use vstd::prelude::*;

verus! {

pub struct ByteBuffer {
    _buf: Vec<u8>,
    _len: usize,
}

impl View for ByteBuffer {
    type V = Seq<u8>;

    /// The bytes held, oldest first.
    closed spec fn view(&self) -> Seq<u8> {
        self._buf@.take(self._len as int)
    }
}

impl ByteBuffer {
    pub closed spec fn wf(&self) -> bool {
        self._len <= self._buf.len()
    }

    /// Number of bytes of storage.
    pub closed spec fn spec_capacity(&self) -> int {
        self._buf.len() as int
    }

    pub proof fn lemma_wf(&self)
        requires
            self.wf(),
        ensures
            self@.len() <= self.spec_capacity(),
    {
    }

    /// An empty buffer with `capacity` bytes of storage.
    pub fn new(capacity: usize) -> (r: Self)
        ensures
            r.wf(),
            r@ == Seq::<u8>::empty(),
            r.spec_capacity() == capacity,
    {
        let _buf: Vec<u8> = vec![0u8; capacity];
        let _len: usize = 0;
        ByteBuffer { _buf, _len }
    }

    pub fn len(&self) -> (r: usize)
        requires
            self.wf(),
        ensures
            r == self@.len(),
    {
        self._len
    }

    pub fn capacity(&self) -> (r: usize)
        ensures
            r == self.spec_capacity(),
    {
        self._buf.len()
    }

    /// Number of bytes that can be pushed before the storage grows.
    pub fn remain(&self) -> (r: usize)
        requires
            self.wf(),
        ensures
            r == self.spec_capacity() - self@.len(),
    {
        self._buf.len() - self._len
    }

    /// The bytes held from `offset` on.
    pub fn get<'a>(&'a self, offset: usize) -> (r: &'a [u8])
        requires
            self.wf(),
            offset <= self@.len(),
        ensures
            r@ == self@.skip(offset as int),
    {
        let r = vstd::slice::slice_subrange(self._buf.as_slice(), offset, self._len);
        assert(r@ =~= self@.skip(offset as int));
        r
    }

    /// Drops the first `offset` bytes held and moves the rest to the front.
    /// Nothing happens where `offset` is not less than the number held.
    pub fn rewind(&mut self, offset: usize)
        requires
            old(self).wf(),
        ensures
            final(self).wf(),
            final(self).spec_capacity() == old(self).spec_capacity(),
            offset < old(self)@.len() ==> final(self)@ == old(self)@.skip(offset as int),
            offset >= old(self)@.len() ==> final(self)@ == old(self)@,
    {
        if offset >= self._len {
            return ;
        }
        let count: usize = self._len - offset;
        let mut i: usize = 0;
        while i < count
            invariant
                offset + count == old(self)._len,
                self._len == old(self)._len,
                self._buf.len() == old(self)._buf.len(),
                self._len <= self._buf.len(),
                i <= count,
                forall|k: int| 0 <= k < i ==> self._buf@[k] == old(self)._buf@[k + offset],
                forall|k: int| i <= k < self._buf.len() ==> self._buf@[k] == old(self)._buf@[k],
            decreases count - i,
        {
            let b: u8 = self._buf[i + offset];
            self._buf[i] = b;
            i = i + 1;
        }
        self._len = count;
        assert(self@ =~= old(self)@.skip(offset as int));
    }

    /// Appends all of `data`; the storage grows where it is too small.
    pub fn push(&mut self, data: &[u8])
        requires
            old(self).wf(),
            old(self)@.len() + data.len() <= usize::MAX,
        ensures
            final(self).wf(),
            final(self)@ == old(self)@ + data@,
            final(self).spec_capacity() == if old(self)@.len() + data.len() <= old(
                self,
            ).spec_capacity() {
                old(self).spec_capacity()
            } else {
                old(self)@.len() + data.len()
            },
    {
        let len: usize = data.len();
        let mut copy_len: usize = self._buf.len() - self._len;
        if copy_len > len {
            copy_len = len;
        }
        let start: usize = self._len;
        let mut i: usize = 0;
        while i < copy_len
            invariant
                start == old(self)._len,
                self._len == start,
                self._buf.len() == old(self)._buf.len(),
                start + copy_len <= self._buf.len(),
                copy_len <= data.len(),
                i <= copy_len,
                self._buf@.take(start as int) == old(self)@,
                forall|k: int| 0 <= k < i ==> self._buf@[start + k] == data@[k],
            decreases copy_len - i,
        {
            let ghost prev = self._buf@;
            self._buf[start + i] = data[i];
            assert(self._buf@.take(start as int) =~= prev.take(start as int));
            i = i + 1;
        }
        self._len = self._len + copy_len;
        if len > copy_len {
            let rest = vstd::slice::slice_subrange(data, copy_len, len);
            self._buf.extend_from_slice(rest);
            self._len = self._buf.len();
        }
        assert(self@ =~= old(self)@ + data@);
    }
}

} // verus!
