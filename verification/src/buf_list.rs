//! `BufList`: an append-only list of non-empty byte chunks, and `Cursor`,
//! which reads the list as one contiguous buffer.

use vstd::prelude::*;

use crate::chunk::{bytes_as_slice, bytes_clone, bytes_contents};

verus! {

/// The concatenation of a sequence of chunks.
pub open spec fn flatten(chunks: Seq<Seq<u8>>) -> Seq<u8>
    decreases chunks.len(),
{
    if chunks.len() == 0 {
        Seq::empty()
    } else {
        flatten(chunks.drop_last()) + chunks.last()
    }
}

/// Appending a chunk appends its bytes to the concatenation.
pub proof fn lemma_flatten_push(chunks: Seq<Seq<u8>>, c: Seq<u8>)
    ensures
        flatten(chunks.push(c)) == flatten(chunks) + c,
{
    assert(chunks.push(c).drop_last() =~= chunks);
}

/// Concatenation distributes over appending sequences of chunks.
pub proof fn lemma_flatten_concat(a: Seq<Seq<u8>>, b: Seq<Seq<u8>>)
    ensures
        flatten(a + b) == flatten(a) + flatten(b),
    decreases b.len(),
{
    if b.len() == 0 {
        assert(a + b =~= a);
        assert(flatten(a) + flatten(b) =~= flatten(a));
    } else {
        lemma_flatten_concat(a, b.drop_last());
        assert((a + b).drop_last() =~= a + b.drop_last());
        assert((a + b).last() == b.last());
        assert(flatten(a) + flatten(b.drop_last()) + b.last() =~= flatten(a) + (flatten(
            b.drop_last(),
        ) + b.last()));
    }
}

/// Byte `j` of chunk `c` sits in the concatenation right after the bytes of
/// the chunks before `c`.
pub proof fn lemma_flatten_index(chunks: Seq<Seq<u8>>, c: int, j: int)
    requires
        0 <= c < chunks.len(),
        0 <= j < chunks[c].len(),
    ensures
        flatten(chunks.take(c)).len() + j < flatten(chunks).len(),
        flatten(chunks)[flatten(chunks.take(c)).len() + j] == chunks[c][j],
{
    let front = chunks.take(c);
    let back = chunks.skip(c + 1);
    assert(chunks =~= front.push(chunks[c]) + back);
    lemma_flatten_concat(front.push(chunks[c]), back);
    lemma_flatten_push(front, chunks[c]);
}

/// The number of bytes in the first `c + 1` chunks.
pub proof fn lemma_flatten_take_step(chunks: Seq<Seq<u8>>, c: int)
    requires
        0 <= c < chunks.len(),
    ensures
        flatten(chunks.take(c + 1)).len() == flatten(chunks.take(c)).len() + chunks[c].len(),
{
    assert(chunks.take(c + 1) =~= chunks.take(c).push(chunks[c]));
    lemma_flatten_push(chunks.take(c), chunks[c]);
}

/// The chunks that hold any bytes, in order.
pub open spec fn non_empty_chunks(chunks: Seq<Seq<u8>>) -> Seq<Seq<u8>> {
    chunks.filter(|c: Seq<u8>| c.len() > 0)
}

/// Appending a chunk appends it to the non-empty chunks unless it is empty.
pub proof fn lemma_non_empty_chunks_push(chunks: Seq<Seq<u8>>, c: Seq<u8>)
    ensures
        non_empty_chunks(chunks.push(c)) == if c.len() > 0 {
            non_empty_chunks(chunks).push(c)
        } else {
            non_empty_chunks(chunks)
        },
{
    reveal_with_fuel(Seq::<_>::filter, 1);
    assert(chunks.push(c).drop_last() =~= chunks);
}

/// Dropping the empty chunks leaves the concatenation unchanged.
pub proof fn lemma_flatten_non_empty(chunks: Seq<Seq<u8>>)
    ensures
        flatten(non_empty_chunks(chunks)) == flatten(chunks),
    decreases chunks.len(),
{
    if chunks.len() == 0 {
        reveal_with_fuel(Seq::<_>::filter, 1);
    } else {
        let front = chunks.drop_last();
        let c = chunks.last();
        assert(chunks =~= front.push(c));
        lemma_flatten_non_empty(front);
        lemma_non_empty_chunks_push(front, c);
        lemma_flatten_push(front, c);
        if c.len() > 0 {
            lemma_flatten_push(non_empty_chunks(front), c);
        } else {
            assert(flatten(front) + c =~= flatten(front));
        }
    }
}

/// Sequences of chunks that differ only in empty chunks have the same
/// concatenation.
pub proof fn lemma_empty_chunks_do_not_matter(a: Seq<Seq<u8>>, b: Seq<Seq<u8>>)
    requires
        non_empty_chunks(a) == non_empty_chunks(b),
    ensures
        flatten(a) == flatten(b),
{
    lemma_flatten_non_empty(a);
    lemma_flatten_non_empty(b);
}

/// Errors that reading from a buffer can end in.
#[derive(Debug, Clone, Copy, PartialEq, Eq, Structural)]
pub enum ErrorKind {
    /// The buffer ended before the read could be completed.
    UnexpectedEof,
    /// Any other error.
    Other,
}

/// A list of byte chunks, read as the concatenation of its chunks.
pub struct BufList {
    bufs: Vec<bytes::Bytes>,
    /// `start_pos[i]` is the offset of chunk `i` in the concatenation; the
    /// last entry is the total number of bytes.
    start_pos: Vec<u64>,
}

impl View for BufList {
    type V = Seq<Seq<u8>>;

    /// The chunks of the list, in order.
    closed spec fn view(&self) -> Seq<Seq<u8>> {
        self.bufs@.map_values(|b: bytes::Bytes| bytes_contents(b))
    }
}

impl BufList {
    /// All the bytes of the list, chunk after chunk.
    pub open spec fn bytes(&self) -> Seq<u8> {
        flatten(self@)
    }

    /// The list's invariant: the offsets match the chunks, no chunk is empty,
    /// and the total fits in a `usize`.
    #[verifier::type_invariant]
    spec fn wf(&self) -> bool {
        &&& self.start_pos@.len() == self.bufs@.len() + 1
        &&& forall|i: int|
            0 <= i <= self.bufs@.len() ==> #[trigger] self.start_pos@[i] == flatten(
                self@.take(i),
            ).len()
        &&& forall|i: int| 0 <= i < self@.len() ==> #[trigger] self@[i].len() > 0
        &&& flatten(self@).len() <= usize::MAX
    }

    /// Creates an empty list.
    pub fn new() -> (list: Self)
        ensures
            list@ == Seq::<Seq<u8>>::empty(),
            list.bytes() == Seq::<u8>::empty(),
    {
        let mut start_pos: Vec<u64> = Vec::new();
        start_pos.push(0);
        let bufs: Vec<bytes::Bytes> = Vec::new();
        proof {
            let chunks = bufs@.map_values(|b: bytes::Bytes| bytes_contents(b));
            assert(chunks =~= Seq::<Seq<u8>>::empty());
            assert(chunks.take(0) =~= Seq::<Seq<u8>>::empty());
        }
        BufList { bufs, start_pos }
    }

    /// The number of chunks in the list.
    pub fn num_chunks(&self) -> (n: usize)
        ensures
            n == self@.len(),
    {
        self.bufs.len()
    }

    /// The total number of bytes in the list.
    pub fn num_bytes(&self) -> (n: usize)
        ensures
            n == self.bytes().len(),
    {
        proof {
            use_type_invariant(self);
            assert(self@.take(self@.len() as int) =~= self@);
        }
        self.start_pos[self.bufs.len()] as usize
    }

    /// Appends `data` as a new chunk, unless it is empty, and returns a
    /// handle to the same bytes.
    pub fn push_chunk(&mut self, data: bytes::Bytes) -> (pushed: bytes::Bytes)
        requires
            old(self).bytes().len() + bytes_contents(data).len() <= usize::MAX,
        ensures
            bytes_contents(pushed) == bytes_contents(data),
            final(self)@ == if bytes_contents(data).len() == 0 {
                old(self)@
            } else {
                old(self)@.push(bytes_contents(data))
            },
            final(self).bytes() == old(self).bytes() + bytes_contents(data),
    {
        proof {
            use_type_invariant(&*self);
        }
        let pushed = bytes_clone(&data);
        let len: usize = bytes_as_slice(&data).len();
        if len == 0 {
            assert(old(self).bytes() + bytes_contents(data) =~= old(self).bytes());
            return pushed;
        }
        let ghost old_chunks = self@;
        let ghost c = bytes_contents(data);
        proof {
            assert(old_chunks.take(old_chunks.len() as int) =~= old_chunks);
            lemma_flatten_push(old_chunks, c);
        }
        let mut list = BufList::new();
        std::mem::swap(self, &mut list);
        let BufList { mut bufs, mut start_pos } = list;
        let n: usize = bufs.len();
        let last: u64 = start_pos[n];
        start_pos.push(last + len as u64);
        bufs.push(data);
        proof {
            let chunks = bufs@.map_values(|b: bytes::Bytes| bytes_contents(b));
            assert(chunks =~= old_chunks.push(c));
            assert forall|i: int| 0 <= i <= bufs@.len() implies #[trigger] start_pos@[i]
                == flatten(chunks.take(i)).len() by {
                if i <= n {
                    assert(chunks.take(i) =~= old_chunks.take(i));
                } else {
                    assert(chunks.take(i) =~= old_chunks.push(c));
                }
            }
            assert forall|i: int| 0 <= i < chunks.len() implies #[trigger] chunks[i].len() > 0 by {
                if i < n {
                    assert(chunks[i] == old_chunks[i]);
                }
            }
        }
        *self = BufList { bufs, start_pos };
        pushed
    }

    /// Chunk `c` starts at offset `start_pos[c]`, its byte `j` is byte
    /// `start_pos[c] + j` of the list, and the next chunk starts right after it.
    proof fn lemma_chunk_bytes(&self, c: int)
        requires
            self.wf(),
            0 <= c < self@.len(),
        ensures
            self.start_pos@[c + 1] == self.start_pos@[c] + self@[c].len(),
            self.start_pos@[c + 1] <= self.bytes().len(),
            forall|j: int|
                0 <= j < self@[c].len() ==> self.bytes()[self.start_pos@[c] + j]
                    == #[trigger] self@[c][j],
    {
        lemma_flatten_take_step(self@, c);
        assert forall|j: int| 0 <= j < self@[c].len() implies self.bytes()[self.start_pos@[c] + j]
            == #[trigger] self@[c][j] by {
            lemma_flatten_index(self@, c, j);
        }
        let last: int = self@.len() as int;
        assert(self@.take(last) =~= self@);
        assert(self@ =~= self@.take(c + 1) + self@.skip(c + 1));
        lemma_flatten_concat(self@.take(c + 1), self@.skip(c + 1));
    }

    /// The last offset is the total number of bytes.
    proof fn lemma_total(&self)
        requires
            self.wf(),
        ensures
            self.start_pos@[self@.len() as int] == self.bytes().len(),
    {
        assert(self@.take(self@.len() as int) =~= self@);
    }

    /// `chunk` is the index of the chunk that holds byte `pos`, or the number
    /// of chunks where `pos` is at or past the end.
    spec fn chunk_holds(&self, chunk: usize, pos: u64) -> bool {
        let n: nat = self.bufs@.len();
        if pos >= self.start_pos@[n as int] {
            chunk == n
        } else {
            &&& chunk < n
            &&& self.start_pos@[chunk as int] <= pos < self.start_pos@[chunk + 1]
        }
    }

    /// Finds the chunk that holds byte `pos`, by binary search over the
    /// chunk offsets.
    fn find_chunk(&self, pos: u64) -> (chunk: usize)
        requires
            self.wf(),
        ensures
            self.chunk_holds(chunk, pos),
    {
        let n: usize = self.bufs.len();
        if pos >= self.start_pos[n] {
            return n;
        }
        let mut lo: usize = 0;
        let mut hi: usize = n;
        while hi - lo > 1
            invariant
                self.wf(),
                n == self.bufs@.len(),
                lo < hi <= n,
                self.start_pos@[lo as int] <= pos < self.start_pos@[hi as int],
            decreases hi - lo,
        {
            let mid: usize = lo + (hi - lo) / 2;
            if self.start_pos[mid] <= pos {
                lo = mid;
            } else {
                hi = mid;
            }
        }
        lo
    }
}

/// A read position in a `BufList`, which reads the list's bytes as one
/// contiguous buffer. The position may lie past the end of the list.
pub struct Cursor<'a> {
    inner: &'a BufList,
    chunk: usize,
    pos: u64,
}

/// The number of bytes from `pos` to the end of a buffer of `len` bytes:
/// none where `pos` is at or past the end.
pub open spec fn remaining_from(len: nat, pos: u64) -> nat {
    if pos >= len {
        0
    } else {
        (len - pos) as nat
    }
}

impl<'a> Cursor<'a> {
    /// The list that the cursor reads.
    pub closed spec fn list(&self) -> BufList {
        *self.inner
    }

    /// The cursor's position, in bytes from the start of the list.
    pub closed spec fn pos(&self) -> u64 {
        self.pos
    }

    /// The cursor's invariant: the list is well formed and the cached chunk
    /// index is the chunk that holds the position.
    #[verifier::type_invariant]
    spec fn wf(&self) -> bool {
        &&& self.inner.wf()
        &&& self.inner.chunk_holds(self.chunk, self.pos)
    }

    /// Creates a cursor at the start of `inner`.
    pub fn new(inner: &'a BufList) -> (cursor: Self)
        ensures
            cursor.list() == *inner,
            cursor.pos() == 0,
    {
        proof {
            use_type_invariant(inner);
            if inner@.len() > 0 {
                inner.lemma_chunk_bytes(0);
            }
        }
        Cursor { inner, chunk: 0, pos: 0 }
    }

    /// The current position.
    pub fn position(&self) -> (pos: u64)
        ensures
            pos == self.pos(),
    {
        self.pos
    }

    /// Moves the cursor to `pos`, which may lie past the end of the list.
    pub fn set_position(&mut self, pos: u64)
        ensures
            final(self).list() == old(self).list(),
            final(self).pos() == pos,
    {
        let inner = self.inner;
        proof {
            use_type_invariant(inner);
        }
        let chunk: usize = inner.find_chunk(pos);
        *self = Cursor { inner, chunk, pos };
    }

    /// Copies bytes from the position on into `buf` until `buf` is full or
    /// the list ends, moves the position past them and returns their number.
    fn read_impl(&mut self, buf: &mut [u8]) -> (n: usize)
        ensures
            final(self).list() == old(self).list(),
            n == if old(buf)@.len() <= remaining_from(old(self).list().bytes().len(), old(self).pos()) {
                old(buf)@.len()
            } else {
                remaining_from(old(self).list().bytes().len(), old(self).pos())
            },
            final(self).pos() == old(self).pos() + n,
            final(buf)@.len() == old(buf)@.len(),
            forall|i: int|
                0 <= i < n ==> #[trigger] final(buf)@[i] == old(self).list().bytes()[old(self).pos()
                    + i],
            forall|i: int| n <= i < old(buf)@.len() ==> #[trigger] final(buf)@[i] == old(buf)@[i],
    {
        proof {
            use_type_invariant(&*self);
        }
        let inner = self.inner;
        let mut chunk: usize = self.chunk;
        let mut pos: u64 = self.pos;
        let ghost bytes = inner.bytes();
        let ghost pos0: u64 = pos;
        let ghost buf0 = buf@;
        let n: usize = inner.bufs.len();
        let buf_len: usize = buf.len();
        let mut copied: usize = 0;
        proof {
            inner.lemma_total();
        }
        while copied < buf_len && chunk < n
            invariant
                inner.wf(),
                inner.chunk_holds(chunk, pos),
                bytes == inner.bytes(),
                n == inner.bufs@.len(),
                buf_len == buf@.len(),
                buf_len == buf0.len(),
                copied <= buf_len,
                pos == pos0 + copied,
                copied > 0 ==> pos0 < bytes.len(),
                pos <= bytes.len() || copied == 0,
                forall|i: int| 0 <= i < copied ==> #[trigger] buf@[i] == bytes[pos0 + i],
                forall|i: int| copied <= i < buf_len ==> #[trigger] buf@[i] == buf0[i],
            decreases buf_len - copied,
        {
            let c: usize = chunk;
            proof {
                inner.lemma_chunk_bytes(c as int);
                inner.lemma_total();
            }
            let data = bytes_as_slice(&inner.bufs[c]);
            let start: u64 = inner.start_pos[c];
            let offset: usize = (pos - start) as usize;
            let avail: usize = data.len() - offset;
            let want: usize = buf_len - copied;
            let take: usize = if avail <= want {
                avail
            } else {
                want
            };
            let mut k: usize = 0;
            while k < take
                invariant
                    inner.wf(),
                    bytes == inner.bytes(),
                    c < n,
                    n == inner.bufs@.len(),
                    data@ == inner@[c as int],
                    start == inner.start_pos@[c as int],
                    pos == pos0 + copied,
                    pos == start + offset,
                    offset + take <= data.len(),
                    copied + take <= buf_len,
                    buf_len == buf@.len(),
                    k <= take,
                    forall|j: int|
                        0 <= j < data@.len() ==> bytes[start + j] == #[trigger] data@[j],
                    forall|i: int| 0 <= i < copied + k ==> #[trigger] buf@[i] == bytes[pos0 + i],
                    forall|i: int| copied + k <= i < buf_len ==> #[trigger] buf@[i] == buf0[i],
                decreases take - k,
            {
                buf[copied + k] = data[offset + k];
                proof {
                    assert(bytes[start + (offset + k)] == data@[offset + k]);
                }
                k += 1;
            }
            copied = copied + take;
            pos = pos + take as u64;
            if take == avail {
                chunk = c + 1;
            }
            proof {
                assert(pos <= inner.start_pos@[c + 1]);
                if take == avail && c + 1 < n {
                    inner.lemma_chunk_bytes(c + 1);
                }
            }
        }
        proof {
            inner.lemma_total();
        }
        *self = Cursor { inner, chunk, pos };
        copied
    }

    /// Fills all of `buf` from the position on and moves the position past
    /// the bytes read. Where fewer bytes than `buf` holds remain, fails with
    /// `ErrorKind::UnexpectedEof`, leaves `buf` as it was and moves the
    /// position to the end of the list, as `std::io::Cursor` does.
    pub fn read_exact(&mut self, buf: &mut [u8]) -> (r: Result<(), ErrorKind>)
        ensures
            final(self).list() == old(self).list(),
            final(buf)@.len() == old(buf)@.len(),
            ({
                let total: nat = old(self).list().bytes().len();
                let pos0: u64 = old(self).pos();
                if old(buf)@.len() > remaining_from(total, pos0) {
                    &&& r == Err::<(), ErrorKind>(ErrorKind::UnexpectedEof)
                    &&& final(self).pos() == total
                    &&& final(buf)@ == old(buf)@
                } else {
                    &&& r == Ok::<(), ErrorKind>(())
                    &&& final(self).pos() == pos0 + old(buf)@.len()
                    &&& forall|i: int|
                        0 <= i < old(buf)@.len() ==> #[trigger] final(buf)@[i]
                            == old(self).list().bytes()[pos0 + i]
                }
            }),
    {
        proof {
            use_type_invariant(&*self);
            self.inner.lemma_total();
        }
        let n: usize = self.inner.bufs.len();
        let total: u64 = self.inner.start_pos[n];
        let remaining: u64 = if self.pos >= total {
            0
        } else {
            total - self.pos
        };
        if remaining < buf.len() as u64 {
            self.set_position(total);
            return Err(ErrorKind::UnexpectedEof);
        }
        self.read_impl(buf);
        Ok(())
    }
}

} // verus!
