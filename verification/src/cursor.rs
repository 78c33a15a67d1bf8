//! A position-tracked reader over bytes that are already in memory.
//!
//! All integers are read little-endian, whatever the host's byte order.

use vstd::prelude::*;
use vstd::slice::slice_subrange;
use vstd::slice::slice_to_vec;

verus! {

/// Why a read from a [`MemReader`] failed.
#[derive(Clone, Copy, Debug, PartialEq, Eq, Structural)]
pub enum ReadError {
    /// Fewer bytes remain than the read consumes.
    OutOfBounds,
    /// No zero byte closes the fallback name.
    MissingTerminator,
    /// The fallback name alone is longer than the whole name field.
    NegativeRemainder,
}

/// The 16-bit little-endian integer stored at `at`.
pub open spec fn le16(bytes: Seq<u8>, at: int) -> int {
    bytes[at] + bytes[at + 1] * 0x100
}

/// The 32-bit little-endian integer stored at `at`.
pub open spec fn le32(bytes: Seq<u8>, at: int) -> int {
    bytes[at] + bytes[at + 1] * 0x100 + bytes[at + 2] * 0x1_0000 + bytes[at + 3] * 0x100_0000
}

/// The index of the first zero byte at or after `from`, or the length of
/// `bytes` where no zero byte follows.
pub open spec fn first_zero(bytes: Seq<u8>, from: int) -> int
    decreases bytes.len() - from,
{
    if from < 0 || from >= bytes.len() {
        bytes.len() as int
    } else if bytes[from] == 0 {
        from
    } else {
        first_zero(bytes, from + 1)
    }
}

/// The two parts of a name field of `total` bytes that starts at `from`: the
/// fallback name up to and including its zero terminator, and the encoded
/// name that fills the rest of the field.
pub open spec fn name_pair(bytes: Seq<u8>, from: int, total: int) -> Result<
    (Seq<u8>, Seq<u8>),
    ReadError,
> {
    let end = first_zero(bytes, from) + 1;
    if end > bytes.len() {
        Err(ReadError::MissingTerminator)
    } else if end - from > total {
        Err(ReadError::NegativeRemainder)
    } else if from + total > bytes.len() {
        Err(ReadError::OutOfBounds)
    } else {
        Ok((bytes.subrange(from, end), bytes.subrange(end, from + total)))
    }
}

/// `first_zero` is the least index from `from` on that holds a zero byte.
pub proof fn lemma_first_zero(bytes: Seq<u8>, from: int)
    requires
        0 <= from <= bytes.len(),
    ensures
        from <= first_zero(bytes, from) <= bytes.len(),
        first_zero(bytes, from) < bytes.len() ==> bytes[first_zero(bytes, from)] == 0,
        forall|j: int| from <= j < first_zero(bytes, from) ==> bytes[j] != 0,
    decreases bytes.len() - from,
{
    if from < bytes.len() && bytes[from] != 0 {
        lemma_first_zero(bytes, from + 1);
    }
}

/// An index that holds a zero byte, with none between `from` and it, is
/// `first_zero`.
pub proof fn lemma_first_zero_is(bytes: Seq<u8>, from: int, at: int)
    requires
        0 <= from <= at <= bytes.len(),
        at < bytes.len() ==> bytes[at] == 0,
        forall|j: int| from <= j < at ==> bytes[j] != 0,
    ensures
        first_zero(bytes, from) == at,
    decreases at - from,
{
    if from < at {
        lemma_first_zero_is(bytes, from + 1, at);
    }
}

/// A name field that ends with the terminator of its fallback name has an
/// empty encoded name.
pub proof fn lemma_exact_size_leaves_no_encoded_name(bytes: Seq<u8>, from: int)
    requires
        0 <= from <= bytes.len(),
        first_zero(bytes, from) < bytes.len(),
    ensures
        name_pair(bytes, from, first_zero(bytes, from) + 1 - from) == Ok::<
            (Seq<u8>, Seq<u8>),
            ReadError,
        >((bytes.subrange(from, first_zero(bytes, from) + 1), Seq::<u8>::empty())),
{
    lemma_first_zero(bytes, from);
    let end = first_zero(bytes, from) + 1;
    assert(bytes.subrange(end, end) =~= Seq::<u8>::empty());
}

/// An owned byte buffer with a read position.
pub struct MemReader {
    buffer: Vec<u8>,
    cursor: usize,
}

impl MemReader {
    /// The bytes of the buffer, consumed or not.
    pub closed spec fn bytes(&self) -> Seq<u8> {
        self.buffer@
    }

    /// The offset of the next byte to read.
    pub closed spec fn position(&self) -> int {
        self.cursor as int
    }

    /// The position never passes the end of the buffer.
    #[verifier::type_invariant]
    spec fn in_bounds(&self) -> bool {
        self.cursor <= self.buffer.len()
    }

    /// Whether `n` more bytes can be read.
    pub open spec fn has(&self, n: int) -> bool {
        self.position() + n <= self.bytes().len()
    }

    /// What a read of `n` bytes leaves behind: the same bytes, and the
    /// position moved by `n` where the read succeeded.
    pub open spec fn advanced(&self, before: MemReader, n: int, done: bool) -> bool {
        &&& self.bytes() == before.bytes()
        &&& self.position() == before.position() + if done {
            n
        } else {
            0
        }
    }

    /// A reader over `buffer`, positioned at its first byte.
    pub fn new(buffer: Vec<u8>) -> (reader: MemReader)
        ensures
            reader.bytes() == buffer@,
            reader.position() == 0,
    {
        MemReader { buffer, cursor: 0 }
    }

    /// The number of bytes not yet read.
    pub fn remaining(&self) -> (n: usize)
        ensures
            n == self.bytes().len() - self.position(),
            0 <= self.position() <= self.bytes().len(),
    {
        proof {
            use_type_invariant(self);
        }
        self.buffer.len() - self.cursor
    }

    /// Reads one byte.
    pub fn get1(&mut self) -> (r: Result<u8, ReadError>)
        ensures
            0 <= old(self).position() <= old(self).bytes().len(),
            final(self).advanced(*old(self), 1, r is Ok),
            match r {
                Ok(b) => old(self).has(1) && b == old(self).bytes()[old(self).position()],
                Err(e) => !old(self).has(1) && e == ReadError::OutOfBounds,
            },
    {
        proof {
            use_type_invariant(&*self);
        }
        if self.buffer.len() - self.cursor < 1 {
            return Err(ReadError::OutOfBounds);
        }
        let b = self.buffer[self.cursor];
        self.cursor += 1;
        Ok(b)
    }

    /// Reads a 16-bit little-endian integer.
    pub fn get2(&mut self) -> (r: Result<u16, ReadError>)
        ensures
            0 <= old(self).position() <= old(self).bytes().len(),
            final(self).advanced(*old(self), 2, r is Ok),
            match r {
                Ok(v) => old(self).has(2) && v == le16(old(self).bytes(), old(self).position()),
                Err(e) => !old(self).has(2) && e == ReadError::OutOfBounds,
            },
    {
        proof {
            use_type_invariant(&*self);
        }
        if self.buffer.len() - self.cursor < 2 {
            return Err(ReadError::OutOfBounds);
        }
        let b0 = self.buffer[self.cursor] as u16;
        let b1 = self.buffer[self.cursor + 1] as u16;
        self.cursor += 2;
        Ok(b0 + b1 * 0x100)
    }

    /// Reads a 32-bit little-endian integer.
    pub fn get4(&mut self) -> (r: Result<u32, ReadError>)
        ensures
            0 <= old(self).position() <= old(self).bytes().len(),
            final(self).advanced(*old(self), 4, r is Ok),
            match r {
                Ok(v) => old(self).has(4) && v == le32(old(self).bytes(), old(self).position()),
                Err(e) => !old(self).has(4) && e == ReadError::OutOfBounds,
            },
    {
        proof {
            use_type_invariant(&*self);
        }
        if self.buffer.len() - self.cursor < 4 {
            return Err(ReadError::OutOfBounds);
        }
        let b0 = self.buffer[self.cursor] as u32;
        let b1 = self.buffer[self.cursor + 1] as u32;
        let b2 = self.buffer[self.cursor + 2] as u32;
        let b3 = self.buffer[self.cursor + 3] as u32;
        self.cursor += 4;
        Ok(b0 + b1 * 0x100 + b2 * 0x1_0000 + b3 * 0x100_0000)
    }

    /// Splits a name field of `total_size` bytes into the fallback name, which
    /// runs up to and including the first zero byte, and the encoded name,
    /// which is the rest of the field. The position moves past the field; a
    /// failed split leaves it where it was.
    pub fn get_names(&mut self, total_size: usize) -> (r: Result<(Vec<u8>, Vec<u8>), ReadError>)
        ensures
            0 <= old(self).position() <= old(self).bytes().len(),
            final(self).advanced(*old(self), total_size as int, r is Ok),
            match (r, name_pair(old(self).bytes(), old(self).position(), total_size as int)) {
                (Ok((name, encoded)), Ok((n, e))) => name@ == n && encoded@ == e,
                (Err(e), Err(f)) => e == f,
                _ => false,
            },
    {
        proof {
            use_type_invariant(&*self);
        }
        let begin = self.cursor;
        let mut end = begin;
        while end < self.buffer.len() && self.buffer[end] != 0
            invariant
                begin <= end <= self.buffer.len(),
                forall|j: int| begin <= j < end ==> self.buffer@[j] != 0,
            decreases self.buffer.len() - end,
        {
            end += 1;
        }
        proof {
            lemma_first_zero_is(self.buffer@, begin as int, end as int);
        }
        if end >= self.buffer.len() {
            return Err(ReadError::MissingTerminator);
        }
        end += 1;
        if end - begin > total_size {
            return Err(ReadError::NegativeRemainder);
        }
        if total_size > self.buffer.len() - begin {
            return Err(ReadError::OutOfBounds);
        }
        let stop = begin + total_size;
        let name = slice_to_vec(slice_subrange(self.buffer.as_slice(), begin, end));
        let encoded = slice_to_vec(slice_subrange(self.buffer.as_slice(), end, stop));
        self.cursor = stop;
        Ok((name, encoded))
    }
}

} // verus!
