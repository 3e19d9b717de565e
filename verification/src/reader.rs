//! Bounds-checked little-endian reads from a byte buffer.
use crate::error::ParseError;
use vstd::prelude::*;

verus! {

/// Are there `len` bytes at `offset`?
pub open spec fn fits(data: Seq<u8>, offset: int, len: int) -> bool {
    0 <= offset && offset + len <= data.len()
}

/// The little-endian number in the `len` bytes at `offset`.
pub open spec fn le(data: Seq<u8>, offset: int, len: int) -> int
    decreases len,
{
    if len <= 0 {
        0
    } else {
        data[offset] + 256 * le(data, offset + 1, len - 1)
    }
}

/// The number in the `len` bytes at `offset`, where the buffer has them.
pub open spec fn read(data: Seq<u8>, offset: int, len: int) -> Option<int> {
    if fits(data, offset, len) {
        Some(le(data, offset, len))
    } else {
        None
    }
}

/// The number in the `len` bytes at `offset`; zero where the buffer ends short
/// of them.
pub open spec fn read_or_zero(data: Seq<u8>, offset: int, len: int) -> int {
    if fits(data, offset, len) {
        le(data, offset, len)
    } else {
        0
    }
}

/// Is the flag set? `bit` is a power of two.
pub open spec fn flag(n: int, bit: int) -> bool {
    (n / bit) % 2 == 1
}

pub fn has_flag(n: u64, bit: u64) -> (r: bool)
    requires
        bit > 0,
    ensures
        r == flag(n as int, bit as int),
{
    (n / bit) % 2 == 1
}

/// An offset as the machine can hold it: one too great for a `usize` becomes
/// the greatest `usize`, at which no buffer has a byte.
pub open spec fn clamp(offset: int) -> usize {
    if offset > usize::MAX {
        usize::MAX
    } else {
        offset as usize
    }
}

/// The error of a read of `len` bytes at `offset` that the buffer cannot serve.
pub open spec fn too_short(data: Seq<u8>, offset: int, len: int) -> ParseError {
    ParseError::TooShort {
        offset: clamp(offset),
        needed: len as usize,
        have: data.len() as usize,
    }
}

pub proof fn lemma_le_range(data: Seq<u8>, offset: int)
    ensures
        le(data, offset, 1) == data[offset],
        le(data, offset, 2) == data[offset] + 256 * data[offset + 1],
        le(data, offset, 4) == data[offset] + 256 * data[offset + 1] + 65536 * data[offset + 2]
            + 16777216 * data[offset + 3],
        le(data, offset, 8) == le(data, offset, 4) + 4294967296 * le(data, offset + 4, 4),
        0 <= le(data, offset, 1) <= u8::MAX,
        0 <= le(data, offset, 2) <= u16::MAX,
        0 <= le(data, offset, 4) <= u32::MAX,
        0 <= le(data, offset, 8) <= u64::MAX,
{
    reveal_with_fuel(le, 9);
    assert(offset + 1 + 1 == offset + 2);
    assert(offset + 2 + 1 == offset + 3);
    assert(offset + 3 + 1 == offset + 4);
    assert(offset + 4 + 1 == offset + 5);
    assert(offset + 5 + 1 == offset + 6);
    assert(offset + 6 + 1 == offset + 7);
}

/// An offset computed in 64 bits, as an index into a buffer.
pub fn at(offset: u64) -> (r: usize)
    ensures
        r == clamp(offset as int),
{
    if offset > usize::MAX as u64 {
        usize::MAX
    } else {
        offset as usize
    }
}

/// Reads numbers out of a byte buffer without ever leaving it.
pub struct ByteReader<'a> {
    data: &'a [u8],
}

impl<'a> View for ByteReader<'a> {
    type V = Seq<u8>;

    closed spec fn view(&self) -> Seq<u8> {
        self.data@
    }
}

impl<'a> ByteReader<'a> {
    pub fn new(data: &'a [u8]) -> (r: Self)
        ensures
            r@ == data@,
    {
        ByteReader { data }
    }

    /// Borrows `len` bytes at `offset`.
    pub fn bytes(&self, offset: usize, len: usize) -> (r: Result<&'a [u8], ParseError>)
        ensures
            match r {
                Ok(b) => fits(self@, offset as int, len as int) && b@ == self@.subrange(
                    offset as int,
                    offset + len,
                ),
                Err(e) => !fits(self@, offset as int, len as int) && e == too_short(
                    self@,
                    offset as int,
                    len as int,
                ),
            },
    {
        let have = self.data.len();
        if offset > have || len > have - offset {
            return Err(ParseError::TooShort { offset, needed: len, have });
        }
        Ok(&self.data[offset..offset + len])
    }

    /// The 16-bit number at `offset`.
    pub fn u16_le(&self, offset: usize) -> (r: Result<u16, ParseError>)
        ensures
            match r {
                Ok(v) => read(self@, offset as int, 2) == Some(v as int),
                Err(e) => read(self@, offset as int, 2) is None && e == too_short(
                    self@,
                    offset as int,
                    2,
                ),
            },
    {
        let b = self.bytes(offset, 2)?;
        proof {
            lemma_le_range(self@, offset as int);
            assert(b@[0] == self@[offset as int]);
            assert(b@[1] == self@[offset + 1]);
        }
        Ok(b[0] as u16 + 256 * b[1] as u16)
    }

    /// The 32-bit number at `offset`.
    pub fn u32_le(&self, offset: usize) -> (r: Result<u32, ParseError>)
        ensures
            match r {
                Ok(v) => read(self@, offset as int, 4) == Some(v as int),
                Err(e) => read(self@, offset as int, 4) is None && e == too_short(
                    self@,
                    offset as int,
                    4,
                ),
            },
    {
        let b = self.bytes(offset, 4)?;
        proof {
            lemma_le_range(self@, offset as int);
            assert(b@[0] == self@[offset as int]);
            assert(b@[1] == self@[offset + 1]);
            assert(b@[2] == self@[offset + 2]);
            assert(b@[3] == self@[offset + 3]);
        }
        Ok(b[0] as u32 + 256 * b[1] as u32 + 65536 * b[2] as u32 + 16777216 * b[3] as u32)
    }

    /// The 64-bit number at `offset`.
    pub fn u64_le(&self, offset: usize) -> (r: Result<u64, ParseError>)
        ensures
            match r {
                Ok(v) => read(self@, offset as int, 8) == Some(v as int),
                Err(e) => read(self@, offset as int, 8) is None && e == too_short(
                    self@,
                    offset as int,
                    8,
                ),
            },
    {
        let b = self.bytes(offset, 8)?;
        proof {
            lemma_le_range(self@, offset as int);
            lemma_le_range(self@, offset + 4);
            assert(b@[0] == self@[offset as int]);
            assert(b@[1] == self@[offset + 1]);
            assert(b@[2] == self@[offset + 2]);
            assert(b@[3] == self@[offset + 3]);
            assert(b@[4] == self@[offset + 4]);
            assert(b@[5] == self@[offset + 5]);
            assert(b@[6] == self@[offset + 6]);
            assert(b@[7] == self@[offset + 7]);
        }
        let low = b[0] as u64 + 256 * b[1] as u64 + 65536 * b[2] as u64 + 16777216 * b[3] as u64;
        let high = b[4] as u64 + 256 * b[5] as u64 + 65536 * b[6] as u64 + 16777216 * b[7] as u64;
        Ok(low + 4294967296 * high)
    }

    /// The 16-bit number at a 64-bit offset.
    pub fn u16_at(&self, offset: u64) -> (r: Result<u16, ParseError>)
        ensures
            match r {
                Ok(v) => read(self@, offset as int, 2) == Some(v as int),
                Err(e) => read(self@, offset as int, 2) is None && e == too_short(
                    self@,
                    offset as int,
                    2,
                ),
            },
    {
        let have = self.data.len();
        if offset > have as u64 {
            return Err(ParseError::TooShort { offset: at(offset), needed: 2, have });
        }
        self.u16_le(offset as usize)
    }

    /// The 32-bit number at a 64-bit offset.
    pub fn u32_at(&self, offset: u64) -> (r: Result<u32, ParseError>)
        ensures
            match r {
                Ok(v) => read(self@, offset as int, 4) == Some(v as int),
                Err(e) => read(self@, offset as int, 4) is None && e == too_short(
                    self@,
                    offset as int,
                    4,
                ),
            },
    {
        let have = self.data.len();
        if offset > have as u64 {
            return Err(ParseError::TooShort { offset: at(offset), needed: 4, have });
        }
        self.u32_le(offset as usize)
    }

    /// The 64-bit number at a 64-bit offset.
    pub fn u64_at(&self, offset: u64) -> (r: Result<u64, ParseError>)
        ensures
            match r {
                Ok(v) => read(self@, offset as int, 8) == Some(v as int),
                Err(e) => read(self@, offset as int, 8) is None && e == too_short(
                    self@,
                    offset as int,
                    8,
                ),
            },
    {
        let have = self.data.len();
        if offset > have as u64 {
            return Err(ParseError::TooShort { offset: at(offset), needed: 8, have });
        }
        self.u64_le(offset as usize)
    }

    /// The `len` bytes at a 64-bit offset.
    pub fn bytes_at(&self, offset: u64, len: usize) -> (r: Result<&'a [u8], ParseError>)
        ensures
            match r {
                Ok(b) => fits(self@, offset as int, len as int) && b@ == self@.subrange(
                    offset as int,
                    offset + len,
                ),
                Err(e) => !fits(self@, offset as int, len as int) && e == too_short(
                    self@,
                    offset as int,
                    len as int,
                ),
            },
    {
        let have = self.data.len();
        if offset > have as u64 {
            return Err(ParseError::TooShort { offset: at(offset), needed: len, have });
        }
        self.bytes(offset as usize, len)
    }

    /// The 16-bit number `delta` bytes behind a base, where the buffer has it.
    pub fn u16_near(&self, base: u64, delta: u64) -> (r: Option<u16>)
        ensures
            match r {
                Some(v) => read(self@, base + delta, 2) == Some(v as int),
                None => read(self@, base + delta, 2) is None,
            },
    {
        let have = self.data.len() as u64;
        if base > have || delta > have - base {
            return None;
        }
        match self.u16_at(base + delta) {
            Ok(v) => Some(v),
            Err(_) => None,
        }
    }

    /// The 32-bit number `delta` bytes behind a base, where the buffer has it.
    pub fn u32_near(&self, base: u64, delta: u64) -> (r: Option<u32>)
        ensures
            match r {
                Some(v) => read(self@, base + delta, 4) == Some(v as int),
                None => read(self@, base + delta, 4) is None,
            },
    {
        let have = self.data.len() as u64;
        if base > have || delta > have - base {
            return None;
        }
        match self.u32_at(base + delta) {
            Ok(v) => Some(v),
            Err(_) => None,
        }
    }

    /// The 64-bit number `delta` bytes behind a base, where the buffer has it.
    pub fn u64_near(&self, base: u64, delta: u64) -> (r: Option<u64>)
        ensures
            match r {
                Some(v) => read(self@, base + delta, 8) == Some(v as int),
                None => read(self@, base + delta, 8) is None,
            },
    {
        let have = self.data.len() as u64;
        if base > have || delta > have - base {
            return None;
        }
        match self.u64_at(base + delta) {
            Ok(v) => Some(v),
            Err(_) => None,
        }
    }

    /// The 16-bit number `delta` bytes behind a base, or zero past the end of
    /// the buffer.
    pub fn u16_or_zero(&self, base: u64, delta: u64) -> (r: u16)
        ensures
            r == read_or_zero(self@, base + delta, 2),
    {
        match self.u16_near(base, delta) {
            Some(v) => v,
            None => 0,
        }
    }

    /// The 32-bit number `delta` bytes behind a base, or zero past the end of
    /// the buffer.
    pub fn u32_or_zero(&self, base: u64, delta: u64) -> (r: u32)
        ensures
            r == read_or_zero(self@, base + delta, 4),
    {
        match self.u32_near(base, delta) {
            Some(v) => v,
            None => 0,
        }
    }

    /// The 64-bit number `delta` bytes behind a base, or zero past the end of
    /// the buffer.
    pub fn u64_or_zero(&self, base: u64, delta: u64) -> (r: u64)
        ensures
            r == read_or_zero(self@, base + delta, 8),
    {
        match self.u64_near(base, delta) {
            Some(v) => v,
            None => 0,
        }
    }
}

} // verus!
