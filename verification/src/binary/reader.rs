//! A cursor over bytes in memory, and what the fields that it reads hold.
use crate::error::{ReadError, ReadErrorModel};
use vstd::prelude::*;
use vstd::slice::{slice_subrange, slice_to_vec};

verus! {

/// What reading a field at some position of a byte sequence gives: the value with the number of
/// bytes that the field takes, or the reason why there is no such field.
pub type Parsed<T> = Result<(T, nat), ReadErrorModel>;

/// Whether `data` holds `len` bytes from position `pos` on.
pub open spec fn available(data: Seq<u8>, pos: int, len: int) -> bool {
    0 <= pos && 0 <= len && pos + len <= data.len()
}

/// The number that `bytes` hold, least significant byte first.
pub open spec fn le_value(bytes: Seq<u8>) -> nat
    decreases bytes.len(),
{
    if bytes.len() == 0 {
        0
    } else {
        bytes[0] as nat + 256 * le_value(bytes.drop_first())
    }
}

/// The number that `bytes` hold, most significant byte first.
pub open spec fn be_value(bytes: Seq<u8>) -> nat
    decreases bytes.len(),
{
    if bytes.len() == 0 {
        0
    } else {
        256 * be_value(bytes.drop_last()) + bytes.last() as nat
    }
}

/// The signed number that the unsigned `value` below `modulus` stands for in two's complement.
pub open spec fn twos_complement(value: nat, modulus: nat) -> int {
    if 2 * value < modulus {
        value as int
    } else {
        value - modulus
    }
}

/// The `u16` that two bytes hold, least significant byte first.
pub open spec fn u16_of(bytes: Seq<u8>) -> u16 {
    le_value(bytes) as u16
}

/// The `u32` that four bytes hold, least significant byte first.
pub open spec fn u32_of(bytes: Seq<u8>) -> u32 {
    le_value(bytes) as u32
}

/// The `u64` that eight bytes hold, least significant byte first.
pub open spec fn u64_of(bytes: Seq<u8>) -> u64 {
    le_value(bytes) as u64
}

/// The `i16` that two bytes hold in two's complement, least significant byte first.
pub open spec fn i16_of(bytes: Seq<u8>) -> i16 {
    twos_complement(le_value(bytes), 0x1_0000) as i16
}

/// The `i32` that four bytes hold in two's complement, least significant byte first.
pub open spec fn i32_of(bytes: Seq<u8>) -> i32 {
    twos_complement(le_value(bytes), 0x1_0000_0000) as i32
}

/// The `i64` that eight bytes hold in two's complement, least significant byte first.
pub open spec fn i64_of(bytes: Seq<u8>) -> i64 {
    twos_complement(le_value(bytes), 0x1_0000_0000_0000_0000) as i64
}

/// What a boolean byte means: `'Y'` is true, `'T'` is false, any other byte goes by its lowest bit.
pub open spec fn boolean_of(byte: u8) -> bool {
    byte == 0x59 || (byte != 0x54 && byte % 2 == 1)
}

/// The `len` bytes at `pos`.
pub open spec fn bytes_at(data: Seq<u8>, pos: int, len: nat) -> Parsed<Seq<u8>> {
    if available(data, pos, len as int) {
        Ok((data.subrange(pos, pos + len), len))
    } else {
        Err(ReadErrorModel::Truncated)
    }
}

/// The byte at `pos`.
pub open spec fn u8_at(data: Seq<u8>, pos: int) -> Parsed<u8> {
    match bytes_at(data, pos, 1) {
        Ok((bytes, used)) => Ok((bytes[0], used)),
        Err(e) => Err(e),
    }
}

/// The byte at `pos` as a character: the character whose code is the byte.
pub open spec fn char_at(data: Seq<u8>, pos: int) -> Parsed<char> {
    match bytes_at(data, pos, 1) {
        Ok((bytes, used)) => Ok((bytes[0] as char, used)),
        Err(e) => Err(e),
    }
}

/// The little-endian `u16` at `pos`.
pub open spec fn u16_le_at(data: Seq<u8>, pos: int) -> Parsed<u16> {
    match bytes_at(data, pos, 2) {
        Ok((bytes, used)) => Ok((u16_of(bytes), used)),
        Err(e) => Err(e),
    }
}

/// The little-endian `u32` at `pos`.
pub open spec fn u32_le_at(data: Seq<u8>, pos: int) -> Parsed<u32> {
    match bytes_at(data, pos, 4) {
        Ok((bytes, used)) => Ok((u32_of(bytes), used)),
        Err(e) => Err(e),
    }
}

/// The little-endian `u64` at `pos`.
pub open spec fn u64_le_at(data: Seq<u8>, pos: int) -> Parsed<u64> {
    match bytes_at(data, pos, 8) {
        Ok((bytes, used)) => Ok((u64_of(bytes), used)),
        Err(e) => Err(e),
    }
}

/// The big-endian `u16` at `pos`.
pub open spec fn u16_be_at(data: Seq<u8>, pos: int) -> Parsed<u16> {
    match bytes_at(data, pos, 2) {
        Ok((bytes, used)) => Ok((be_value(bytes) as u16, used)),
        Err(e) => Err(e),
    }
}

/// The big-endian `u32` at `pos`.
pub open spec fn u32_be_at(data: Seq<u8>, pos: int) -> Parsed<u32> {
    match bytes_at(data, pos, 4) {
        Ok((bytes, used)) => Ok((be_value(bytes) as u32, used)),
        Err(e) => Err(e),
    }
}

/// The big-endian `u64` at `pos`.
pub open spec fn u64_be_at(data: Seq<u8>, pos: int) -> Parsed<u64> {
    match bytes_at(data, pos, 8) {
        Ok((bytes, used)) => Ok((be_value(bytes) as u64, used)),
        Err(e) => Err(e),
    }
}

/// The little-endian two's complement `i16` at `pos`.
pub open spec fn i16_le_at(data: Seq<u8>, pos: int) -> Parsed<i16> {
    match bytes_at(data, pos, 2) {
        Ok((bytes, used)) => Ok((i16_of(bytes), used)),
        Err(e) => Err(e),
    }
}

/// The little-endian two's complement `i32` at `pos`.
pub open spec fn i32_le_at(data: Seq<u8>, pos: int) -> Parsed<i32> {
    match bytes_at(data, pos, 4) {
        Ok((bytes, used)) => Ok((i32_of(bytes), used)),
        Err(e) => Err(e),
    }
}

/// The little-endian two's complement `i64` at `pos`.
pub open spec fn i64_le_at(data: Seq<u8>, pos: int) -> Parsed<i64> {
    match bytes_at(data, pos, 8) {
        Ok((bytes, used)) => Ok((i64_of(bytes), used)),
        Err(e) => Err(e),
    }
}

/// The boolean in the byte at `pos`.
pub open spec fn boolean_at(data: Seq<u8>, pos: int) -> Parsed<bool> {
    match bytes_at(data, pos, 1) {
        Ok((bytes, used)) => Ok((boolean_of(bytes[0]), used)),
        Err(e) => Err(e),
    }
}

/// The booleans that `bytes` hold, one in each byte.
pub open spec fn bools_of(bytes: Seq<u8>) -> Seq<bool> {
    Seq::new(bytes.len(), |i: int| boolean_of(bytes[i]))
}

/// The little-endian `u32`s that `bytes` hold, one in each four bytes.
pub open spec fn u32s_of(bytes: Seq<u8>) -> Seq<u32> {
    Seq::new(bytes.len() / 4, |i: int| u32_of(bytes.subrange(4 * i, 4 * i + 4)))
}

/// The little-endian `u64`s that `bytes` hold, one in each eight bytes.
pub open spec fn u64s_of(bytes: Seq<u8>) -> Seq<u64> {
    Seq::new(bytes.len() / 8, |i: int| u64_of(bytes.subrange(8 * i, 8 * i + 8)))
}

/// The little-endian two's complement `i32`s that `bytes` hold, one in each four bytes.
pub open spec fn i32s_of(bytes: Seq<u8>) -> Seq<i32> {
    Seq::new(bytes.len() / 4, |i: int| i32_of(bytes.subrange(4 * i, 4 * i + 4)))
}

/// The little-endian two's complement `i64`s that `bytes` hold, one in each eight bytes.
pub open spec fn i64s_of(bytes: Seq<u8>) -> Seq<i64> {
    Seq::new(bytes.len() / 8, |i: int| i64_of(bytes.subrange(8 * i, 8 * i + 8)))
}

/// Writes out what two little-endian bytes hold.
pub proof fn lemma_le_value_2(bytes: Seq<u8>)
    requires
        bytes.len() == 2,
    ensures
        le_value(bytes) == bytes[0] + 0x100 * bytes[1],
{
    reveal_with_fuel(le_value, 3);
}

/// Writes out what four little-endian bytes hold.
pub proof fn lemma_le_value_4(bytes: Seq<u8>)
    requires
        bytes.len() == 4,
    ensures
        le_value(bytes) == bytes[0] + 0x100 * bytes[1] + 0x1_0000 * bytes[2] + 0x100_0000
            * bytes[3],
{
    reveal_with_fuel(le_value, 5);
}

/// Writes out what eight little-endian bytes hold, as two halves of four bytes.
pub proof fn lemma_le_value_8(bytes: Seq<u8>)
    requires
        bytes.len() == 8,
    ensures
        le_value(bytes) == le_value(bytes.subrange(0, 4)) + 0x1_0000_0000 * le_value(
            bytes.subrange(4, 8),
        ),
{
    reveal_with_fuel(le_value, 9);
    lemma_le_value_4(bytes.subrange(0, 4));
    lemma_le_value_4(bytes.subrange(4, 8));
}

/// Writes out what two big-endian bytes hold.
pub proof fn lemma_be_value_2(bytes: Seq<u8>)
    requires
        bytes.len() == 2,
    ensures
        be_value(bytes) == 0x100 * bytes[0] + bytes[1],
{
    reveal_with_fuel(be_value, 3);
}

/// Writes out what four big-endian bytes hold.
pub proof fn lemma_be_value_4(bytes: Seq<u8>)
    requires
        bytes.len() == 4,
    ensures
        be_value(bytes) == 0x100_0000 * bytes[0] + 0x1_0000 * bytes[1] + 0x100 * bytes[2]
            + bytes[3],
{
    reveal_with_fuel(be_value, 5);
}

/// Writes out what eight big-endian bytes hold, as two halves of four bytes.
pub proof fn lemma_be_value_8(bytes: Seq<u8>)
    requires
        bytes.len() == 8,
    ensures
        be_value(bytes) == 0x1_0000_0000 * be_value(bytes.subrange(0, 4)) + be_value(
            bytes.subrange(4, 8),
        ),
{
    reveal_with_fuel(be_value, 9);
    lemma_be_value_4(bytes.subrange(0, 4));
    lemma_be_value_4(bytes.subrange(4, 8));
}

/// A cursor over a sequence of bytes held in memory.
#[derive(Debug)]
pub struct BinaryReader {
    data: Vec<u8>,
    cursor: usize,
}

impl BinaryReader {
    #[verifier::type_invariant]
    spec fn in_bounds(&self) -> bool {
        self.cursor <= self.data.len()
    }

    /// The bytes that the reader reads from.
    pub closed spec fn data(&self) -> Seq<u8> {
        self.data@
    }

    /// The position of the next byte to read.
    pub closed spec fn cursor(&self) -> nat {
        self.cursor as nat
    }

    /// Whether a call that turned the reader `before` into `self` and returned `result` has
    /// read the field `parsed`: on success the value is the field's and the cursor has passed
    /// the field; on failure the error is the field's and the reader has not moved.
    pub open spec fn has_read<T>(
        &self,
        before: &BinaryReader,
        parsed: Parsed<T>,
        result: Result<T, ReadError>,
    ) -> bool {
        &&& self.data() == before.data()
        &&& match result {
            Ok(value) => parsed matches Ok((field, used)) && value == field && self.cursor()
                == before.cursor() + used,
            Err(e) => parsed matches Err(reason) && e@ == reason && self.cursor()
                == before.cursor(),
        }
    }

    /// The same for a call that returns the bytes of the field.
    pub open spec fn has_read_bytes(
        &self,
        before: &BinaryReader,
        parsed: Parsed<Seq<u8>>,
        result: Result<Vec<u8>, ReadError>,
    ) -> bool {
        &&& self.data() == before.data()
        &&& match result {
            Ok(value) => parsed matches Ok((field, used)) && value@ == field && self.cursor()
                == before.cursor() + used,
            Err(e) => parsed matches Err(reason) && e@ == reason && self.cursor()
                == before.cursor(),
        }
    }

    /// The position of the next byte to read, as a position in `data`.
    pub open spec fn at(&self) -> int {
        self.cursor() as int
    }

    /// A reader over `data` whose next byte is the one at `cursor`. Where `cursor` lies beyond
    /// the end of `data`, the reader stands at the end.
    pub fn new(data: Vec<u8>, cursor: usize) -> (reader: BinaryReader)
        ensures
            reader.data() == data@,
            reader.cursor() == if cursor <= data@.len() {
                cursor as nat
            } else {
                data@.len()
            },
    {
        if cursor <= data.len() {
            BinaryReader { data, cursor }
        } else {
            let end = data.len();
            BinaryReader { data, cursor: end }
        }
    }

    /// The position of the next byte to read. It never lies beyond the end of the data.
    pub fn current_cursor(&self) -> (cursor: usize)
        ensures
            cursor == self.cursor(),
            cursor <= self.data().len(),
    {
        proof {
            use_type_invariant(self);
        }
        self.cursor
    }

    /// Steps over `len` bytes and returns the position of the first of them.
    fn advance(&mut self, len: usize) -> (start: Result<usize, ReadError>)
        ensures
            final(self).data() == old(self).data(),
            match start {
                Ok(start) => available(old(self).data(), old(self).at(), len as int)
                    && start == old(self).cursor() && final(self).cursor() == start + len,
                Err(e) => !available(old(self).data(), old(self).at(), len as int) && e@
                    == ReadErrorModel::Truncated && final(self).cursor() == old(self).cursor(),
            },
    {
        proof {
            use_type_invariant(&*self);
        }
        let start = self.cursor;
        if len > self.data.len() - start {
            return Err(ReadError::Truncated);
        }
        self.cursor = start + len;
        Ok(start)
    }

    /// Reads `len` bytes.
    pub fn read_bytes_exact(&mut self, len: usize) -> (bytes: Result<Vec<u8>, ReadError>)
        ensures
            final(self).has_read_bytes(
                old(self),
                bytes_at(old(self).data(), old(self).at(), len as nat),
                bytes,
            ),
    {
        let start = self.advance(len)?;
        Ok(slice_to_vec(slice_subrange(self.data.as_slice(), start, start + len)))
    }

    /// Reads `len` bytes of a string. The bytes are handed on as they are: FBX strings need
    /// not be UTF-8.
    pub fn read_string(&mut self, len: usize) -> (bytes: Result<Vec<u8>, ReadError>)
        ensures
            final(self).has_read_bytes(
                old(self),
                bytes_at(old(self).data(), old(self).at(), len as nat),
                bytes,
            ),
    {
        self.read_bytes_exact(len)
    }

    /// Reads one byte.
    pub fn read_u8(&mut self) -> (value: Result<u8, ReadError>)
        ensures
            final(self).has_read(old(self), u8_at(old(self).data(), old(self).at()), value),
    {
        let start = self.advance(1)?;
        Ok(self.data[start])
    }

    /// Reads one byte as a character.
    pub fn read_char(&mut self) -> (value: Result<char, ReadError>)
        ensures
            final(self).has_read(old(self), char_at(old(self).data(), old(self).at()), value),
    {
        let start = self.advance(1)?;
        Ok(self.data[start] as char)
    }

    /// Reads one byte as a boolean.
    pub fn read_boolean(&mut self) -> (value: Result<bool, ReadError>)
        ensures
            final(self).has_read(old(self), boolean_at(old(self).data(), old(self).at()), value),
    {
        let byte = self.read_u8()?;
        if byte == 0x59 {
            return Ok(true);
        }
        if byte == 0x54 {
            return Ok(false);
        }
        Ok(byte % 2 == 1)
    }

    /// Reads a little-endian `u16`.
    pub fn read_u16_le(&mut self) -> (value: Result<u16, ReadError>)
        ensures
            final(self).has_read(old(self), u16_le_at(old(self).data(), old(self).at()), value),
    {
        let start = self.advance(2)?;
        proof {
            lemma_le_value_2(self.data@.subrange(start as int, start + 2));
        }
        Ok(self.data[start] as u16 + 0x100 * (self.data[start + 1] as u16))
    }

    /// Reads a big-endian `u16`.
    pub fn read_u16_be(&mut self) -> (value: Result<u16, ReadError>)
        ensures
            final(self).has_read(old(self), u16_be_at(old(self).data(), old(self).at()), value),
    {
        let start = self.advance(2)?;
        proof {
            lemma_be_value_2(self.data@.subrange(start as int, start + 2));
        }
        Ok(0x100 * (self.data[start] as u16) + self.data[start + 1] as u16)
    }

    /// Reads a little-endian `u32`.
    pub fn read_u32_le(&mut self) -> (value: Result<u32, ReadError>)
        ensures
            final(self).has_read(old(self), u32_le_at(old(self).data(), old(self).at()), value),
    {
        let start = self.advance(4)?;
        proof {
            lemma_le_value_4(self.data@.subrange(start as int, start + 4));
        }
        Ok(
            self.data[start] as u32 + 0x100 * (self.data[start + 1] as u32) + 0x1_0000 * (
            self.data[start + 2] as u32) + 0x100_0000 * (self.data[start + 3] as u32),
        )
    }

    /// Reads a big-endian `u32`.
    pub fn read_u32_be(&mut self) -> (value: Result<u32, ReadError>)
        ensures
            final(self).has_read(old(self), u32_be_at(old(self).data(), old(self).at()), value),
    {
        let start = self.advance(4)?;
        proof {
            lemma_be_value_4(self.data@.subrange(start as int, start + 4));
        }
        Ok(
            0x100_0000 * (self.data[start] as u32) + 0x1_0000 * (self.data[start + 1] as u32)
                + 0x100 * (self.data[start + 2] as u32) + self.data[start + 3] as u32,
        )
    }

    /// Reads a little-endian `u64`.
    pub fn read_u64_le(&mut self) -> (value: Result<u64, ReadError>)
        ensures
            final(self).has_read(old(self), u64_le_at(old(self).data(), old(self).at()), value),
    {
        let start = self.advance(8)?;
        proof {
            let bytes = self.data@.subrange(start as int, start + 8);
            lemma_le_value_8(bytes);
            lemma_le_value_4(bytes.subrange(0, 4));
            lemma_le_value_4(bytes.subrange(4, 8));
        }
        let low: u64 = self.data[start] as u64 + 0x100 * (self.data[start + 1] as u64) + 0x1_0000
            * (self.data[start + 2] as u64) + 0x100_0000 * (self.data[start + 3] as u64);
        let high: u64 = self.data[start + 4] as u64 + 0x100 * (self.data[start + 5] as u64)
            + 0x1_0000 * (self.data[start + 6] as u64) + 0x100_0000 * (self.data[start
            + 7] as u64);
        Ok(low + 0x1_0000_0000 * high)
    }

    /// Reads a big-endian `u64`.
    pub fn read_u64_be(&mut self) -> (value: Result<u64, ReadError>)
        ensures
            final(self).has_read(old(self), u64_be_at(old(self).data(), old(self).at()), value),
    {
        let start = self.advance(8)?;
        proof {
            let bytes = self.data@.subrange(start as int, start + 8);
            lemma_be_value_8(bytes);
            lemma_be_value_4(bytes.subrange(0, 4));
            lemma_be_value_4(bytes.subrange(4, 8));
        }
        let high: u64 = 0x100_0000 * (self.data[start] as u64) + 0x1_0000 * (self.data[start
            + 1] as u64) + 0x100 * (self.data[start + 2] as u64) + self.data[start + 3] as u64;
        let low: u64 = 0x100_0000 * (self.data[start + 4] as u64) + 0x1_0000 * (self.data[start
            + 5] as u64) + 0x100 * (self.data[start + 6] as u64) + self.data[start + 7] as u64;
        Ok(0x1_0000_0000 * high + low)
    }

    /// Reads a little-endian two's complement `i16`.
    pub fn read_i16_le(&mut self) -> (value: Result<i16, ReadError>)
        ensures
            final(self).has_read(old(self), i16_le_at(old(self).data(), old(self).at()), value),
    {
        let ghost bytes = self.data@.subrange(self.cursor as int, self.cursor + 2);
        let unsigned = self.read_u16_le()?;
        proof {
            lemma_le_value_2(bytes);
        }
        if unsigned < 0x8000 {
            Ok(unsigned as i16)
        } else {
            Ok((unsigned as i32 - 0x1_0000) as i16)
        }
    }

    /// Reads a little-endian two's complement `i32`.
    pub fn read_i32_le(&mut self) -> (value: Result<i32, ReadError>)
        ensures
            final(self).has_read(old(self), i32_le_at(old(self).data(), old(self).at()), value),
    {
        let ghost bytes = self.data@.subrange(self.cursor as int, self.cursor + 4);
        let unsigned = self.read_u32_le()?;
        proof {
            lemma_le_value_4(bytes);
        }
        if unsigned < 0x8000_0000 {
            Ok(unsigned as i32)
        } else {
            Ok((unsigned as i64 - 0x1_0000_0000) as i32)
        }
    }

    /// Reads a little-endian two's complement `i64`.
    pub fn read_i64_le(&mut self) -> (value: Result<i64, ReadError>)
        ensures
            final(self).has_read(old(self), i64_le_at(old(self).data(), old(self).at()), value),
    {
        let ghost bytes = self.data@.subrange(self.cursor as int, self.cursor + 8);
        let unsigned = self.read_u64_le()?;
        proof {
            lemma_le_value_8(bytes);
            lemma_le_value_4(bytes.subrange(0, 4));
            lemma_le_value_4(bytes.subrange(4, 8));
        }
        if unsigned < 0x8000_0000_0000_0000 {
            Ok(unsigned as i64)
        } else {
            Ok((unsigned - 0x8000_0000_0000_0000) as i64 + i64::MIN)
        }
    }

    /// Reads a little-endian IEEE-754 single and returns its bit pattern.
    pub fn read_f32_le(&mut self) -> (bits: Result<u32, ReadError>)
        ensures
            final(self).has_read(old(self), u32_le_at(old(self).data(), old(self).at()), bits),
    {
        self.read_u32_le()
    }

    /// Reads a big-endian IEEE-754 single and returns its bit pattern.
    pub fn read_f32_be(&mut self) -> (bits: Result<u32, ReadError>)
        ensures
            final(self).has_read(old(self), u32_be_at(old(self).data(), old(self).at()), bits),
    {
        self.read_u32_be()
    }

    /// Reads a little-endian IEEE-754 double and returns its bit pattern.
    pub fn read_f64_le(&mut self) -> (bits: Result<u64, ReadError>)
        ensures
            final(self).has_read(old(self), u64_le_at(old(self).data(), old(self).at()), bits),
    {
        self.read_u64_le()
    }

    /// Reads a big-endian IEEE-754 double and returns its bit pattern.
    pub fn read_f64_be(&mut self) -> (bits: Result<u64, ReadError>)
        ensures
            final(self).has_read(old(self), u64_be_at(old(self).data(), old(self).at()), bits),
    {
        self.read_u64_be()
    }

    /// Reads `count` booleans.
    /// Where they are not all there, nothing is read.
    pub fn read_booleans(&mut self, count: u32) -> (values: Result<Vec<bool>, ReadError>)
        ensures
            final(self).data() == old(self).data(),
            match values {
                Ok(values) => bytes_at(old(self).data(), old(self).at(), count as nat)
                    matches Ok((bytes, used)) && values@ == bools_of(bytes) && final(self).cursor()
                    == old(self).cursor() + used,
                Err(e) => e@ == ReadErrorModel::Truncated && bytes_at(
                    old(self).data(),
                    old(self).at(),
                    count as nat,
                ) is Err && final(self).cursor() == old(self).cursor(),
            },
    {
        proof {
            use_type_invariant(&*self);
        }
        let start = self.cursor;
        let ghost data = self.data@;
        let mut values: Vec<bool> = Vec::new();
        let mut i: u32 = 0;
        while i < count
            invariant
                i <= count,
                self.data@ == data,
                data == old(self).data(),
                start == old(self).cursor(),
                start <= self.cursor <= data.len(),
                self.cursor == start + i,
                values.len() == i,
                forall|j: int| 0 <= j < i ==> values@[j] == boolean_of(data[start + j]),
            decreases count - i,
        {
            match self.read_boolean() {
                Ok(value) => {
                    values.push(value);
                },
                Err(e) => {
                    self.cursor = start;
                    return Err(e);
                },
            }
            proof {
                use_type_invariant(&*self);
            }
            i = i + 1;
        }
        proof {
            let bytes = data.subrange(start as int, start + count);
            assert forall|j: int| 0 <= j < count implies values@[j] == bools_of(bytes)[j] by {
                assert(bytes[j] == data[start + j]);
            }
            assert(values@ =~= bools_of(bytes));
        }
        Ok(values)
    }

    /// Reads `count` little-endian `i32`s.
    /// Where they are not all there, nothing is read.
    pub fn read_i32s_le(&mut self, count: u32) -> (values: Result<Vec<i32>, ReadError>)
        ensures
            final(self).data() == old(self).data(),
            match values {
                Ok(values) => bytes_at(old(self).data(), old(self).at(), 4 * count as nat)
                    matches Ok((bytes, used)) && values@ == i32s_of(bytes) && final(self).cursor()
                    == old(self).cursor() + used,
                Err(e) => e@ == ReadErrorModel::Truncated && bytes_at(
                    old(self).data(),
                    old(self).at(),
                    4 * count as nat,
                ) is Err && final(self).cursor() == old(self).cursor(),
            },
    {
        proof {
            use_type_invariant(&*self);
        }
        let start = self.cursor;
        let ghost data = self.data@;
        let mut values: Vec<i32> = Vec::new();
        let mut i: u32 = 0;
        while i < count
            invariant
                i <= count,
                self.data@ == data,
                data == old(self).data(),
                start == old(self).cursor(),
                start <= self.cursor <= data.len(),
                self.cursor == start + 4 * i,
                values.len() == i,
                forall|j: int|
                    0 <= j < i ==> values@[j] == i32_of(
                        data.subrange(start + 4 * j, start + 4 * j + 4),
                    ),
            decreases count - i,
        {
            match self.read_i32_le() {
                Ok(value) => {
                    values.push(value);
                },
                Err(e) => {
                    self.cursor = start;
                    return Err(e);
                },
            }
            proof {
                use_type_invariant(&*self);
            }
            i = i + 1;
        }
        proof {
            let bytes = data.subrange(start as int, start + 4 * count);
            assert forall|j: int| 0 <= j < count implies values@[j] == i32s_of(bytes)[j] by {
                assert(bytes.subrange(4 * j, 4 * j + 4) =~= data.subrange(
                    start + 4 * j,
                    start + 4 * j + 4,
                ));
            }
            assert(values@ =~= i32s_of(bytes));
        }
        Ok(values)
    }

    /// Reads `count` little-endian `i64`s.
    /// Where they are not all there, nothing is read.
    pub fn read_i64s_le(&mut self, count: u32) -> (values: Result<Vec<i64>, ReadError>)
        ensures
            final(self).data() == old(self).data(),
            match values {
                Ok(values) => bytes_at(old(self).data(), old(self).at(), 8 * count as nat)
                    matches Ok((bytes, used)) && values@ == i64s_of(bytes) && final(self).cursor()
                    == old(self).cursor() + used,
                Err(e) => e@ == ReadErrorModel::Truncated && bytes_at(
                    old(self).data(),
                    old(self).at(),
                    8 * count as nat,
                ) is Err && final(self).cursor() == old(self).cursor(),
            },
    {
        proof {
            use_type_invariant(&*self);
        }
        let start = self.cursor;
        let ghost data = self.data@;
        let mut values: Vec<i64> = Vec::new();
        let mut i: u32 = 0;
        while i < count
            invariant
                i <= count,
                self.data@ == data,
                data == old(self).data(),
                start == old(self).cursor(),
                start <= self.cursor <= data.len(),
                self.cursor == start + 8 * i,
                values.len() == i,
                forall|j: int|
                    0 <= j < i ==> values@[j] == i64_of(
                        data.subrange(start + 8 * j, start + 8 * j + 8),
                    ),
            decreases count - i,
        {
            match self.read_i64_le() {
                Ok(value) => {
                    values.push(value);
                },
                Err(e) => {
                    self.cursor = start;
                    return Err(e);
                },
            }
            proof {
                use_type_invariant(&*self);
            }
            i = i + 1;
        }
        proof {
            let bytes = data.subrange(start as int, start + 8 * count);
            assert forall|j: int| 0 <= j < count implies values@[j] == i64s_of(bytes)[j] by {
                assert(bytes.subrange(8 * j, 8 * j + 8) =~= data.subrange(
                    start + 8 * j,
                    start + 8 * j + 8,
                ));
            }
            assert(values@ =~= i64s_of(bytes));
        }
        Ok(values)
    }

    /// Reads `count` little-endian IEEE-754 singles as their bit patterns.
    /// Where they are not all there, nothing is read.
    pub fn read_f32s_le(&mut self, count: u32) -> (values: Result<Vec<u32>, ReadError>)
        ensures
            final(self).data() == old(self).data(),
            match values {
                Ok(values) => bytes_at(old(self).data(), old(self).at(), 4 * count as nat)
                    matches Ok((bytes, used)) && values@ == u32s_of(bytes) && final(self).cursor()
                    == old(self).cursor() + used,
                Err(e) => e@ == ReadErrorModel::Truncated && bytes_at(
                    old(self).data(),
                    old(self).at(),
                    4 * count as nat,
                ) is Err && final(self).cursor() == old(self).cursor(),
            },
    {
        proof {
            use_type_invariant(&*self);
        }
        let start = self.cursor;
        let ghost data = self.data@;
        let mut values: Vec<u32> = Vec::new();
        let mut i: u32 = 0;
        while i < count
            invariant
                i <= count,
                self.data@ == data,
                data == old(self).data(),
                start == old(self).cursor(),
                start <= self.cursor <= data.len(),
                self.cursor == start + 4 * i,
                values.len() == i,
                forall|j: int|
                    0 <= j < i ==> values@[j] == u32_of(
                        data.subrange(start + 4 * j, start + 4 * j + 4),
                    ),
            decreases count - i,
        {
            match self.read_f32_le() {
                Ok(value) => {
                    values.push(value);
                },
                Err(e) => {
                    self.cursor = start;
                    return Err(e);
                },
            }
            proof {
                use_type_invariant(&*self);
            }
            i = i + 1;
        }
        proof {
            let bytes = data.subrange(start as int, start + 4 * count);
            assert forall|j: int| 0 <= j < count implies values@[j] == u32s_of(bytes)[j] by {
                assert(bytes.subrange(4 * j, 4 * j + 4) =~= data.subrange(
                    start + 4 * j,
                    start + 4 * j + 4,
                ));
            }
            assert(values@ =~= u32s_of(bytes));
        }
        Ok(values)
    }

    /// Reads `count` little-endian IEEE-754 doubles as their bit patterns.
    /// Where they are not all there, nothing is read.
    pub fn read_f64s_le(&mut self, count: u32) -> (values: Result<Vec<u64>, ReadError>)
        ensures
            final(self).data() == old(self).data(),
            match values {
                Ok(values) => bytes_at(old(self).data(), old(self).at(), 8 * count as nat)
                    matches Ok((bytes, used)) && values@ == u64s_of(bytes) && final(self).cursor()
                    == old(self).cursor() + used,
                Err(e) => e@ == ReadErrorModel::Truncated && bytes_at(
                    old(self).data(),
                    old(self).at(),
                    8 * count as nat,
                ) is Err && final(self).cursor() == old(self).cursor(),
            },
    {
        proof {
            use_type_invariant(&*self);
        }
        let start = self.cursor;
        let ghost data = self.data@;
        let mut values: Vec<u64> = Vec::new();
        let mut i: u32 = 0;
        while i < count
            invariant
                i <= count,
                self.data@ == data,
                data == old(self).data(),
                start == old(self).cursor(),
                start <= self.cursor <= data.len(),
                self.cursor == start + 8 * i,
                values.len() == i,
                forall|j: int|
                    0 <= j < i ==> values@[j] == u64_of(
                        data.subrange(start + 8 * j, start + 8 * j + 8),
                    ),
            decreases count - i,
        {
            match self.read_f64_le() {
                Ok(value) => {
                    values.push(value);
                },
                Err(e) => {
                    self.cursor = start;
                    return Err(e);
                },
            }
            proof {
                use_type_invariant(&*self);
            }
            i = i + 1;
        }
        proof {
            let bytes = data.subrange(start as int, start + 8 * count);
            assert forall|j: int| 0 <= j < count implies values@[j] == u64s_of(bytes)[j] by {
                assert(bytes.subrange(8 * j, 8 * j + 8) =~= data.subrange(
                    start + 8 * j,
                    start + 8 * j + 8,
                ));
            }
            assert(values@ =~= u64s_of(bytes));
        }
        Ok(values)
    }
}

} // verus!
