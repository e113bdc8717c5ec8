//! A cursor over an owned byte sequence with big-endian reads.

use byteorder::{BigEndian, ByteOrder};
use crate::varint::{decode_varint, lemma_varint_width_bounds, scan_varint};
use vstd::prelude::*;
use vstd::slice::{slice_subrange, slice_to_vec};
use vstd::utf8::{decode_utf8, valid_utf8};

verus! {

/// Why a read from a [`ByteBuffer`] failed.
#[derive(Clone, Copy, Debug, PartialEq, Eq, Structural)]
pub enum ReadError {
    /// Fewer bytes remain after the cursor than the read needs.
    ShortRead,
    /// The bytes of a string are not valid UTF-8.
    InvalidUtf8,
    /// A variable-length integer does not fit the integer type asked for.
    BadVarint,
}

/// The number that `bytes` spells when read most significant byte first.
pub open spec fn be_value(bytes: Seq<u8>) -> nat
    decreases bytes.len(),
{
    if bytes.len() == 0 {
        0
    } else {
        be_value(bytes.drop_last()) * 256 + bytes.last() as nat
    }
}

/// The `n` bytes that follow position `index` in `bytes`, if there are that many.
pub open spec fn peek_bytes(bytes: Seq<u8>, index: int, n: int) -> Option<Seq<u8>> {
    if 0 <= index && 0 <= n && index + n <= bytes.len() {
        Some(bytes.subrange(index, index + n))
    } else {
        None
    }
}

/// The unsigned big-endian integer of `width` bytes at position `index`.
pub open spec fn uint_at(bytes: Seq<u8>, index: int, width: int) -> Option<nat> {
    match peek_bytes(bytes, index, width) {
        Some(window) => Some(be_value(window)),
        None => None,
    }
}

/// The string at position `index`: a 16-bit big-endian byte count, then that
/// many bytes of UTF-8. With the characters comes the width of the whole
/// field in bytes.
pub open spec fn string_at(bytes: Seq<u8>, index: int) -> Result<(Seq<char>, int), ReadError> {
    match uint_at(bytes, index, 2) {
        None => Err(ReadError::ShortRead),
        Some(n) => match peek_bytes(bytes, index + 2, n as int) {
            None => Err(ReadError::ShortRead),
            Some(raw) => if valid_utf8(raw) {
                Ok((decode_utf8(raw), 2 + n as int))
            } else {
                Err(ReadError::InvalidUtf8)
            },
        },
    }
}

/// `count` variable-length 32-bit integers in a row at the start of `s`, and
/// the number of bytes they take together. A count below one stands for no
/// integers.
pub open spec fn varint_run(s: Seq<u8>, count: int) -> Result<(Seq<i32>, int), ReadError>
    decreases count,
{
    if count <= 0 {
        Ok((Seq::empty(), 0))
    } else {
        match decode_varint(s, i32::MIN as int, i32::MAX as int) {
            Err(e) => Err(e),
            Ok((v, w)) => match varint_run(s.skip(w), count - 1) {
                Err(e) => Err(e),
                Ok((vs, ws)) => Ok((seq![v as i32] + vs, w + ws)),
            },
        }
    }
}

/// A variable-length count at the start of `s`, followed by that many
/// variable-length 32-bit integers.
pub open spec fn varint_array(s: Seq<u8>) -> Result<(Seq<i32>, int), ReadError> {
    match decode_varint(s, i32::MIN as int, i32::MAX as int) {
        Err(e) => Err(e),
        Ok((count, w)) => match varint_run(s.skip(w), count) {
            Err(e) => Err(e),
            Ok((vs, ws)) => Ok((vs, w + ws)),
        },
    }
}

/// `byteorder::BigEndian::read_u16`: the first two bytes of `buf` as a
/// big-endian number. The outside function panics on a shorter slice.
#[verifier::external_body]
pub(crate) fn be_read_u16(buf: &[u8]) -> (v: u16)
    requires
        buf@.len() >= 2,
    ensures
        v as nat == be_value(buf@.subrange(0, 2)),
{
    BigEndian::read_u16(buf)
}

/// `byteorder::BigEndian::read_u32`: the first four bytes of `buf` as a
/// big-endian number. The outside function panics on a shorter slice.
#[verifier::external_body]
pub(crate) fn be_read_u32(buf: &[u8]) -> (v: u32)
    requires
        buf@.len() >= 4,
    ensures
        v as nat == be_value(buf@.subrange(0, 4)),
{
    BigEndian::read_u32(buf)
}

/// `byteorder::BigEndian::read_u64`: the first eight bytes of `buf` as a
/// big-endian number. The outside function panics on a shorter slice.
#[verifier::external_body]
pub(crate) fn be_read_u64(buf: &[u8]) -> (v: u64)
    requires
        buf@.len() >= 8,
    ensures
        v as nat == be_value(buf@.subrange(0, 8)),
{
    BigEndian::read_u64(buf)
}

/// `String::from_utf8`: the string that `bytes` encode, or nothing when they
/// are not valid UTF-8.
#[verifier::external_body]
fn string_from_utf8(bytes: Vec<u8>) -> (r: Option<String>)
    ensures
        match r {
            Some(s) => valid_utf8(bytes@) && s@ == decode_utf8(bytes@),
            None => !valid_utf8(bytes@),
        },
{
    String::from_utf8(bytes).ok()
}

/// An owned byte sequence with a read cursor that never passes its end.
#[derive(Debug, PartialEq, Eq)]
pub struct ByteBuffer {
    bytes: Vec<u8>,
    index: usize,
}

impl View for ByteBuffer {
    type V = Seq<u8>;

    /// All bytes of the buffer, read or not.
    closed spec fn view(&self) -> Seq<u8> {
        self.bytes@
    }
}

impl ByteBuffer {
    /// The cursor never stands beyond the end.
    #[verifier::type_invariant]
    spec fn cursor_in_bounds(self) -> bool {
        self.index <= self.bytes@.len()
    }

    /// The position of the read cursor.
    pub closed spec fn spec_index(&self) -> int {
        self.index as int
    }

    /// The bytes after the cursor.
    pub open spec fn remaining(&self) -> Seq<u8> {
        self@.skip(self.spec_index())
    }

    /// Construct a buffer over `bytes` with the cursor at the start.
    pub fn new(bytes: Vec<u8>) -> (buf: Self)
        ensures
            buf@ == bytes@,
            buf.spec_index() == 0,
    {
        ByteBuffer { bytes, index: 0 }
    }

    /// The position of the read cursor, which is at most the buffer's length.
    pub fn index(&self) -> (i: usize)
        ensures
            i == self.spec_index(),
            i <= self@.len(),
    {
        proof {
            use_type_invariant(self);
        }
        self.index
    }

    /// Whether this buffer holds the bytes of `pre` with the cursor `n`
    /// bytes further on.
    pub open spec fn moved(&self, pre: ByteBuffer, n: int) -> bool {
        self@ == pre@ && self.spec_index() == pre.spec_index() + n
    }

    /// Put the cursor back at the start.
    pub fn reset(self) -> (buf: Self)
        ensures
            buf@ == self@,
            buf.spec_index() == 0,
    {
        ByteBuffer { bytes: self.bytes, index: 0 }
    }

    /// Return the next `n` bytes and move the cursor past them.
    pub fn read_n_bytes(&mut self, n: usize) -> (r: Result<&[u8], ReadError>)
        ensures
            match r {
                Ok(s) => peek_bytes(old(self)@, old(self).spec_index(), n as int) == Some(s@)
                    && final(self).moved(*old(self), n as int),
                Err(e) => e == ReadError::ShortRead && peek_bytes(
                    old(self)@,
                    old(self).spec_index(),
                    n as int,
                ) is None && final(self).moved(*old(self), 0),
            },
    {
        proof {
            use_type_invariant(&*self);
        }
        if n > self.bytes.len() - self.index {
            return Err(ReadError::ShortRead);
        }
        let start: usize = self.index;
        self.index = start + n;
        Ok(slice_subrange(self.bytes.as_slice(), start, start + n))
    }

    /// Return the next `n` bytes without moving the cursor.
    pub fn read_n_bytes_static(&self, n: usize) -> (r: Result<&[u8], ReadError>)
        ensures
            match r {
                Ok(s) => peek_bytes(self@, self.spec_index(), n as int) == Some(s@),
                Err(e) => e == ReadError::ShortRead && peek_bytes(
                    self@,
                    self.spec_index(),
                    n as int,
                ) is None,
            },
    {
        proof {
            use_type_invariant(self);
        }
        if n > self.bytes.len() - self.index {
            return Err(ReadError::ShortRead);
        }
        Ok(slice_subrange(self.bytes.as_slice(), self.index, self.index + n))
    }

    /// Put the cursor at `index`. Fails, leaving the cursor where it was,
    /// when `index` lies beyond the end.
    pub fn seek(&mut self, index: usize) -> (r: Result<(), ReadError>)
        ensures
            final(self)@ == old(self)@,
            match r {
                Ok(_) => index <= old(self)@.len() && final(self).spec_index() == index,
                Err(e) => e == ReadError::ShortRead && index > old(self)@.len()
                    && final(self).spec_index() == old(self).spec_index(),
            },
    {
        if index > self.bytes.len() {
            return Err(ReadError::ShortRead);
        }
        self.index = index;
        Ok(())
    }

    /// Move the cursor `n` bytes on; the caller has seen that many ahead.
    fn advance(&mut self, n: usize)
        requires
            old(self).spec_index() + n <= old(self)@.len(),
        ensures
            final(self).moved(*old(self), n as int),
    {
        let len: usize = self.bytes.len();
        self.index = self.index + n;
    }

    /// Read the next byte and move the cursor past it.
    pub fn read_u8(&mut self) -> (r: Result<u8, ReadError>)
        ensures
            match r {
                Ok(v) => uint_at(old(self)@, old(self).spec_index(), 1) == Some(v as nat)
                    && final(self).moved(*old(self), 1),
                Err(e) => e == ReadError::ShortRead && uint_at(
                    old(self)@,
                    old(self).spec_index(),
                    1,
                ) is None && final(self).moved(*old(self), 0),
            },
    {
        match self.read_u8_static() {
            Ok(v) => {
                self.advance(1);
                Ok(v)
            },
            Err(e) => Err(e),
        }
    }

    /// Read the next byte without moving the cursor.
    pub fn read_u8_static(&self) -> (r: Result<u8, ReadError>)
        ensures
            match r {
                Ok(v) => uint_at(self@, self.spec_index(), 1) == Some(v as nat),
                Err(e) => e == ReadError::ShortRead && uint_at(self@, self.spec_index(), 1) is None,
            },
    {
        match self.read_n_bytes_static(1) {
            Ok(window) => {
                proof {
                    reveal_with_fuel(be_value, 2);
                    assert(window@.drop_last().len() == 0);
                }
                Ok(window[0])
            },
            Err(e) => Err(e),
        }
    }

    /// Read the next two bytes as a big-endian number and move the cursor past them.
    pub fn read_u16(&mut self) -> (r: Result<u16, ReadError>)
        ensures
            match r {
                Ok(v) => uint_at(old(self)@, old(self).spec_index(), 2) == Some(v as nat)
                    && final(self).moved(*old(self), 2),
                Err(e) => e == ReadError::ShortRead && uint_at(
                    old(self)@,
                    old(self).spec_index(),
                    2,
                ) is None && final(self).moved(*old(self), 0),
            },
    {
        match self.read_u16_static() {
            Ok(v) => {
                self.advance(2);
                Ok(v)
            },
            Err(e) => Err(e),
        }
    }

    /// Read the next two bytes as a big-endian number without moving the cursor.
    pub fn read_u16_static(&self) -> (r: Result<u16, ReadError>)
        ensures
            match r {
                Ok(v) => uint_at(self@, self.spec_index(), 2) == Some(v as nat),
                Err(e) => e == ReadError::ShortRead && uint_at(self@, self.spec_index(), 2) is None,
            },
    {
        match self.read_n_bytes_static(2) {
            Ok(window) => {
                assert(window@.subrange(0, 2) =~= window@);
                Ok(be_read_u16(window))
            },
            Err(e) => Err(e),
        }
    }

    /// Read the next four bytes as a big-endian number and move the cursor past them.
    pub fn read_u32(&mut self) -> (r: Result<u32, ReadError>)
        ensures
            match r {
                Ok(v) => uint_at(old(self)@, old(self).spec_index(), 4) == Some(v as nat)
                    && final(self).moved(*old(self), 4),
                Err(e) => e == ReadError::ShortRead && uint_at(
                    old(self)@,
                    old(self).spec_index(),
                    4,
                ) is None && final(self).moved(*old(self), 0),
            },
    {
        match self.read_u32_static() {
            Ok(v) => {
                self.advance(4);
                Ok(v)
            },
            Err(e) => Err(e),
        }
    }

    /// Read the next four bytes as a big-endian number without moving the cursor.
    pub fn read_u32_static(&self) -> (r: Result<u32, ReadError>)
        ensures
            match r {
                Ok(v) => uint_at(self@, self.spec_index(), 4) == Some(v as nat),
                Err(e) => e == ReadError::ShortRead && uint_at(self@, self.spec_index(), 4) is None,
            },
    {
        match self.read_n_bytes_static(4) {
            Ok(window) => {
                assert(window@.subrange(0, 4) =~= window@);
                Ok(be_read_u32(window))
            },
            Err(e) => Err(e),
        }
    }

    /// Read the next eight bytes as a big-endian number and move the cursor past them.
    pub fn read_u64(&mut self) -> (r: Result<u64, ReadError>)
        ensures
            match r {
                Ok(v) => uint_at(old(self)@, old(self).spec_index(), 8) == Some(v as nat)
                    && final(self).moved(*old(self), 8),
                Err(e) => e == ReadError::ShortRead && uint_at(
                    old(self)@,
                    old(self).spec_index(),
                    8,
                ) is None && final(self).moved(*old(self), 0),
            },
    {
        match self.read_u64_static() {
            Ok(v) => {
                self.advance(8);
                Ok(v)
            },
            Err(e) => Err(e),
        }
    }

    /// Read the next eight bytes as a big-endian number without moving the cursor.
    pub fn read_u64_static(&self) -> (r: Result<u64, ReadError>)
        ensures
            match r {
                Ok(v) => uint_at(self@, self.spec_index(), 8) == Some(v as nat),
                Err(e) => e == ReadError::ShortRead && uint_at(self@, self.spec_index(), 8) is None,
            },
    {
        match self.read_n_bytes_static(8) {
            Ok(window) => {
                assert(window@.subrange(0, 8) =~= window@);
                Ok(be_read_u64(window))
            },
            Err(e) => Err(e),
        }
    }

    /// Read the next four bytes as the bit pattern of a big-endian IEEE-754
    /// single and move the cursor past them. The number itself is
    /// `f32::from_bits` of the result.
    pub fn read_f32(&mut self) -> (r: Result<u32, ReadError>)
        ensures
            match r {
                Ok(v) => uint_at(old(self)@, old(self).spec_index(), 4) == Some(v as nat)
                    && final(self).moved(*old(self), 4),
                Err(e) => e == ReadError::ShortRead && uint_at(
                    old(self)@,
                    old(self).spec_index(),
                    4,
                ) is None && final(self).moved(*old(self), 0),
            },
    {
        self.read_u32()
    }

    /// Read the next four bytes as the bit pattern of a big-endian IEEE-754
    /// single without moving the cursor.
    pub fn read_f32_static(&self) -> (r: Result<u32, ReadError>)
        ensures
            match r {
                Ok(v) => uint_at(self@, self.spec_index(), 4) == Some(v as nat),
                Err(e) => e == ReadError::ShortRead && uint_at(self@, self.spec_index(), 4) is None,
            },
    {
        self.read_u32_static()
    }

    /// Read the next byte as a truth value, any byte but zero being true, and
    /// move the cursor past it.
    pub fn read_bool(&mut self) -> (r: Result<bool, ReadError>)
        ensures
            match r {
                Ok(b) => uint_at(old(self)@, old(self).spec_index(), 1) == Some(
                    old(self)@[old(self).spec_index()] as nat,
                ) && b == (old(self)@[old(self).spec_index()] != 0) && final(self).moved(
                    *old(self),
                    1,
                ),
                Err(e) => e == ReadError::ShortRead && uint_at(
                    old(self)@,
                    old(self).spec_index(),
                    1,
                ) is None && final(self).moved(*old(self), 0),
            },
    {
        match self.read_bool_static() {
            Ok(b) => {
                self.advance(1);
                Ok(b)
            },
            Err(e) => Err(e),
        }
    }

    /// Read the next byte as a truth value without moving the cursor.
    pub fn read_bool_static(&self) -> (r: Result<bool, ReadError>)
        ensures
            match r {
                Ok(b) => uint_at(self@, self.spec_index(), 1) == Some(
                    self@[self.spec_index()] as nat,
                ) && b == (self@[self.spec_index()] != 0),
                Err(e) => e == ReadError::ShortRead && uint_at(self@, self.spec_index(), 1) is None,
            },
    {
        match self.read_n_bytes_static(1) {
            Ok(window) => {
                proof {
                    reveal_with_fuel(be_value, 2);
                    assert(window@.drop_last().len() == 0);
                }
                Ok(window[0] != 0)
            },
            Err(e) => Err(e),
        }
    }

    /// The string at the cursor and the width of its field.
    fn peek_string(&self) -> (r: Result<(String, usize), ReadError>)
        ensures
            match string_at(self@, self.spec_index()) {
                Ok((chars, width)) => r is Ok && r->Ok_0.0@ == chars && r->Ok_0.1 == width
                    && self.spec_index() + width <= self@.len(),
                Err(e) => r is Err && r->Err_0 == e,
            },
    {
        proof {
            use_type_invariant(self);
        }
        let length: usize = match self.read_u16_static() {
            Ok(n) => n as usize,
            Err(e) => {
                return Err(e);
            },
        };
        if length > self.bytes.len() - self.index - 2 {
            return Err(ReadError::ShortRead);
        }
        let start: usize = self.index + 2;
        let raw: Vec<u8> = slice_to_vec(
            slice_subrange(self.bytes.as_slice(), start, start + length),
        );
        match string_from_utf8(raw) {
            Some(text) => Ok((text, 2 + length)),
            None => Err(ReadError::InvalidUtf8),
        }
    }

    /// Read a length-prefixed UTF-8 string and move the cursor past it. On
    /// failure the cursor stays where it was.
    pub fn read_string(&mut self) -> (r: Result<String, ReadError>)
        ensures
            match string_at(old(self)@, old(self).spec_index()) {
                Ok((chars, width)) => r is Ok && r->Ok_0@ == chars && final(self).moved(
                    *old(self),
                    width,
                ),
                Err(e) => r == Err::<String, ReadError>(e) && final(self).moved(*old(self), 0),
            },
    {
        match self.peek_string() {
            Ok((text, width)) => {
                self.advance(width);
                Ok(text)
            },
            Err(e) => Err(e),
        }
    }

    /// Read a length-prefixed UTF-8 string without moving the cursor.
    pub fn read_string_static(&self) -> (r: Result<String, ReadError>)
        ensures
            match string_at(self@, self.spec_index()) {
                Ok((chars, width)) => r is Ok && r->Ok_0@ == chars,
                Err(e) => r == Err::<String, ReadError>(e),
            },
    {
        match self.peek_string() {
            Ok((text, _)) => Ok(text),
            Err(e) => Err(e),
        }
    }

    /// The variable-length integer at the cursor, if it lies within
    /// `min..=max`, and its width.
    fn peek_compressed(&self, min: i64, max: i64) -> (r: Result<(i64, usize), ReadError>)
        ensures
            match decode_varint(self.remaining(), min as int, max as int) {
                Ok((v, width)) => r is Ok && r->Ok_0.0 == v && r->Ok_0.1 == width && 1 <= width
                    && self.spec_index() + width <= self@.len(),
                Err(e) => r is Err && r->Err_0 == e,
            },
    {
        proof {
            use_type_invariant(self);
        }
        let rest: &[u8] = slice_subrange(self.bytes.as_slice(), self.index, self.bytes.len());
        proof {
            assert(rest@ =~= self.remaining());
            lemma_varint_width_bounds(rest@);
        }
        match scan_varint(rest) {
            Ok((v, width)) => {
                if v < min || v > max {
                    Err(ReadError::BadVarint)
                } else {
                    Ok((v, width))
                }
            },
            Err(e) => Err(e),
        }
    }

    /// Read a variable-length signed integer of up to 64 bits and move the
    /// cursor past it. On failure the cursor stays where it was.
    pub fn read_compressed_i64(&mut self) -> (r: Result<i64, ReadError>)
        ensures
            match decode_varint(old(self).remaining(), i64::MIN as int, i64::MAX as int) {
                Ok((v, width)) => r == Ok::<i64, ReadError>(v as i64) && final(self).moved(
                    *old(self),
                    width,
                ),
                Err(e) => r == Err::<i64, ReadError>(e) && final(self).moved(*old(self), 0),
            },
    {
        match self.peek_compressed(i64::MIN, i64::MAX) {
            Ok((v, width)) => {
                self.advance(width);
                Ok(v)
            },
            Err(e) => Err(e),
        }
    }

    /// Read a variable-length signed integer of up to 64 bits without moving
    /// the cursor.
    pub fn read_compressed_i64_static(&self) -> (r: Result<i64, ReadError>)
        ensures
            match decode_varint(self.remaining(), i64::MIN as int, i64::MAX as int) {
                Ok((v, width)) => r == Ok::<i64, ReadError>(v as i64),
                Err(e) => r == Err::<i64, ReadError>(e),
            },
    {
        match self.peek_compressed(i64::MIN, i64::MAX) {
            Ok((v, _)) => Ok(v),
            Err(e) => Err(e),
        }
    }

    /// Read a variable-length signed integer of up to 32 bits and move the
    /// cursor past it. A value that needs more bits is a `BadVarint`. On
    /// failure the cursor stays where it was.
    pub fn read_compressed_i32(&mut self) -> (r: Result<i32, ReadError>)
        ensures
            match decode_varint(old(self).remaining(), i32::MIN as int, i32::MAX as int) {
                Ok((v, width)) => r == Ok::<i32, ReadError>(v as i32) && final(self).moved(
                    *old(self),
                    width,
                ),
                Err(e) => r == Err::<i32, ReadError>(e) && final(self).moved(*old(self), 0),
            },
    {
        match self.peek_compressed(i32::MIN as i64, i32::MAX as i64) {
            Ok((v, width)) => {
                self.advance(width);
                Ok(v as i32)
            },
            Err(e) => Err(e),
        }
    }

    /// Read a variable-length signed integer of up to 32 bits without moving
    /// the cursor.
    pub fn read_compressed_i32_static(&self) -> (r: Result<i32, ReadError>)
        ensures
            match decode_varint(self.remaining(), i32::MIN as int, i32::MAX as int) {
                Ok((v, width)) => r == Ok::<i32, ReadError>(v as i32),
                Err(e) => r == Err::<i32, ReadError>(e),
            },
    {
        match self.peek_compressed(i32::MIN as i64, i32::MAX as i64) {
            Ok((v, _)) => Ok(v as i32),
            Err(e) => Err(e),
        }
    }

    /// The counted run of variable-length integers at the cursor, and the
    /// width of the whole field.
    fn peek_compressed_i32_vec(&self) -> (r: Result<(Vec<i32>, usize), ReadError>)
        ensures
            match varint_array(self.remaining()) {
                Ok((values, width)) => r is Ok && r->Ok_0.0@ == values && r->Ok_0.1 == width
                    && self.spec_index() + width <= self@.len(),
                Err(e) => r is Err && r->Err_0 == e,
            },
    {
        proof {
            use_type_invariant(self);
        }
        let rest: &[u8] = slice_subrange(self.bytes.as_slice(), self.index, self.bytes.len());
        proof {
            assert(rest@ =~= self.remaining());
            lemma_varint_width_bounds(rest@);
        }
        let (count, first) = match scan_varint(rest) {
            Ok((n, width)) => {
                if n < i32::MIN as i64 || n > i32::MAX as i64 {
                    return Err(ReadError::BadVarint);
                }
                (n, width)
            },
            Err(e) => {
                return Err(e);
            },
        };
        let mut values: Vec<i32> = Vec::new();
        let mut pos: usize = first;
        let mut k: i64 = 0;
        while k < count
            invariant
                0 <= k,
                k <= count || count < 0,
                i32::MIN <= count <= i32::MAX,
                first <= pos <= rest@.len(),
                rest@ == self.remaining(),
                rest@.len() + self.spec_index() == self@.len(),
                varint_array(rest@) == match varint_run(rest@.skip(first as int), count as int) {
                    Ok((vs, ws)) => Ok::<(Seq<i32>, int), ReadError>((vs, first + ws)),
                    Err(e) => Err(e),
                },
                varint_run(rest@.skip(first as int), count as int) == match varint_run(
                    rest@.skip(pos as int),
                    count - k,
                ) {
                    Ok((vs, ws)) => Ok::<(Seq<i32>, int), ReadError>(
                        (values@ + vs, pos - first + ws),
                    ),
                    Err(e) => Err(e),
                },
            decreases count - k,
        {
            let tail: &[u8] = slice_subrange(rest, pos, rest.len());
            let ghost taken = values@;
            proof {
                assert(tail@ =~= rest@.skip(pos as int));
                lemma_varint_width_bounds(tail@);
            }
            match scan_varint(tail) {
                Ok((v, width)) => {
                    if v < i32::MIN as i64 || v > i32::MAX as i64 {
                        return Err(ReadError::BadVarint);
                    }
                    values.push(v as i32);
                    proof {
                        assert(tail@.skip(width as int) =~= rest@.skip(pos + width));
                        match varint_run(rest@.skip(pos + width), count - k - 1) {
                            Ok((vs, ws)) => {
                                assert(taken + (seq![v as i32] + vs) =~= values@ + vs);
                            },
                            Err(e) => {},
                        }
                    }
                    pos = pos + width;
                },
                Err(e) => {
                    return Err(e);
                },
            }
            k = k + 1;
        }
        proof {
            assert(values@ + Seq::<i32>::empty() =~= values@);
        }
        Ok((values, pos))
    }

    /// Read a variable-length count and then that many variable-length 32-bit
    /// integers, and move the cursor past them all. A count below one gives
    /// an empty vector. On failure the cursor stays where it was.
    pub fn read_compressed_i32_vec(&mut self) -> (r: Result<Vec<i32>, ReadError>)
        ensures
            match varint_array(old(self).remaining()) {
                Ok((values, width)) => r is Ok && r->Ok_0@ == values && final(self).moved(
                    *old(self),
                    width,
                ),
                Err(e) => r == Err::<Vec<i32>, ReadError>(e) && final(self).moved(*old(self), 0),
            },
    {
        match self.peek_compressed_i32_vec() {
            Ok((values, width)) => {
                self.advance(width);
                Ok(values)
            },
            Err(e) => Err(e),
        }
    }

    /// Read a variable-length count and then that many variable-length 32-bit
    /// integers without moving the cursor.
    pub fn read_compressed_i32_vec_static(&self) -> (r: Result<Vec<i32>, ReadError>)
        ensures
            match varint_array(self.remaining()) {
                Ok((values, width)) => r is Ok && r->Ok_0@ == values,
                Err(e) => r == Err::<Vec<i32>, ReadError>(e),
            },
    {
        match self.peek_compressed_i32_vec() {
            Ok((values, _)) => Ok(values),
            Err(e) => Err(e),
        }
    }

    /// All bytes of the buffer, read or not.
    pub fn as_slice(&self) -> (s: &[u8])
        ensures
            s@ == self@,
    {
        self.bytes.as_slice()
    }

    /// A copy of all bytes of the buffer, read or not.
    pub fn to_vec(&self) -> (v: Vec<u8>)
        ensures
            v@ == self@,
    {
        slice_to_vec(self.bytes.as_slice())
    }

    /// A copy of the bytes after the cursor.
    pub fn rem_to_vec(&self) -> (v: Vec<u8>)
        ensures
            v@ == self.remaining(),
    {
        proof {
            use_type_invariant(self);
        }
        let rest: &[u8] = slice_subrange(self.bytes.as_slice(), self.index, self.bytes.len());
        assert(rest@ =~= self.remaining());
        slice_to_vec(rest)
    }

    /// The number of bytes in the buffer, read or not.
    pub fn len(&self) -> (n: usize)
        ensures
            n == self@.len(),
    {
        self.bytes.len()
    }

    /// The number of bytes after the cursor.
    pub fn rem_len(&self) -> (n: usize)
        ensures
            n == self@.len() - self.spec_index(),
            n == self.remaining().len(),
    {
        proof {
            use_type_invariant(self);
        }
        self.bytes.len() - self.index
    }
}

impl Clone for ByteBuffer {
    fn clone(&self) -> (copy: Self)
        ensures
            copy@ == self@,
            copy.spec_index() == self.spec_index(),
    {
        proof {
            use_type_invariant(self);
        }
        ByteBuffer { bytes: slice_to_vec(self.bytes.as_slice()), index: self.index }
    }
}

/// Reading `n` bytes and then looking at the next `m` sees exactly what
/// looking at `n + m` bytes sees, cut in two after the first `n`; and the
/// longer look fails just when one of the two shorter steps does.
pub proof fn lemma_read_then_peek(bytes: Seq<u8>, index: int, n: int, m: int)
    requires
        0 <= index,
        0 <= n,
        0 <= m,
    ensures
        match peek_bytes(bytes, index, n + m) {
            Some(window) => peek_bytes(bytes, index, n) == Some(window.take(n)) && peek_bytes(
                bytes,
                index + n,
                m,
            ) == Some(window.skip(n)),
            None => peek_bytes(bytes, index, n) is None || peek_bytes(bytes, index + n, m) is None,
        },
{
    match peek_bytes(bytes, index, n + m) {
        Some(window) => {
            assert(bytes.subrange(index, index + n) =~= window.take(n));
            assert(bytes.subrange(index + n, index + n + m) =~= window.skip(n));
        },
        None => {},
    }
}

} // verus!
