//! The byte cursor over a decompressed machine-code file.
//!
//! A sequential, peekable reader with bounds-checked advancement and
//! fixed-width reads: payload integers are little-endian, pool indices and
//! debug-range addresses are big-endian compositions of one to four bytes.
use vstd::prelude::*;

use crate::errors::DumpError;
use crate::fio::{gunzip, gunzip_of};
use crate::text::{chars_of, push_byte_chars};

verus! {

/// The value of `w` little-endian bytes of `s` starting at `i`.
pub open spec fn le_bytes_val(s: Seq<u8>, i: int, w: nat) -> int
    decreases w,
{
    if w == 0 {
        0
    } else {
        s[i] + 0x100 * le_bytes_val(s, i + 1, (w - 1) as nat)
    }
}

/// The value of `w` big-endian bytes of `s` starting at `i`.
pub open spec fn be_bytes_val(s: Seq<u8>, i: int, w: nat) -> int
    decreases w,
{
    if w == 0 {
        0
    } else {
        0x100 * be_bytes_val(s, i, (w - 1) as nat) + s[i + w - 1]
    }
}

/// 256 to the power `w`.
pub open spec fn pow256(w: nat) -> nat
    decreases w,
{
    if w == 0 {
        1
    } else {
        0x100 * pow256((w - 1) as nat)
    }
}

/// The cursor: a decompressed byte buffer, a read position, and the two
/// variable index widths declared by the file (pool indices and debug-range
/// addresses).
#[derive(Debug)]
pub struct KSMFileReader {
    pub current_index: usize,
    pub contents: Vec<u8>,
    pub arg_address_bytes: u8,
    pub debug_range_bytes: u8,
}

impl KSMFileReader {
    /// The read position never passes the end of the buffer.
    pub open spec fn wf(&self) -> bool {
        self.current_index <= self.contents@.len()
    }

    /// The widths and buffer of `self` equal those of `other`; only the read
    /// position may differ.
    pub open spec fn same_source(&self, other: &Self) -> bool {
        &&& self.contents == other.contents
        &&& self.arg_address_bytes == other.arg_address_bytes
        &&& self.debug_range_bytes == other.debug_range_bytes
    }

    /// Creates a reader over the gzip-decompressed content of the raw file
    /// bytes, positioned at the start.
    pub fn new(raw_contents: Vec<u8>) -> (r: Result<KSMFileReader, DumpError>)
        ensures
            r is Ok <==> gunzip_of(raw_contents@) is Some,
            r matches Ok(reader) ==> {
                &&& Some(reader.contents@) == gunzip_of(raw_contents@)
                &&& reader.current_index == 0
                &&& reader.arg_address_bytes == 0
                &&& reader.debug_range_bytes == 0
                &&& reader.wf()
            },
            r matches Err(e) ==> e == DumpError::UnexpectedEndOfInput,
    {
        let decompressed = gunzip(&raw_contents)?;
        Ok(
            KSMFileReader {
                current_index: 0,
                contents: decompressed,
                arg_address_bytes: 0,
                debug_range_bytes: 0,
            },
        )
    }

    /// Creates a reader over bytes that are already decompressed (or were
    /// never compressed), positioned at the start.
    pub fn from_bytes(contents: Vec<u8>) -> (r: KSMFileReader)
        ensures
            r.contents == contents,
            r.current_index == 0,
            r.arg_address_bytes == 0,
            r.debug_range_bytes == 0,
            r.wf(),
    {
        KSMFileReader { current_index: 0, contents, arg_address_bytes: 0, debug_range_bytes: 0 }
    }

    /// Declares the width in bytes of a pool index.
    pub fn set_address_bytes(&mut self, address_bytes: u8)
        ensures
            final(self).arg_address_bytes == address_bytes,
            final(self).contents == old(self).contents,
            final(self).current_index == old(self).current_index,
            final(self).debug_range_bytes == old(self).debug_range_bytes,
    {
        self.arg_address_bytes = address_bytes;
    }

    /// The declared width in bytes of a pool index.
    pub fn get_address_bytes(&self) -> (r: u8)
        ensures
            r == self.arg_address_bytes,
    {
        self.arg_address_bytes
    }

    /// Declares the width in bytes of a debug-range address.
    pub fn set_range_bytes(&mut self, range_bytes: u8)
        ensures
            final(self).debug_range_bytes == range_bytes,
            final(self).contents == old(self).contents,
            final(self).current_index == old(self).current_index,
            final(self).arg_address_bytes == old(self).arg_address_bytes,
    {
        self.debug_range_bytes = range_bytes;
    }

    /// The declared width in bytes of a debug-range address.
    pub fn get_range_bytes(&self) -> (r: u8)
        ensures
            r == self.debug_range_bytes,
    {
        self.debug_range_bytes
    }

    /// The current read position in the buffer.
    pub fn get_current_index(&self) -> (r: usize)
        ensures
            r == self.current_index,
    {
        self.current_index
    }

    /// True iff the cursor has consumed the whole buffer.
    pub fn eof(&self) -> (r: bool)
        ensures
            r == (self.current_index >= self.contents@.len()),
    {
        self.current_index >= self.contents.len()
    }

    /// Discards the next `bytes` bytes; fails where fewer remain. On
    /// failure the cursor is left clamped at the end of the buffer rather
    /// than past it, so that the read position never exceeds the buffer;
    /// parsing aborts on the error either way.
    pub fn pop(&mut self, bytes: usize) -> (r: Result<(), DumpError>)
        requires
            old(self).wf(),
        ensures
            final(self).wf(),
            final(self).same_source(old(self)),
            r is Ok <==> old(self).current_index + bytes <= old(self).contents@.len(),
            r is Ok ==> final(self).current_index == old(self).current_index + bytes,
            r matches Err(e) ==> e == DumpError::UnexpectedEndOfInput && final(self).current_index
                == final(self).contents@.len(),
    {
        if bytes <= self.contents.len() - self.current_index {
            self.current_index = self.current_index + bytes;
            Ok(())
        } else {
            self.current_index = self.contents.len();
            Err(DumpError::UnexpectedEndOfInput)
        }
    }

    /// Reads and returns the next byte, advancing by one.
    pub fn next(&mut self) -> (r: Result<u8, DumpError>)
        requires
            old(self).wf(),
        ensures
            final(self).wf(),
            final(self).same_source(old(self)),
            r is Ok <==> old(self).current_index < old(self).contents@.len(),
            r matches Ok(b) ==> b == old(self).contents@[old(self).current_index as int] && final(self).current_index == old(self).current_index + 1,
            r matches Err(e) ==> e == DumpError::UnexpectedEndOfInput && final(self).current_index
                == old(self).current_index,
    {
        if self.current_index < self.contents.len() {
            let b = self.contents[self.current_index];
            self.current_index = self.current_index + 1;
            Ok(b)
        } else {
            Err(DumpError::UnexpectedEndOfInput)
        }
    }

    /// Reads the next `count` bytes into a vector.
    pub fn next_count(&mut self, count: usize) -> (r: Result<Vec<u8>, DumpError>)
        requires
            old(self).wf(),
        ensures
            final(self).wf(),
            final(self).same_source(old(self)),
            r is Ok <==> old(self).current_index + count <= old(self).contents@.len(),
            r matches Ok(v) ==> {
                &&& v@ == old(self).contents@.subrange(
                    old(self).current_index as int,
                    old(self).current_index + count,
                )
                &&& final(self).current_index == old(self).current_index + count
            },
            r matches Err(e) ==> e == DumpError::UnexpectedEndOfInput && final(self).current_index
                == old(self).current_index,
    {
        if count > self.contents.len() - self.current_index {
            return Err(DumpError::UnexpectedEndOfInput);
        }
        let mut read_bytes: Vec<u8> = Vec::new();
        let start = self.current_index;
        let mut i: usize = 0;
        while i < count
            invariant
                self.wf(),
                start + count <= self.contents@.len(),
                start + count <= usize::MAX,
                i <= count,
                self.current_index == start + i,
                self.same_source(old(self)),
                read_bytes@ == self.contents@.subrange(start as int, start + i),
            decreases count - i,
        {
            let b = self.contents[self.current_index];
            read_bytes.push(b);
            self.current_index = self.current_index + 1;
            i = i + 1;
            assert(read_bytes@ =~= self.contents@.subrange(start as int, start + i));
        }
        Ok(read_bytes)
    }

    /// Returns the next byte without advancing.
    pub fn peek(&self) -> (r: Result<u8, DumpError>)
        ensures
            r is Ok <==> self.current_index < self.contents@.len(),
            r matches Ok(b) ==> b == self.contents@[self.current_index as int],
            r matches Err(e) ==> e == DumpError::UnexpectedEndOfInput,
    {
        if self.current_index < self.contents.len() {
            Ok(self.contents[self.current_index])
        } else {
            Err(DumpError::UnexpectedEndOfInput)
        }
    }

    /// Returns the next `count` bytes without advancing.
    pub fn peek_count(&mut self, count: usize) -> (r: Result<Vec<u8>, DumpError>)
        requires
            old(self).wf(),
        ensures
            *final(self) == *old(self),
            r is Ok <==> old(self).current_index + count <= old(self).contents@.len(),
            r matches Ok(v) ==> v@ == old(self).contents@.subrange(
                old(self).current_index as int,
                old(self).current_index + count,
            ),
            r matches Err(e) ==> e == DumpError::UnexpectedEndOfInput,
    {
        if count > self.contents.len() - self.current_index {
            return Err(DumpError::UnexpectedEndOfInput);
        }
        let mut peeked: Vec<u8> = Vec::new();
        let start = self.current_index;
        let mut i: usize = 0;
        while i < count
            invariant
                *self == *old(self),
                start == self.current_index,
                start + count <= self.contents@.len(),
                start + count <= usize::MAX,
                i <= count,
                peeked@ == self.contents@.subrange(start as int, start + i),
            decreases count - i,
        {
            let b = self.contents[start + i];
            peeked.push(b);
            i = i + 1;
            assert(peeked@ =~= self.contents@.subrange(start as int, start + i));
        }
        Ok(peeked)
    }

    /// Reads `bytes` bytes (one to four) composed big-endian into a `u32`.
    /// More than four bytes is a malformed width.
    pub fn read_bytes_into_u32(&mut self, bytes: u8) -> (r: Result<u32, DumpError>)
        requires
            old(self).wf(),
            bytes != 0,
        ensures
            final(self).wf(),
            final(self).same_source(old(self)),
            bytes > 4 ==> r == Err::<u32, DumpError>(DumpError::MalformedSectionStructure)
                && *final(self) == *old(self),
            bytes <= 4 ==> ((r is Ok <==> old(self).current_index + bytes <= old(self).contents@.len()) && (r matches Err(e) ==> e == DumpError::UnexpectedEndOfInput)),
            r matches Ok(v) ==> {
                &&& v == be_bytes_val(
                    old(self).contents@,
                    old(self).current_index as int,
                    bytes as nat,
                )
                &&& final(self).current_index == old(self).current_index + bytes
            },
    {
        if bytes > 4 {
            return Err(DumpError::MalformedSectionStructure);
        }
        let w = bytes as usize;
        if w > self.contents.len() - self.current_index {
            self.current_index = self.contents.len();
            return Err(DumpError::UnexpectedEndOfInput);
        }
        let start = self.current_index;
        let mut acc: u32 = 0;
        let mut i: usize = 0;
        proof {
            reveal_with_fuel(pow256, 5);
        }
        while i < w
            invariant
                self.wf(),
                w <= 4,
                start + w <= self.contents@.len(),
                start + w <= usize::MAX,
                i <= w,
                self.current_index == start + i,
                self.same_source(old(self)),
                acc == be_bytes_val(self.contents@, start as int, i as nat),
                acc < pow256(i as nat),
                pow256(4) == 0x100000000,
            decreases w - i,
        {
            proof {
                reveal_with_fuel(pow256, 5);
                assert(pow256((i + 1) as nat) == 0x100 * pow256(i as nat));
                assert(pow256(i as nat) <= 0x1000000);
            }
            let b = self.contents[self.current_index];
            acc = acc * 0x100 + (b as u32);
            self.current_index = self.current_index + 1;
            i = i + 1;
        }
        Ok(acc)
    }

    /// Reads a pool index: `arg_address_bytes` bytes composed big-endian.
    pub fn read_argument_address(&mut self) -> (r: Result<u32, DumpError>)
        requires
            old(self).wf(),
            1 <= old(self).arg_address_bytes <= 4,
        ensures
            final(self).wf(),
            final(self).same_source(old(self)),
            r is Ok <==> old(self).current_index + old(self).arg_address_bytes <= old(self).contents@.len(),
            r matches Ok(v) ==> {
                &&& v == be_bytes_val(
                    old(self).contents@,
                    old(self).current_index as int,
                    old(self).arg_address_bytes as nat,
                )
                &&& final(self).current_index == old(self).current_index + old(self).arg_address_bytes
            },
            r matches Err(e) ==> e == DumpError::UnexpectedEndOfInput,
    {
        let w = self.arg_address_bytes;
        self.read_bytes_into_u32(w)
    }

    /// Reads a debug-range address: `debug_range_bytes` bytes composed
    /// big-endian.
    pub fn read_debug_range_address(&mut self) -> (r: Result<u32, DumpError>)
        requires
            old(self).wf(),
            1 <= old(self).debug_range_bytes <= 4,
        ensures
            final(self).wf(),
            final(self).same_source(old(self)),
            r is Ok <==> old(self).current_index + old(self).debug_range_bytes <= old(self).contents@.len(),
            r matches Ok(v) ==> {
                &&& v == be_bytes_val(
                    old(self).contents@,
                    old(self).current_index as int,
                    old(self).debug_range_bytes as nat,
                )
                &&& final(self).current_index == old(self).current_index + old(self).debug_range_bytes
            },
            r matches Err(e) ==> e == DumpError::UnexpectedEndOfInput,
    {
        let w = self.debug_range_bytes;
        self.read_bytes_into_u32(w)
    }

    /// Reads one byte as a boolean: nonzero is true.
    pub fn read_boolean(&mut self) -> (r: Result<bool, DumpError>)
        requires
            old(self).wf(),
        ensures
            final(self).wf(),
            final(self).same_source(old(self)),
            r is Ok <==> old(self).current_index < old(self).contents@.len(),
            r matches Ok(b) ==> b == (old(self).contents@[old(self).current_index as int] != 0)
                && final(self).current_index == old(self).current_index + 1,
            r matches Err(e) ==> e == DumpError::UnexpectedEndOfInput,
    {
        let b = self.next()?;
        Ok(b != 0)
    }

    /// Reads one byte as a signed byte.
    pub fn read_byte(&mut self) -> (r: Result<i8, DumpError>)
        requires
            old(self).wf(),
        ensures
            final(self).wf(),
            final(self).same_source(old(self)),
            r is Ok <==> old(self).current_index < old(self).contents@.len(),
            r matches Ok(b) ==> b == old(self).contents@[old(self).current_index as int] as i8
                && final(self).current_index == old(self).current_index + 1,
            r matches Err(e) ==> e == DumpError::UnexpectedEndOfInput,
    {
        let b = self.next()?;
        Ok(b as i8)
    }

    /// Reads two little-endian bytes as an unsigned 16-bit value.
    pub fn read_uint16(&mut self) -> (r: Result<u16, DumpError>)
        requires
            old(self).wf(),
        ensures
            final(self).wf(),
            final(self).same_source(old(self)),
            r is Ok <==> old(self).current_index + 2 <= old(self).contents@.len(),
            r matches Ok(v) ==> v == le_bytes_val(
                old(self).contents@,
                old(self).current_index as int,
                2,
            ) && final(self).current_index == old(self).current_index + 2,
            r matches Err(e) ==> e == DumpError::UnexpectedEndOfInput,
    {
        if 2 > self.contents.len() - self.current_index {
            return Err(DumpError::UnexpectedEndOfInput);
        }
        let b0 = self.contents[self.current_index];
        let b1 = self.contents[self.current_index + 1];
        self.current_index = self.current_index + 2;
        proof {
            reveal_with_fuel(le_bytes_val, 3);
        }
        Ok((b0 as u16) + 0x100 * (b1 as u16))
    }

    /// Reads two little-endian bytes as a signed 16-bit value.
    pub fn read_int16(&mut self) -> (r: Result<i16, DumpError>)
        requires
            old(self).wf(),
        ensures
            final(self).wf(),
            final(self).same_source(old(self)),
            r is Ok <==> old(self).current_index + 2 <= old(self).contents@.len(),
            r matches Ok(v) ==> v == (le_bytes_val(
                old(self).contents@,
                old(self).current_index as int,
                2,
            ) as u16) as i16 && final(self).current_index == old(self).current_index + 2,
            r matches Err(e) ==> e == DumpError::UnexpectedEndOfInput,
    {
        let u = self.read_uint16()?;
        Ok(u as i16)
    }

    /// Reads two big-endian bytes as an unsigned 16-bit value.
    pub fn read_uint16_be(&mut self) -> (r: Result<u16, DumpError>)
        requires
            old(self).wf(),
        ensures
            final(self).wf(),
            final(self).same_source(old(self)),
            r is Ok <==> old(self).current_index + 2 <= old(self).contents@.len(),
            r matches Ok(v) ==> v == be_bytes_val(
                old(self).contents@,
                old(self).current_index as int,
                2,
            ) && final(self).current_index == old(self).current_index + 2,
            r matches Err(e) ==> e == DumpError::UnexpectedEndOfInput,
    {
        if 2 > self.contents.len() - self.current_index {
            return Err(DumpError::UnexpectedEndOfInput);
        }
        let b0 = self.contents[self.current_index];
        let b1 = self.contents[self.current_index + 1];
        self.current_index = self.current_index + 2;
        proof {
            reveal_with_fuel(be_bytes_val, 3);
        }
        Ok(0x100 * (b0 as u16) + (b1 as u16))
    }

    /// Reads four little-endian bytes as an unsigned 32-bit value.
    pub fn read_uint32(&mut self) -> (r: Result<u32, DumpError>)
        requires
            old(self).wf(),
        ensures
            final(self).wf(),
            final(self).same_source(old(self)),
            r is Ok <==> old(self).current_index + 4 <= old(self).contents@.len(),
            r matches Ok(v) ==> v == le_bytes_val(
                old(self).contents@,
                old(self).current_index as int,
                4,
            ) && final(self).current_index == old(self).current_index + 4,
            r matches Err(e) ==> e == DumpError::UnexpectedEndOfInput,
    {
        if 4 > self.contents.len() - self.current_index {
            return Err(DumpError::UnexpectedEndOfInput);
        }
        let b0 = self.contents[self.current_index];
        let b1 = self.contents[self.current_index + 1];
        let b2 = self.contents[self.current_index + 2];
        let b3 = self.contents[self.current_index + 3];
        self.current_index = self.current_index + 4;
        proof {
            reveal_with_fuel(le_bytes_val, 5);
        }
        Ok(
            (b0 as u32) + 0x100 * ((b1 as u32) + 0x100 * ((b2 as u32) + 0x100 * (b3 as u32))),
        )
    }

    /// Reads four little-endian bytes as a signed 32-bit value.
    pub fn read_int32(&mut self) -> (r: Result<i32, DumpError>)
        requires
            old(self).wf(),
        ensures
            final(self).wf(),
            final(self).same_source(old(self)),
            r is Ok <==> old(self).current_index + 4 <= old(self).contents@.len(),
            r matches Ok(v) ==> v == (le_bytes_val(
                old(self).contents@,
                old(self).current_index as int,
                4,
            ) as u32) as i32 && final(self).current_index == old(self).current_index + 4,
            r matches Err(e) ==> e == DumpError::UnexpectedEndOfInput,
    {
        let u = self.read_uint32()?;
        Ok(u as i32)
    }

    /// Reads four big-endian bytes as an unsigned 32-bit value.
    pub fn read_uint32_be(&mut self) -> (r: Result<u32, DumpError>)
        requires
            old(self).wf(),
        ensures
            final(self).wf(),
            final(self).same_source(old(self)),
            r is Ok <==> old(self).current_index + 4 <= old(self).contents@.len(),
            r matches Ok(v) ==> v == be_bytes_val(
                old(self).contents@,
                old(self).current_index as int,
                4,
            ) && final(self).current_index == old(self).current_index + 4,
            r matches Err(e) ==> e == DumpError::UnexpectedEndOfInput,
    {
        if 4 > self.contents.len() - self.current_index {
            return Err(DumpError::UnexpectedEndOfInput);
        }
        let b0 = self.contents[self.current_index];
        let b1 = self.contents[self.current_index + 1];
        let b2 = self.contents[self.current_index + 2];
        let b3 = self.contents[self.current_index + 3];
        self.current_index = self.current_index + 4;
        proof {
            reveal_with_fuel(be_bytes_val, 5);
        }
        Ok(
            (b3 as u32) + 0x100 * ((b2 as u32) + 0x100 * ((b1 as u32) + 0x100 * (b0 as u32))),
        )
    }

    /// Reads four little-endian bytes as the raw bits of a 32-bit float.
    pub fn read_float_bits(&mut self) -> (r: Result<u32, DumpError>)
        requires
            old(self).wf(),
        ensures
            final(self).wf(),
            final(self).same_source(old(self)),
            r is Ok <==> old(self).current_index + 4 <= old(self).contents@.len(),
            r matches Ok(v) ==> v == le_bytes_val(
                old(self).contents@,
                old(self).current_index as int,
                4,
            ) && final(self).current_index == old(self).current_index + 4,
            r matches Err(e) ==> e == DumpError::UnexpectedEndOfInput,
    {
        self.read_uint32()
    }

    /// Reads eight little-endian bytes as the raw bits of a 64-bit float.
    pub fn read_double_bits(&mut self) -> (r: Result<u64, DumpError>)
        requires
            old(self).wf(),
        ensures
            final(self).wf(),
            final(self).same_source(old(self)),
            r is Ok <==> old(self).current_index + 8 <= old(self).contents@.len(),
            r matches Ok(v) ==> v == le_bytes_val(
                old(self).contents@,
                old(self).current_index as int,
                8,
            ) && final(self).current_index == old(self).current_index + 8,
            r matches Err(e) ==> e == DumpError::UnexpectedEndOfInput,
    {
        if 8 > self.contents.len() - self.current_index {
            return Err(DumpError::UnexpectedEndOfInput);
        }
        let i = self.current_index;
        let b0 = self.contents[i];
        let b1 = self.contents[i + 1];
        let b2 = self.contents[i + 2];
        let b3 = self.contents[i + 3];
        let b4 = self.contents[i + 4];
        let b5 = self.contents[i + 5];
        let b6 = self.contents[i + 6];
        let b7 = self.contents[i + 7];
        self.current_index = self.current_index + 8;
        proof {
            reveal_with_fuel(le_bytes_val, 9);
        }
        Ok(
            (b0 as u64) + 0x100 * ((b1 as u64) + 0x100 * ((b2 as u64) + 0x100 * ((b3 as u64) + 0x100
                * ((b4 as u64) + 0x100 * ((b5 as u64) + 0x100 * ((b6 as u64) + 0x100 * (b7
                as u64))))))),
        )
    }

    /// Reads a length-prefixed string: one length byte, then that many bytes
    /// each read as the character with the same code.
    pub fn read_string(&mut self) -> (r: Result<String, DumpError>)
        requires
            old(self).wf(),
        ensures
            final(self).wf(),
            final(self).same_source(old(self)),
            r is Ok <==> (old(self).current_index < old(self).contents@.len() && old(self).current_index + 1 + old(self).contents@[old(self).current_index as int] <= old(self).contents@.len()),
            r matches Ok(s) ==> {
                &&& s@ == chars_of(
                    old(self).contents@.subrange(
                        old(self).current_index + 1,
                        old(self).current_index + 1 + old(self).contents@[old(self).current_index as int],
                    ),
                )
                &&& final(self).current_index == old(self).current_index + 1 + old(self).contents@[old(self).current_index as int]
            },
            r matches Err(e) ==> e == DumpError::UnexpectedEndOfInput,
    {
        let len = self.next()? as usize;
        if len > self.contents.len() - self.current_index {
            return Err(DumpError::UnexpectedEndOfInput);
        }
        let start = self.current_index;
        let mut internal = String::new();
        push_byte_chars(&mut internal, &self.contents, start, start + len);
        self.current_index = self.current_index + len;
        Ok(internal)
    }
}

} // verus!
