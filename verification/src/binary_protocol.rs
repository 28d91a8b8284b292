//! The Thrift Binary Protocol, bit-exact: big-endian two's-complement
//! integers, length-prefixed strings, field headers, the stop marker, and
//! the versioned message header, all over a `MemoryTransport`.
//!
//! Every read that runs short of bytes reports `Error::EOF` and leaves the
//! cursor where the call found it, so a caller may retry once more bytes
//! arrive.

use vstd::prelude::*;
use vstd::utf8::{valid_utf8, decode_utf8, encode_utf8};

use crate::protocol::{Error, ThriftType, ThriftMessageType, ThriftMessage, ThriftField};
use crate::protocol::{lemma_thrift_type_byte_round_trip, lemma_message_type_byte_round_trip};
use crate::transport::MemoryTransport;

verus! {

/// The high half of the version word of every message frame.
pub const THRIFT_VERSION_1: u32 = 0x8001_0000;

/// Masks the half of the version word that carries the version.
pub const THRIFT_VERSION_MASK: u32 = 0xffff_0000;

/// Masks the byte of the version word that carries the message kind.
pub const THRIFT_TYPE_MASK: u32 = 0x0000_00ff;

// ---------------------------------------------------------------------------
// The byte-level encoding, as sequence functions.
// ---------------------------------------------------------------------------

pub open spec fn spec_be16(v: u16) -> Seq<u8> {
    seq![(v >> 8) as u8, v as u8]
}

pub open spec fn spec_be32(v: u32) -> Seq<u8> {
    seq![(v >> 24) as u8, (v >> 16) as u8, (v >> 8) as u8, v as u8]
}

pub open spec fn spec_be64(v: u64) -> Seq<u8> {
    seq![
        (v >> 56) as u8,
        (v >> 48) as u8,
        (v >> 40) as u8,
        (v >> 32) as u8,
        (v >> 24) as u8,
        (v >> 16) as u8,
        (v >> 8) as u8,
        v as u8,
    ]
}

pub open spec fn spec_from_be16(s: Seq<u8>) -> u16
    recommends
        s.len() == 2,
{
    ((s[0] as u16) << 8) | (s[1] as u16)
}

pub open spec fn spec_from_be32(s: Seq<u8>) -> u32
    recommends
        s.len() == 4,
{
    ((s[0] as u32) << 24) | ((s[1] as u32) << 16) | ((s[2] as u32) << 8) | (s[3] as u32)
}

pub open spec fn spec_from_be64(s: Seq<u8>) -> u64
    recommends
        s.len() == 8,
{
    ((s[0] as u64) << 56) | ((s[1] as u64) << 48) | ((s[2] as u64) << 40) | ((s[3] as u64) << 32)
        | ((s[4] as u64) << 24) | ((s[5] as u64) << 16) | ((s[6] as u64) << 8) | (s[7] as u64)
}

/// Signed values travel as their two's-complement reinterpretation.
pub open spec fn spec_i16_be(v: i16) -> Seq<u8> {
    spec_be16(v as u16)
}

pub open spec fn spec_i32_be(v: i32) -> Seq<u8> {
    spec_be32(v as u32)
}

pub open spec fn spec_i64_be(v: i64) -> Seq<u8> {
    spec_be64(v as u64)
}

pub open spec fn spec_i16_from_be(s: Seq<u8>) -> i16
    recommends
        s.len() == 2,
{
    spec_from_be16(s) as i16
}

pub open spec fn spec_i32_from_be(s: Seq<u8>) -> i32
    recommends
        s.len() == 4,
{
    spec_from_be32(s) as i32
}

pub open spec fn spec_i64_from_be(s: Seq<u8>) -> i64
    recommends
        s.len() == 8,
{
    spec_from_be64(s) as i64
}

/// A bool travels as one byte, `0x01` or `0x00`.
pub open spec fn spec_bool_be(v: bool) -> Seq<u8> {
    if v {
        seq![1u8]
    } else {
        seq![0u8]
    }
}

/// A blob travels as a four-byte signed length, then the bytes themselves.
pub open spec fn spec_blob_be(b: Seq<u8>) -> Seq<u8>
    recommends
        b.len() <= 0x7fff_ffff,
{
    spec_i32_be(b.len() as i32) + b
}

// ---------------------------------------------------------------------------
// Round-trip laws of the integer encodings: decoding an encoding gives the
// value back.
// ---------------------------------------------------------------------------

pub proof fn lemma_be16_round_trip(v: u16)
    ensures
        spec_from_be16(spec_be16(v)) == v,
{
    assert((((v >> 8) as u8 as u16) << 8) | (v as u8 as u16) == v) by (bit_vector);
}

pub proof fn lemma_be32_round_trip(v: u32)
    ensures
        spec_from_be32(spec_be32(v)) == v,
{
    assert(
        (((v >> 24) as u8 as u32) << 24) | (((v >> 16) as u8 as u32) << 16)
            | (((v >> 8) as u8 as u32) << 8) | (v as u8 as u32) == v
    ) by (bit_vector);
}

pub proof fn lemma_be64_round_trip(v: u64)
    ensures
        spec_from_be64(spec_be64(v)) == v,
{
    assert(
        (((v >> 56) as u8 as u64) << 56) | (((v >> 48) as u8 as u64) << 48)
            | (((v >> 40) as u8 as u64) << 40) | (((v >> 32) as u8 as u64) << 32)
            | (((v >> 24) as u8 as u64) << 24) | (((v >> 16) as u8 as u64) << 16)
            | (((v >> 8) as u8 as u64) << 8) | (v as u8 as u64) == v
    ) by (bit_vector);
}

pub proof fn lemma_i16_round_trip(v: i16)
    ensures
        spec_i16_from_be(spec_i16_be(v)) == v,
{
    lemma_be16_round_trip(v as u16);
    assert((v as u16) as i16 == v) by (bit_vector);
}

pub proof fn lemma_i32_round_trip(v: i32)
    ensures
        spec_i32_from_be(spec_i32_be(v)) == v,
{
    lemma_be32_round_trip(v as u32);
    assert((v as u32) as i32 == v) by (bit_vector);
}

pub proof fn lemma_i64_round_trip(v: i64)
    ensures
        spec_i64_from_be(spec_i64_be(v)) == v,
{
    lemma_be64_round_trip(v as u64);
    assert((v as u64) as i64 == v) by (bit_vector);
}

// ---------------------------------------------------------------------------
// The protocol itself.
// ---------------------------------------------------------------------------

/// A serializer and deserializer of the Thrift Binary Protocol over an
/// in-memory transport.
pub struct BinaryProtocol {
    inner: MemoryTransport,
}

impl BinaryProtocol {
    /// All bytes the transport holds.
    pub closed spec fn written(&self) -> Seq<u8> {
        self.inner.bytes()
    }

    /// The read cursor of the transport.
    pub closed spec fn rpos(&self) -> int {
        self.inner.rpos()
    }

    /// The bytes not yet read.
    pub open spec fn remaining(&self) -> Seq<u8> {
        self.written().skip(self.rpos())
    }

    pub open spec fn wf(&self) -> bool {
        0 <= self.rpos() <= self.written().len()
    }

    pub fn new(inner: MemoryTransport) -> (r: BinaryProtocol)
        ensures
            r.written() == inner.bytes(),
            r.rpos() == inner.rpos(),
            r.wf() == inner.wf(),
    {
        BinaryProtocol { inner }
    }

    pub fn into_inner(self) -> (r: MemoryTransport)
        ensures
            r.bytes() == self.written(),
            r.rpos() == self.rpos(),
            r.wf() == self.wf(),
    {
        self.inner
    }

    // -- writing primitives --------------------------------------------------

    pub fn serialize_i8(&mut self, val: i8) -> (r: Result<(), Error>)
        requires
            old(self).wf(),
        ensures
            final(self).wf(),
            r is Ok,
            final(self).written() == old(self).written() + seq![val as u8],
            final(self).rpos() == old(self).rpos(),
    {
        self.inner.write_byte(val as u8);
        proof {
            assert(self.written() =~= old(self).written() + seq![val as u8]);
        }
        Ok(())
    }

    pub fn serialize_u8(&mut self, val: u8) -> (r: Result<(), Error>)
        requires
            old(self).wf(),
        ensures
            final(self).wf(),
            r is Ok,
            final(self).written() == old(self).written() + seq![val],
            final(self).rpos() == old(self).rpos(),
    {
        self.inner.write_byte(val);
        proof {
            assert(self.written() =~= old(self).written() + seq![val]);
        }
        Ok(())
    }

    pub fn serialize_bool(&mut self, val: bool) -> (r: Result<(), Error>)
        requires
            old(self).wf(),
        ensures
            final(self).wf(),
            r is Ok,
            final(self).written() == old(self).written() + spec_bool_be(val),
            final(self).rpos() == old(self).rpos(),
    {
        if val {
            self.serialize_i8(1)
        } else {
            self.serialize_i8(0)
        }
    }

    pub fn serialize_u16(&mut self, val: u16) -> (r: Result<(), Error>)
        requires
            old(self).wf(),
        ensures
            final(self).wf(),
            r is Ok,
            final(self).written() == old(self).written() + spec_be16(val),
            final(self).rpos() == old(self).rpos(),
    {
        self.inner.write_byte((val >> 8) as u8);
        self.inner.write_byte(val as u8);
        proof {
            assert(self.written() =~= old(self).written() + spec_be16(val));
        }
        Ok(())
    }

    pub fn serialize_i16(&mut self, val: i16) -> (r: Result<(), Error>)
        requires
            old(self).wf(),
        ensures
            final(self).wf(),
            r is Ok,
            final(self).written() == old(self).written() + spec_i16_be(val),
            final(self).rpos() == old(self).rpos(),
    {
        self.serialize_u16(val as u16)
    }

    pub fn serialize_u32(&mut self, val: u32) -> (r: Result<(), Error>)
        requires
            old(self).wf(),
        ensures
            final(self).wf(),
            r is Ok,
            final(self).written() == old(self).written() + spec_be32(val),
            final(self).rpos() == old(self).rpos(),
    {
        self.inner.write_byte((val >> 24) as u8);
        self.inner.write_byte((val >> 16) as u8);
        self.inner.write_byte((val >> 8) as u8);
        self.inner.write_byte(val as u8);
        proof {
            assert(self.written() =~= old(self).written() + spec_be32(val));
        }
        Ok(())
    }

    pub fn serialize_i32(&mut self, val: i32) -> (r: Result<(), Error>)
        requires
            old(self).wf(),
        ensures
            final(self).wf(),
            r is Ok,
            final(self).written() == old(self).written() + spec_i32_be(val),
            final(self).rpos() == old(self).rpos(),
    {
        self.serialize_u32(val as u32)
    }

    pub fn serialize_u64(&mut self, val: u64) -> (r: Result<(), Error>)
        requires
            old(self).wf(),
        ensures
            final(self).wf(),
            r is Ok,
            final(self).written() == old(self).written() + spec_be64(val),
            final(self).rpos() == old(self).rpos(),
    {
        self.inner.write_byte((val >> 56) as u8);
        self.inner.write_byte((val >> 48) as u8);
        self.inner.write_byte((val >> 40) as u8);
        self.inner.write_byte((val >> 32) as u8);
        self.inner.write_byte((val >> 24) as u8);
        self.inner.write_byte((val >> 16) as u8);
        self.inner.write_byte((val >> 8) as u8);
        self.inner.write_byte(val as u8);
        proof {
            assert(self.written() =~= old(self).written() + spec_be64(val));
        }
        Ok(())
    }

    pub fn serialize_i64(&mut self, val: i64) -> (r: Result<(), Error>)
        requires
            old(self).wf(),
        ensures
            final(self).wf(),
            r is Ok,
            final(self).written() == old(self).written() + spec_i64_be(val),
            final(self).rpos() == old(self).rpos(),
    {
        self.serialize_u64(val as u64)
    }

    pub fn serialize_usize(&mut self, val: usize) -> (r: Result<(), Error>)
        requires
            old(self).wf(),
        ensures
            final(self).wf(),
            r is Ok,
            final(self).written() == old(self).written() + spec_i64_be(val as i64),
            final(self).rpos() == old(self).rpos(),
    {
        self.serialize_i64(val as i64)
    }

    pub fn serialize_isize(&mut self, val: isize) -> (r: Result<(), Error>)
        requires
            old(self).wf(),
        ensures
            final(self).wf(),
            r is Ok,
            final(self).written() == old(self).written() + spec_i64_be(val as i64),
            final(self).rpos() == old(self).rpos(),
    {
        self.serialize_i64(val as i64)
    }

    /// Writes the IEEE-754 bits of a double, big-endian. The caller converts
    /// between the floating value and its bits.
    pub fn serialize_f64_bits(&mut self, bits: u64) -> (r: Result<(), Error>)
        requires
            old(self).wf(),
        ensures
            final(self).wf(),
            r is Ok,
            final(self).written() == old(self).written() + spec_be64(bits),
            final(self).rpos() == old(self).rpos(),
    {
        self.serialize_u64(bits)
    }

    pub fn serialize_bytes(&mut self, val: &[u8]) -> (r: Result<(), Error>)
        requires
            old(self).wf(),
            val@.len() <= 0x7fff_ffff,
        ensures
            final(self).wf(),
            r is Ok,
            final(self).written() == old(self).written() + spec_blob_be(val@),
            final(self).rpos() == old(self).rpos(),
    {
        let len = val.len();
        let _ = self.serialize_i32(len as i32);
        let mut i: usize = 0;
        while i < len
            invariant
                self.wf(),
                i <= len,
                len == val@.len(),
                self.written() == old(self).written() + spec_i32_be(len as i32) + val@.take(
                    i as int,
                ),
                self.rpos() == old(self).rpos(),
            decreases len - i,
        {
            self.inner.write_byte(val[i]);
            proof {
                assert(self.written() =~= old(self).written() + spec_i32_be(len as i32)
                    + val@.take(i as int + 1));
            }
            i = i + 1;
        }
        proof {
            assert(val@.take(len as int) =~= val@);
            assert(self.written() =~= old(self).written() + spec_blob_be(val@));
        }
        Ok(())
    }

    pub fn serialize_str(&mut self, val: &str) -> (r: Result<(), Error>)
        requires
            old(self).wf(),
            encode_utf8(val@).len() <= 0x7fff_ffff,
        ensures
            final(self).wf(),
            r is Ok,
            final(self).written() == old(self).written() + spec_blob_be(encode_utf8(val@)),
            final(self).rpos() == old(self).rpos(),
    {
        self.serialize_bytes(val.as_bytes())
    }

    pub fn serialize_string(&mut self, val: String) -> (r: Result<(), Error>)
        requires
            old(self).wf(),
            encode_utf8(val@).len() <= 0x7fff_ffff,
        ensures
            final(self).wf(),
            r is Ok,
            final(self).written() == old(self).written() + spec_blob_be(encode_utf8(val@)),
            final(self).rpos() == old(self).rpos(),
    {
        self.serialize_str(val.as_str())
    }

    // -- reading primitives --------------------------------------------------

    /// Where the read cursor stands.
    pub fn position(&self) -> (r: usize)
        ensures
            r == self.rpos(),
    {
        self.inner.position()
    }

    /// Moves the cursor back to where a multi-step read began, so that the
    /// whole read can be retried once more bytes arrive.
    pub(crate) fn rewind_to(&mut self, start: usize)
        requires
            old(self).wf(),
            0 <= start <= old(self).rpos(),
        ensures
            final(self).wf(),
            final(self).written() == old(self).written(),
            final(self).rpos() == start,
    {
        let here = self.inner.position();
        self.inner.unread(here - start);
    }

    pub fn deserialize_u8(&mut self) -> (r: Result<u8, Error>)
        requires
            old(self).wf(),
        ensures
            final(self).wf(),
            final(self).written() == old(self).written(),
            old(self).remaining().len() >= 1 ==> r == Ok::<u8, Error>(old(self).remaining()[0])
                && final(self).rpos() == old(self).rpos() + 1,
            old(self).remaining().len() < 1 ==> r == Err::<u8, Error>(Error::EOF)
                && final(self).rpos() == old(self).rpos(),
    {
        if self.inner.remaining_len() < 1 {
            return Err(Error::EOF);
        }
        Ok(self.inner.read_byte())
    }

    pub fn deserialize_i8(&mut self) -> (r: Result<i8, Error>)
        requires
            old(self).wf(),
        ensures
            final(self).wf(),
            final(self).written() == old(self).written(),
            old(self).remaining().len() >= 1 ==> r == Ok::<i8, Error>(
                old(self).remaining()[0] as i8,
            ) && final(self).rpos() == old(self).rpos() + 1,
            old(self).remaining().len() < 1 ==> r == Err::<i8, Error>(Error::EOF)
                && final(self).rpos() == old(self).rpos(),
    {
        match self.deserialize_u8() {
            Ok(b) => Ok(b as i8),
            Err(e) => Err(e),
        }
    }

    pub fn deserialize_bool(&mut self) -> (r: Result<bool, Error>)
        requires
            old(self).wf(),
        ensures
            final(self).wf(),
            final(self).written() == old(self).written(),
            old(self).remaining().len() >= 1 ==> r == Ok::<bool, Error>(
                old(self).remaining()[0] != 0,
            ) && final(self).rpos() == old(self).rpos() + 1,
            old(self).remaining().len() < 1 ==> r == Err::<bool, Error>(Error::EOF)
                && final(self).rpos() == old(self).rpos(),
    {
        match self.deserialize_u8() {
            Ok(b) => Ok(b != 0),
            Err(e) => Err(e),
        }
    }

    pub fn deserialize_u16(&mut self) -> (r: Result<u16, Error>)
        requires
            old(self).wf(),
        ensures
            final(self).wf(),
            final(self).written() == old(self).written(),
            old(self).remaining().len() >= 2 ==> r == Ok::<u16, Error>(
                spec_from_be16(old(self).remaining().take(2)),
            ) && final(self).rpos() == old(self).rpos() + 2,
            old(self).remaining().len() < 2 ==> r == Err::<u16, Error>(Error::EOF)
                && final(self).rpos() == old(self).rpos(),
    {
        if self.inner.remaining_len() < 2 {
            return Err(Error::EOF);
        }
        let b0 = self.inner.read_byte();
        let b1 = self.inner.read_byte();
        let v = ((b0 as u16) << 8) | (b1 as u16);
        proof {
            assert(old(self).remaining().take(2)[0] == b0);
            assert(old(self).remaining().take(2)[1] == b1);
        }
        Ok(v)
    }

    pub fn deserialize_i16(&mut self) -> (r: Result<i16, Error>)
        requires
            old(self).wf(),
        ensures
            final(self).wf(),
            final(self).written() == old(self).written(),
            old(self).remaining().len() >= 2 ==> r == Ok::<i16, Error>(
                spec_i16_from_be(old(self).remaining().take(2)),
            ) && final(self).rpos() == old(self).rpos() + 2,
            old(self).remaining().len() < 2 ==> r == Err::<i16, Error>(Error::EOF)
                && final(self).rpos() == old(self).rpos(),
    {
        match self.deserialize_u16() {
            Ok(v) => Ok(v as i16),
            Err(e) => Err(e),
        }
    }

    pub fn deserialize_u32(&mut self) -> (r: Result<u32, Error>)
        requires
            old(self).wf(),
        ensures
            final(self).wf(),
            final(self).written() == old(self).written(),
            old(self).remaining().len() >= 4 ==> r == Ok::<u32, Error>(
                spec_from_be32(old(self).remaining().take(4)),
            ) && final(self).rpos() == old(self).rpos() + 4,
            old(self).remaining().len() < 4 ==> r == Err::<u32, Error>(Error::EOF)
                && final(self).rpos() == old(self).rpos(),
    {
        if self.inner.remaining_len() < 4 {
            return Err(Error::EOF);
        }
        let b0 = self.inner.read_byte();
        let b1 = self.inner.read_byte();
        let b2 = self.inner.read_byte();
        let b3 = self.inner.read_byte();
        let v = ((b0 as u32) << 24) | ((b1 as u32) << 16) | ((b2 as u32) << 8) | (b3 as u32);
        proof {
            assert(old(self).remaining().take(4)[0] == b0);
            assert(old(self).remaining().take(4)[1] == b1);
            assert(old(self).remaining().take(4)[2] == b2);
            assert(old(self).remaining().take(4)[3] == b3);
        }
        Ok(v)
    }

    pub fn deserialize_i32(&mut self) -> (r: Result<i32, Error>)
        requires
            old(self).wf(),
        ensures
            final(self).wf(),
            final(self).written() == old(self).written(),
            old(self).remaining().len() >= 4 ==> r == Ok::<i32, Error>(
                spec_i32_from_be(old(self).remaining().take(4)),
            ) && final(self).rpos() == old(self).rpos() + 4,
            old(self).remaining().len() < 4 ==> r == Err::<i32, Error>(Error::EOF)
                && final(self).rpos() == old(self).rpos(),
    {
        match self.deserialize_u32() {
            Ok(v) => Ok(v as i32),
            Err(e) => Err(e),
        }
    }

    pub fn deserialize_u64(&mut self) -> (r: Result<u64, Error>)
        requires
            old(self).wf(),
        ensures
            final(self).wf(),
            final(self).written() == old(self).written(),
            old(self).remaining().len() >= 8 ==> r == Ok::<u64, Error>(
                spec_from_be64(old(self).remaining().take(8)),
            ) && final(self).rpos() == old(self).rpos() + 8,
            old(self).remaining().len() < 8 ==> r == Err::<u64, Error>(Error::EOF)
                && final(self).rpos() == old(self).rpos(),
    {
        if self.inner.remaining_len() < 8 {
            return Err(Error::EOF);
        }
        let b0 = self.inner.read_byte();
        let b1 = self.inner.read_byte();
        let b2 = self.inner.read_byte();
        let b3 = self.inner.read_byte();
        let b4 = self.inner.read_byte();
        let b5 = self.inner.read_byte();
        let b6 = self.inner.read_byte();
        let b7 = self.inner.read_byte();
        let v = ((b0 as u64) << 56) | ((b1 as u64) << 48) | ((b2 as u64) << 40) | ((b3 as u64)
            << 32) | ((b4 as u64) << 24) | ((b5 as u64) << 16) | ((b6 as u64) << 8) | (b7 as u64);
        proof {
            assert(old(self).remaining().take(8)[0] == b0);
            assert(old(self).remaining().take(8)[1] == b1);
            assert(old(self).remaining().take(8)[2] == b2);
            assert(old(self).remaining().take(8)[3] == b3);
            assert(old(self).remaining().take(8)[4] == b4);
            assert(old(self).remaining().take(8)[5] == b5);
            assert(old(self).remaining().take(8)[6] == b6);
            assert(old(self).remaining().take(8)[7] == b7);
        }
        Ok(v)
    }

    pub fn deserialize_i64(&mut self) -> (r: Result<i64, Error>)
        requires
            old(self).wf(),
        ensures
            final(self).wf(),
            final(self).written() == old(self).written(),
            old(self).remaining().len() >= 8 ==> r == Ok::<i64, Error>(
                spec_i64_from_be(old(self).remaining().take(8)),
            ) && final(self).rpos() == old(self).rpos() + 8,
            old(self).remaining().len() < 8 ==> r == Err::<i64, Error>(Error::EOF)
                && final(self).rpos() == old(self).rpos(),
    {
        match self.deserialize_u64() {
            Ok(v) => Ok(v as i64),
            Err(e) => Err(e),
        }
    }

    pub fn deserialize_usize(&mut self) -> (r: Result<usize, Error>)
        requires
            old(self).wf(),
        ensures
            final(self).wf(),
            final(self).written() == old(self).written(),
            old(self).remaining().len() >= 8 ==> r == Ok::<usize, Error>(
                spec_i64_from_be(old(self).remaining().take(8)) as usize,
            ) && final(self).rpos() == old(self).rpos() + 8,
            old(self).remaining().len() < 8 ==> r == Err::<usize, Error>(Error::EOF)
                && final(self).rpos() == old(self).rpos(),
    {
        match self.deserialize_i64() {
            Ok(v) => Ok(v as usize),
            Err(e) => Err(e),
        }
    }

    pub fn deserialize_isize(&mut self) -> (r: Result<isize, Error>)
        requires
            old(self).wf(),
        ensures
            final(self).wf(),
            final(self).written() == old(self).written(),
            old(self).remaining().len() >= 8 ==> r == Ok::<isize, Error>(
                spec_i64_from_be(old(self).remaining().take(8)) as isize,
            ) && final(self).rpos() == old(self).rpos() + 8,
            old(self).remaining().len() < 8 ==> r == Err::<isize, Error>(Error::EOF)
                && final(self).rpos() == old(self).rpos(),
    {
        match self.deserialize_i64() {
            Ok(v) => Ok(v as isize),
            Err(e) => Err(e),
        }
    }

    /// Reads the IEEE-754 bits of a double, big-endian. The caller converts
    /// between the bits and the floating value.
    pub fn deserialize_f64_bits(&mut self) -> (r: Result<u64, Error>)
        requires
            old(self).wf(),
        ensures
            final(self).wf(),
            final(self).written() == old(self).written(),
            old(self).remaining().len() >= 8 ==> r == Ok::<u64, Error>(
                spec_from_be64(old(self).remaining().take(8)),
            ) && final(self).rpos() == old(self).rpos() + 8,
            old(self).remaining().len() < 8 ==> r == Err::<u64, Error>(Error::EOF)
                && final(self).rpos() == old(self).rpos(),
    {
        self.deserialize_u64()
    }

    pub fn deserialize_bytes(&mut self) -> (r: Result<Vec<u8>, Error>)
        requires
            old(self).wf(),
        ensures
            final(self).wf(),
            final(self).written() == old(self).written(),
            ({
                let rem = old(self).remaining();
                if rem.len() < 4 {
                    r == Err::<Vec<u8>, Error>(Error::EOF) && final(self).rpos() == old(self).rpos()
                } else {
                    let n = spec_i32_from_be(rem.take(4));
                    if n < 0 {
                        r == Err::<Vec<u8>, Error>(Error::NegativeSize) && final(self).rpos()
                            == old(self).rpos() + 4
                    } else if rem.len() < 4 + n {
                        r == Err::<Vec<u8>, Error>(Error::EOF) && final(self).rpos() == old(self).rpos()
                    } else {
                        &&& r matches Ok(v) && v@ == rem.subrange(4, 4 + n)
                        &&& final(self).rpos() == old(self).rpos() + 4 + n
                    }
                }
            }),
    {
        let n32 = match self.deserialize_i32() {
            Ok(v) => v,
            Err(e) => { return Err(e); },
        };
        if n32 < 0 {
            return Err(Error::NegativeSize);
        }
        let n = n32 as usize;
        if self.inner.remaining_len() < n {
            self.rewind_to(self.inner.position() - 4);
            return Err(Error::EOF);
        }
        let mut out: Vec<u8> = Vec::new();
        let mut i: usize = 0;
        proof {
            assert(out@ =~= old(self).remaining().subrange(4int, 4int));
        }
        while i < n
            invariant
                self.wf(),
                old(self).wf(),
                i <= n,
                self.written() == old(self).written(),
                self.rpos() == old(self).rpos() + 4 + i,
                old(self).remaining().len() >= 4 + n,
                out@ == old(self).remaining().subrange(4, 4 + i as int),
            decreases n - i,
        {
            proof {
                assert(self.remaining().len() == old(self).remaining().len() - 4 - i);
            }
            let b = self.inner.read_byte();
            out.push(b);
            proof {
                assert(b == old(self).remaining()[4 + i as int]);
                assert(out@ =~= old(self).remaining().subrange(4, 4 + i as int + 1));
            }
            i = i + 1;
        }
        Ok(out)
    }

    pub fn deserialize_str(&mut self) -> (r: Result<String, Error>)
        requires
            old(self).wf(),
        ensures
            final(self).wf(),
            final(self).written() == old(self).written(),
            ({
                let rem = old(self).remaining();
                if rem.len() < 4 {
                    r == Err::<String, Error>(Error::EOF) && final(self).rpos() == old(self).rpos()
                } else {
                    let n = spec_i32_from_be(rem.take(4));
                    if n < 0 {
                        r == Err::<String, Error>(Error::NegativeSize) && final(self).rpos()
                            == old(self).rpos() + 4
                    } else if rem.len() < 4 + n {
                        r == Err::<String, Error>(Error::EOF) && final(self).rpos() == old(self).rpos()
                    } else {
                        let body = rem.subrange(4, 4 + n);
                        &&& final(self).rpos() == old(self).rpos() + 4 + n
                        &&& if valid_utf8(body) {
                            r matches Ok(s) && s@ == decode_utf8(body)
                        } else {
                            r == Err::<String, Error>(Error::Utf8Error)
                        }
                    }
                }
            }),
    {
        let buf = match self.deserialize_bytes() {
            Ok(v) => v,
            Err(e) => { return Err(e); },
        };
        bytes_to_string(buf)
    }

    // -- message and field framing -------------------------------------------

    pub fn write_message_begin(&mut self, name: &str, message_type: ThriftMessageType) -> (r:
        Result<(), Error>)
        requires
            old(self).wf(),
            encode_utf8(name@).len() <= 0x7fff_ffff,
        ensures
            final(self).wf(),
            r is Ok,
            final(self).written() == old(self).written() + spec_message_begin_be(
                encode_utf8(name@),
                message_type,
            ),
            final(self).rpos() == old(self).rpos(),
    {
        let version: u32 = THRIFT_VERSION_1 | (message_type.to_byte() as u32);
        let _ = self.serialize_u32(version);
        let _ = self.serialize_str(name);
        let _ = self.serialize_i16(0);
        proof {
            assert(self.written() =~= old(self).written() + spec_message_begin_be(
                encode_utf8(name@),
                message_type,
            ));
        }
        Ok(())
    }

    /// No bytes mark the start of a struct in the binary protocol.
    pub fn write_struct_begin(&mut self, _name: &str) -> (r: Result<(), Error>)
        requires
            old(self).wf(),
        ensures
            final(self).wf(),
            r is Ok,
            final(self).written() == old(self).written(),
            final(self).rpos() == old(self).rpos(),
    {
        Ok(())
    }

    /// No bytes mark the end of a struct in the binary protocol.
    pub fn write_struct_end(&mut self) -> (r: Result<(), Error>)
        requires
            old(self).wf(),
        ensures
            final(self).wf(),
            r is Ok,
            final(self).written() == old(self).written(),
            final(self).rpos() == old(self).rpos(),
    {
        Ok(())
    }

    pub fn write_field_begin(&mut self, _name: &str, ty: ThriftType, id: i16) -> (r: Result<
        (),
        Error,
    >)
        requires
            old(self).wf(),
        ensures
            final(self).wf(),
            r is Ok,
            final(self).written() == old(self).written() + spec_field_begin_be(ty, id),
            final(self).rpos() == old(self).rpos(),
    {
        let _ = self.serialize_u8(ty.to_byte());
        let _ = self.serialize_i16(id);
        proof {
            assert(self.written() =~= old(self).written() + spec_field_begin_be(ty, id));
        }
        Ok(())
    }

    /// No bytes mark the end of a field in the binary protocol.
    pub fn write_field_end(&mut self) -> (r: Result<(), Error>)
        requires
            old(self).wf(),
        ensures
            final(self).wf(),
            r is Ok,
            final(self).written() == old(self).written(),
            final(self).rpos() == old(self).rpos(),
    {
        Ok(())
    }

    pub fn write_field_stop(&mut self) -> (r: Result<(), Error>)
        requires
            old(self).wf(),
        ensures
            final(self).wf(),
            r is Ok,
            final(self).written() == old(self).written() + seq![0u8],
            final(self).rpos() == old(self).rpos(),
    {
        self.serialize_u8(0)
    }

    /// No bytes mark the end of a message in the binary protocol.
    pub fn write_message_end(&mut self) -> (r: Result<(), Error>)
        requires
            old(self).wf(),
        ensures
            final(self).wf(),
            r is Ok,
            final(self).written() == old(self).written(),
            final(self).rpos() == old(self).rpos(),
    {
        Ok(())
    }

    pub fn read_message_begin(&mut self) -> (r: Result<ThriftMessage, Error>)
        requires
            old(self).wf(),
        ensures
            final(self).wf(),
            final(self).written() == old(self).written(),
            match spec_read_message_begin(old(self).remaining()) {
                MsgDecode::Msg { name, kind, seqid, used } => {
                    &&& r matches Ok(m) && m.name@ == decode_utf8(name) && m.ty == kind
                        && m.seq == seqid
                    &&& final(self).rpos() == old(self).rpos() + used
                },
                MsgDecode::Short => r == Err::<ThriftMessage, Error>(Error::EOF) && final(self).rpos() == old(self).rpos(),
                MsgDecode::Bad { err } => r matches Err(e) && e == err,
            },
    {
        let ghost rem0 = old(self).remaining();
        let start = self.inner.position();
        let w = match self.deserialize_u32() {
            Ok(v) => v,
            Err(e) => { return Err(e); },
        };
        if w < 0x8000_0000 {
            return Err(Error::ProtocolVersionMissing);
        }
        if (w & THRIFT_VERSION_MASK) != THRIFT_VERSION_1 {
            return Err(Error::BadVersion);
        }
        let tb = (w & THRIFT_TYPE_MASK) as u8;
        let kind = match ThriftMessageType::from_byte(tb) {
            Some(m) => m,
            None => { return Err(Error::UnexpectedWireType); },
        };
        proof {
            assert(self.remaining() =~= rem0.skip(4));
        }
        let name = match self.deserialize_str() {
            Ok(s) => s,
            Err(Error::EOF) => {
                self.rewind_to(start);
                return Err(Error::EOF);
            },
            Err(e) => { return Err(e); },
        };
        proof {
            let rest = rem0.skip(4);
            let n = spec_i32_from_be(rest.take(4));
            assert(self.remaining() =~= rest.skip(4 + n));
        }
        let seqid = match self.deserialize_i16() {
            Ok(v) => v,
            Err(_e) => {
                self.rewind_to(start);
                return Err(Error::EOF);
            },
        };
        Ok(ThriftMessage { name, ty: kind, seq: seqid })
    }

    /// No bytes mark the end of a message in the binary protocol.
    pub fn read_message_end(&mut self) -> (r: Result<(), Error>)
        requires
            old(self).wf(),
        ensures
            final(self).wf(),
            r is Ok,
            final(self).written() == old(self).written(),
            final(self).rpos() == old(self).rpos(),
    {
        Ok(())
    }

    /// No bytes mark the start of a struct; the name read back is empty.
    pub fn read_struct_begin(&mut self) -> (r: Result<String, Error>)
        requires
            old(self).wf(),
        ensures
            final(self).wf(),
            r matches Ok(s) && s@ == Seq::<char>::empty(),
            final(self).written() == old(self).written(),
            final(self).rpos() == old(self).rpos(),
    {
        Ok(String::new())
    }

    /// No bytes mark the end of a struct in the binary protocol.
    pub fn read_struct_end(&mut self) -> (r: Result<(), Error>)
        requires
            old(self).wf(),
        ensures
            final(self).wf(),
            r is Ok,
            final(self).written() == old(self).written(),
            final(self).rpos() == old(self).rpos(),
    {
        Ok(())
    }

    pub fn read_field_begin(&mut self) -> (r: Result<ThriftField, Error>)
        requires
            old(self).wf(),
        ensures
            final(self).wf(),
            final(self).written() == old(self).written(),
            match spec_read_field_begin(old(self).remaining()) {
                FieldDecode::Fld { kind, seqid, used } => {
                    &&& r matches Ok(f) && f.ty == kind && f.seq == seqid && f.name is None
                    &&& final(self).rpos() == old(self).rpos() + used
                },
                FieldDecode::Short => r == Err::<ThriftField, Error>(Error::EOF) && final(self).rpos() == old(self).rpos(),
                FieldDecode::Bad { err } => r matches Err(e) && e == err,
            },
    {
        let start = self.inner.position();
        let tb = match self.deserialize_u8() {
            Ok(b) => b,
            Err(e) => { return Err(e); },
        };
        let ty = match ThriftType::from_byte(tb) {
            Some(t) => t,
            None => { return Err(Error::UnexpectedWireType); },
        };
        match ty {
            ThriftType::Stop => Ok(ThriftField { name: None, ty, seq: 0 }),
            _ => {
                let seqid = match self.deserialize_i16() {
                    Ok(v) => v,
                    Err(_e) => {
                        self.rewind_to(start);
                        return Err(Error::EOF);
                    },
                };
                Ok(ThriftField { name: None, ty, seq: seqid })
            },
        }
    }

    /// No bytes mark the end of a field in the binary protocol.
    pub fn read_field_end(&mut self) -> (r: Result<(), Error>)
        requires
            old(self).wf(),
        ensures
            final(self).wf(),
            r is Ok,
            final(self).written() == old(self).written(),
            final(self).rpos() == old(self).rpos(),
    {
        Ok(())
    }

    /// Consumes the bytes of one value of the advertised wire type without
    /// interpreting them, so that a reader may pass over a field it does not
    /// expect, whatever its shape.
    pub fn skip_field(&mut self, ty: ThriftType) -> (r: Result<(), Error>)
        requires
            old(self).wf(),
        ensures
            final(self).wf(),
            final(self).written() == old(self).written(),
            match spec_skip_value(ty, old(self).remaining()) {
                DecodeOutcome::Value { v: _, used } => r is Ok && final(self).rpos() == old(self).rpos() + used,
                DecodeOutcome::Incomplete => r == Err::<(), Error>(Error::EOF) && final(self).rpos() == old(self).rpos(),
                DecodeOutcome::Malformed { err } => r matches Err(e) && e == err,
            },
        decreases old(self).remaining().len(), 4int,
    {
        proof {
            reveal(spec_skip_value);
        }
        match ty {
            ThriftType::Bool => match self.deserialize_u8() {
                Ok(_) => Ok(()),
                Err(e) => Err(e),
            },
            ThriftType::Byte => match self.deserialize_u8() {
                Ok(_) => Ok(()),
                Err(e) => Err(e),
            },
            ThriftType::I16 => match self.deserialize_i16() {
                Ok(_) => Ok(()),
                Err(e) => Err(e),
            },
            ThriftType::I32 => match self.deserialize_i32() {
                Ok(_) => Ok(()),
                Err(e) => Err(e),
            },
            ThriftType::Double => match self.deserialize_u64() {
                Ok(_) => Ok(()),
                Err(e) => Err(e),
            },
            ThriftType::U64 => match self.deserialize_u64() {
                Ok(_) => Ok(()),
                Err(e) => Err(e),
            },
            ThriftType::I64 => match self.deserialize_u64() {
                Ok(_) => Ok(()),
                Err(e) => Err(e),
            },
            ThriftType::String => match self.deserialize_bytes() {
                Ok(_) => Ok(()),
                Err(Error::NegativeSize) => {
                    proof {
                        assert(spec_skip_value(ty, old(self).remaining()) matches
                            DecodeOutcome::Malformed { err } && err == Error::NegativeSize);
                    }
                    Err(Error::NegativeSize)
                },
                Err(e) => Err(e),
            },
            ThriftType::Struct => self.skip_struct_fields(),
            ThriftType::List => self.skip_seq_value(ThriftType::List),
            ThriftType::Set_ => self.skip_seq_value(ThriftType::Set_),
            ThriftType::Map_ => self.skip_map_value(),
            _ => Err(Error::UnexpectedWireType),
        }
    }

    /// Passes over a list or set value: the element-type byte, the count,
    /// and that many elements.
    fn skip_seq_value(&mut self, ty: ThriftType) -> (r: Result<(), Error>)
        requires
            old(self).wf(),
            ty is List || ty is Set_,
        ensures
            final(self).wf(),
            final(self).written() == old(self).written(),
            match spec_skip_value(ty, old(self).remaining()) {
                DecodeOutcome::Value { v: _, used } => r is Ok && final(self).rpos() == old(self).rpos() + used,
                DecodeOutcome::Incomplete => r == Err::<(), Error>(Error::EOF) && final(self).rpos() == old(self).rpos(),
                DecodeOutcome::Malformed { err } => r matches Err(e) && e == err,
            },
        decreases old(self).remaining().len(), 3int,
    {
        proof {
            reveal(spec_skip_value);
        }
        let ghost rem0 = old(self).remaining();
        if self.inner.remaining_len() < 5 {
            return Err(Error::EOF);
        }
        let start = self.inner.position();
        let etb = match self.deserialize_u8() {
            Ok(b) => b,
            Err(e) => { return Err(e); },
        };
        let et = match ThriftType::from_byte(etb) {
            Some(t) => t,
            None => { return Err(Error::UnexpectedWireType); },
        };
        proof {
            assert(self.remaining().take(4) =~= rem0.subrange(1, 5));
        }
        let cnt = match self.deserialize_i32() {
            Ok(v) => v,
            Err(e) => { return Err(e); },
        };
        if cnt < 0 {
            return Err(Error::NegativeSize);
        }
        proof {
            assert(self.remaining() =~= rem0.skip(5));
            lemma_skip_n_props(et, rem0.skip(5), cnt as int);
        }
        match self.skip_elems(et, cnt as u32) {
            Ok(u) => Ok(u),
            Err(Error::EOF) => {
                self.rewind_to(start);
                Err(Error::EOF)
            },
            Err(e) => Err(e),
        }
    }

    /// Passes over a map value: the key and value type bytes, the count,
    /// and that many pairs.
    fn skip_map_value(&mut self) -> (r: Result<(), Error>)
        requires
            old(self).wf(),
        ensures
            final(self).wf(),
            final(self).written() == old(self).written(),
            match spec_skip_value(ThriftType::Map_, old(self).remaining()) {
                DecodeOutcome::Value { v: _, used } => r is Ok && final(self).rpos() == old(self).rpos() + used,
                DecodeOutcome::Incomplete => r == Err::<(), Error>(Error::EOF) && final(self).rpos() == old(self).rpos(),
                DecodeOutcome::Malformed { err } => r matches Err(e) && e == err,
            },
        decreases old(self).remaining().len(), 3int,
    {
        proof {
            reveal(spec_skip_value);
        }
        let ghost rem0 = old(self).remaining();
        if self.inner.remaining_len() < 6 {
            return Err(Error::EOF);
        }
        let start = self.inner.position();
        let ktb = match self.deserialize_u8() {
            Ok(b) => b,
            Err(e) => { return Err(e); },
        };
        let kt = match ThriftType::from_byte(ktb) {
            Some(t) => t,
            None => { return Err(Error::UnexpectedWireType); },
        };
        let vtb = match self.deserialize_u8() {
            Ok(b) => b,
            Err(e) => { return Err(e); },
        };
        let vt = match ThriftType::from_byte(vtb) {
            Some(t) => t,
            None => { return Err(Error::UnexpectedWireType); },
        };
        proof {
            assert(vtb == rem0[1]);
            assert(self.remaining().take(4) =~= rem0.subrange(2, 6));
        }
        let cnt = match self.deserialize_i32() {
            Ok(v) => v,
            Err(e) => { return Err(e); },
        };
        if cnt < 0 {
            return Err(Error::NegativeSize);
        }
        proof {
            assert(self.remaining() =~= rem0.skip(6));
            lemma_skip_pairs_props(kt, vt, rem0.skip(6), cnt as int);
        }
        match self.skip_map_pairs(kt, vt, cnt as u32) {
            Ok(u) => Ok(u),
            Err(Error::EOF) => {
                self.rewind_to(start);
                Err(Error::EOF)
            },
            Err(e) => Err(e),
        }
    }

    /// Passes over the fields of a struct value up to its stop marker.
    fn skip_struct_fields(&mut self) -> (r: Result<(), Error>)
        requires
            old(self).wf(),
        ensures
            final(self).wf(),
            final(self).written() == old(self).written(),
            match spec_skip_fields(old(self).remaining()) {
                DecodeOutcome::Value { v: _, used } => r is Ok && final(self).rpos() == old(self).rpos() + used,
                DecodeOutcome::Incomplete => r == Err::<(), Error>(Error::EOF) && final(self).rpos() == old(self).rpos(),
                DecodeOutcome::Malformed { err } => r matches Err(e) && e == err,
            },
        decreases old(self).remaining().len(), 1int,
    {
        proof {
            reveal(spec_skip_value);
        }
        let start = self.inner.position();
        loop
            invariant
                self.wf(),
                old(self).wf(),
                self.written() == old(self).written(),
                start == old(self).rpos(),
                old(self).rpos() <= self.rpos() <= self.written().len(),
                spec_skip_fields(old(self).remaining()) == (match spec_skip_fields(
                    self.remaining(),
                ) {
                    DecodeOutcome::Value { v: _, used } => DecodeOutcome::Value {
                        v: (),
                        used: self.rpos() - old(self).rpos() + used,
                    },
                    DecodeOutcome::Incomplete => DecodeOutcome::<()>::Incomplete,
                    DecodeOutcome::Malformed { err } => DecodeOutcome::Malformed { err },
                }),
            decreases self.remaining().len(),
        {
            let ghost rem_i = self.remaining();
            proof {
                lemma_field_decode_props(rem_i);
            }
            let f = match self.read_field_begin() {
                Ok(f) => f,
                Err(Error::EOF) => {
                    self.rewind_to(start);
                    return Err(Error::EOF);
                },
                Err(e) => { return Err(e); },
            };
            match f.ty {
                ThriftType::Stop => {
                    return Ok(());
                },
                _ => {},
            }
            proof {
                reveal(spec_skip_value);
                assert(self.remaining() =~= rem_i.skip(3));
                lemma_skip_value_props(f.ty, self.remaining());
            }
            match self.skip_field(f.ty) {
                Ok(_) => {},
                Err(Error::EOF) => {
                    self.rewind_to(start);
                    return Err(Error::EOF);
                },
                Err(e) => { return Err(e); },
            }
            proof {
                let u_all = self.rpos() - old(self).rpos() - (rem_i.len() - old(self).remaining().len() + old(self).remaining().len() - rem_i.len());
                assert(self.remaining() =~= rem_i.skip(rem_i.len() - self.remaining().len()));
            }
        }
    }

    /// Passes over `n` values of type `t`.
    fn skip_elems(&mut self, t: ThriftType, n: u32) -> (r: Result<(), Error>)
        requires
            old(self).wf(),
        ensures
            final(self).wf(),
            final(self).written() == old(self).written(),
            match spec_skip_n(t, old(self).remaining(), n as int) {
                DecodeOutcome::Value { v: _, used } => r is Ok && final(self).rpos() == old(self).rpos() + used,
                DecodeOutcome::Incomplete => r == Err::<(), Error>(Error::EOF) && final(self).rpos() == old(self).rpos(),
                DecodeOutcome::Malformed { err } => r matches Err(e) && e == err,
            },
        decreases old(self).remaining().len(), 9int,
    {
        let start = self.inner.position();
        let mut i: u32 = 0;
        while i < n
            invariant
                self.wf(),
                old(self).wf(),
                self.written() == old(self).written(),
                start == old(self).rpos(),
                old(self).rpos() <= self.rpos() <= self.written().len(),
                i <= n,
                spec_skip_n(t, old(self).remaining(), n as int) == (match spec_skip_n(
                    t,
                    self.remaining(),
                    n - i,
                ) {
                    DecodeOutcome::Value { v: _, used } => DecodeOutcome::Value {
                        v: (),
                        used: self.rpos() - old(self).rpos() + used,
                    },
                    DecodeOutcome::Incomplete => DecodeOutcome::<()>::Incomplete,
                    DecodeOutcome::Malformed { err } => DecodeOutcome::Malformed { err },
                }),
            decreases n - i,
        {
            let ghost rem_i = self.remaining();
            proof {
                reveal(spec_skip_value);
                lemma_skip_value_props(t, rem_i);
            }
            match self.skip_field(t) {
                Ok(_) => {},
                Err(Error::EOF) => {
                    self.rewind_to(start);
                    return Err(Error::EOF);
                },
                Err(e) => { return Err(e); },
            }
            proof {
                assert(self.remaining() =~= rem_i.skip(rem_i.len() - self.remaining().len()));
            }
            i = i + 1;
        }
        Ok(())
    }

    /// Passes over `n` key-value pairs.
    #[verifier::rlimit(100)]
    #[verifier::spinoff_prover]
    fn skip_map_pairs(&mut self, kt: ThriftType, vt: ThriftType, n: u32) -> (r: Result<
        (),
        Error,
    >)
        requires
            old(self).wf(),
        ensures
            final(self).wf(),
            final(self).written() == old(self).written(),
            match spec_skip_pairs(kt, vt, old(self).remaining(), n as int) {
                DecodeOutcome::Value { v: _, used } => r is Ok && final(self).rpos() == old(self).rpos() + used,
                DecodeOutcome::Incomplete => r == Err::<(), Error>(Error::EOF) && final(self).rpos() == old(self).rpos(),
                DecodeOutcome::Malformed { err } => r matches Err(e) && e == err,
            },
        decreases old(self).remaining().len(), 9int,
    {
        let start = self.inner.position();
        let mut i: u32 = 0;
        while i < n
            invariant
                self.wf(),
                old(self).wf(),
                self.written() == old(self).written(),
                start == old(self).rpos(),
                old(self).rpos() <= self.rpos() <= self.written().len(),
                i <= n,
                spec_skip_pairs(kt, vt, old(self).remaining(), n as int) == (match spec_skip_pairs(
                    kt,
                    vt,
                    self.remaining(),
                    n - i,
                ) {
                    DecodeOutcome::Value { v: _, used } => DecodeOutcome::Value {
                        v: (),
                        used: self.rpos() - old(self).rpos() + used,
                    },
                    DecodeOutcome::Incomplete => DecodeOutcome::<()>::Incomplete,
                    DecodeOutcome::Malformed { err } => DecodeOutcome::Malformed { err },
                }),
            decreases n - i,
        {
            let ghost rem_i = self.remaining();
            proof {
                reveal(spec_skip_value);
                lemma_skip_pair_props(kt, vt, rem_i);
                lemma_skip_value_props(kt, rem_i);
            }
            match self.skip_field(kt) {
                Ok(_) => {},
                Err(Error::EOF) => {
                    self.rewind_to(start);
                    return Err(Error::EOF);
                },
                Err(e) => { return Err(e); },
            }
            let ghost rem_k = self.remaining();
            proof {
                assert(rem_k =~= rem_i.skip(rem_i.len() - rem_k.len()));
                lemma_skip_value_props(vt, rem_k);
            }
            match self.skip_field(vt) {
                Ok(_) => {},
                Err(Error::EOF) => {
                    self.rewind_to(start);
                    return Err(Error::EOF);
                },
                Err(e) => { return Err(e); },
            }
            proof {
                let u1 = rem_i.len() - rem_k.len();
                let u2 = rem_k.len() - self.remaining().len();
                assert(rem_k =~= rem_i.skip(u1));
                assert(self.remaining() =~= rem_k.skip(u2));
                assert(self.remaining() =~= rem_i.skip(u1 + u2));
                assert(spec_skip_pair(kt, vt, rem_i) == (DecodeOutcome::<()>::Value {
                    v: (),
                    used: u1 + u2,
                }));
                assert(spec_skip_pairs(kt, vt, rem_i, n - i) == (match spec_skip_pairs(
                    kt,
                    vt,
                    self.remaining(),
                    n - i - 1,
                ) {
                    DecodeOutcome::Value { v: _, used } => DecodeOutcome::Value {
                        v: (),
                        used: u1 + u2 + used,
                    },
                    DecodeOutcome::Incomplete => DecodeOutcome::<()>::Incomplete,
                    DecodeOutcome::Malformed { err } => DecodeOutcome::Malformed { err },
                }));
            }
            i = i + 1;
        }
        Ok(())
    }
}

// ---------------------------------------------------------------------------
// The headers' byte shapes and what reading them yields.
// ---------------------------------------------------------------------------

/// The version word of a message frame of the given kind.
pub open spec fn spec_version_word(t: ThriftMessageType) -> u32 {
    THRIFT_VERSION_1 | (t.spec_byte() as u32)
}

/// The bytes of a message header: the version word, the length-prefixed
/// name, and a zero sequence id.
pub open spec fn spec_message_begin_be(name: Seq<u8>, t: ThriftMessageType) -> Seq<u8>
    recommends
        name.len() <= 0x7fff_ffff,
{
    spec_be32(spec_version_word(t)) + spec_blob_be(name) + spec_i16_be(0)
}

/// The bytes of a field header: the type code, then the field id.
pub open spec fn spec_field_begin_be(t: ThriftType, id: i16) -> Seq<u8> {
    seq![t.spec_byte()] + spec_i16_be(id)
}

/// What reading a message header from the front of `rem` yields.
pub enum MsgDecode {
    Msg { name: Seq<u8>, kind: ThriftMessageType, seqid: i16, used: int },
    Short,
    Bad { err: Error },
}

pub open spec fn spec_read_message_begin(rem: Seq<u8>) -> MsgDecode {
    if rem.len() < 4 {
        MsgDecode::Short
    } else {
        let w = spec_from_be32(rem.take(4));
        if w < 0x8000_0000 {
            MsgDecode::Bad { err: Error::ProtocolVersionMissing }
        } else if w & THRIFT_VERSION_MASK != THRIFT_VERSION_1 {
            MsgDecode::Bad { err: Error::BadVersion }
        } else {
            match ThriftMessageType::spec_from_byte((w & THRIFT_TYPE_MASK) as u8) {
                Option::None => MsgDecode::Bad { err: Error::UnexpectedWireType },
                Option::Some(mt) => {
                    let rest = rem.skip(4);
                    if rest.len() < 4 {
                        MsgDecode::Short
                    } else {
                        let n = spec_i32_from_be(rest.take(4));
                        if n < 0 {
                            MsgDecode::Bad { err: Error::NegativeSize }
                        } else if rest.len() < 4 + n {
                            MsgDecode::Short
                        } else {
                            let body = rest.subrange(4, 4 + n);
                            if !valid_utf8(body) {
                                MsgDecode::Bad { err: Error::Utf8Error }
                            } else {
                                let rest2 = rest.skip(4 + n);
                                if rest2.len() < 2 {
                                    MsgDecode::Short
                                } else {
                                    MsgDecode::Msg {
                                        name: body,
                                        kind: mt,
                                        seqid: spec_i16_from_be(rest2.take(2)),
                                        used: 10 + n,
                                    }
                                }
                            }
                        }
                    }
                },
            }
        }
    }
}

/// What reading a field header from the front of `rem` yields. A stop marker
/// is a field of type `Stop` with a zero id, one byte long.
pub enum FieldDecode {
    Fld { kind: ThriftType, seqid: i16, used: int },
    Short,
    Bad { err: Error },
}

pub open spec fn spec_read_field_begin(rem: Seq<u8>) -> FieldDecode {
    if rem.len() < 1 {
        FieldDecode::Short
    } else {
        match ThriftType::spec_from_byte(rem[0]) {
            Option::None => FieldDecode::Bad { err: Error::UnexpectedWireType },
            Option::Some(t) => {
                if t is Stop {
                    FieldDecode::Fld { kind: t, seqid: 0, used: 1 }
                } else if rem.len() < 3 {
                    FieldDecode::Short
                } else {
                    FieldDecode::Fld {
                        kind: t,
                        seqid: spec_i16_from_be(rem.skip(1).take(2)),
                        used: 3,
                    }
                }
            },
        }
    }
}

/// Relies on `String::from_utf8`: it succeeds exactly on valid UTF-8 input
/// and returns the string those bytes spell.
#[verifier::external_body]
pub(crate) fn bytes_to_string(v: Vec<u8>) -> (r: Result<String, Error>)
    ensures
        r is Ok <==> valid_utf8(v@),
        r matches Ok(s) ==> s@ == decode_utf8(v@),
        r matches Err(e) ==> e == Error::Utf8Error,
{
    match String::from_utf8(v) {
        Ok(s) => Ok(s),
        Err(_) => Err(Error::Utf8Error),
    }
}

} // verus!

verus! {

// ---------------------------------------------------------------------------
// Round-trip and prefix laws of the headers.
// ---------------------------------------------------------------------------

/// Reading a message header back from its own bytes yields the same name
/// bytes, kind, and a zero sequence id, and consumes exactly the header.
pub proof fn lemma_message_begin_round_trip(name: Seq<u8>, t: ThriftMessageType, tail: Seq<u8>)
    requires
        name.len() <= 0x7fff_ffff,
        valid_utf8(name),
    ensures
        spec_read_message_begin(spec_message_begin_be(name, t) + tail) == (MsgDecode::Msg {
            name,
            kind: t,
            seqid: 0i16,
            used: 10 + name.len() as int,
        }),
{
    let enc = spec_message_begin_be(name, t) + tail;
    let w = spec_version_word(t);
    assert(enc.take(4) =~= spec_be32(w));
    lemma_be32_round_trip(w);
    let b = t.spec_byte();
    assert((0x8001_0000u32 | (b as u32)) >= 0x8000_0000) by (bit_vector);
    assert(((0x8001_0000u32 | (b as u32)) & 0xffff_0000) == 0x8001_0000) by (bit_vector);
    assert((((0x8001_0000u32 | (b as u32)) & 0xff) as u8) == b) by (bit_vector);
    lemma_message_type_byte_round_trip(t);
    let rest = enc.skip(4);
    assert(rest.take(4) =~= spec_i32_be(name.len() as i32));
    lemma_i32_round_trip(name.len() as i32);
    let n = spec_i32_from_be(rest.take(4));
    assert(n == name.len());
    assert(rest.subrange(4, 4 + n) =~= name);
    let rest2 = rest.skip(4 + n);
    assert(rest2.take(2) =~= spec_i16_be(0i16));
    lemma_i16_round_trip(0i16);
}

/// The message header round-trips at the level of text: writing a name and a
/// kind and reading the header back yields that very name and kind.
pub proof fn lemma_message_header_round_trip(name: Seq<char>, t: ThriftMessageType, tail: Seq<u8>)
    requires
        encode_utf8(name).len() <= 0x7fff_ffff,
    ensures
        spec_read_message_begin(spec_message_begin_be(encode_utf8(name), t) + tail) matches
            MsgDecode::Msg { name: nb, kind, seqid, used } && decode_utf8(nb) == name && kind == t
            && seqid == 0i16 && used == 10 + encode_utf8(name).len(),
{
    vstd::utf8::encode_utf8_valid_utf8(name);
    vstd::utf8::encode_utf8_decode_utf8(name);
    lemma_message_begin_round_trip(encode_utf8(name), t, tail);
}

/// Reading a field header back from its own bytes yields the same type code
/// and field id, and consumes exactly the header.
pub proof fn lemma_field_begin_round_trip(t: ThriftType, id: i16, tail: Seq<u8>)
    requires
        !(t is Stop),
    ensures
        spec_read_field_begin(spec_field_begin_be(t, id) + tail) == (FieldDecode::Fld {
            kind: t,
            seqid: id,
            used: 3,
        }),
{
    let enc = spec_field_begin_be(t, id) + tail;
    assert(enc[0] == t.spec_byte());
    lemma_thrift_type_byte_round_trip(t);
    assert(enc.skip(1).take(2) =~= spec_i16_be(id));
    lemma_i16_round_trip(id);
}

/// A stop marker reads back as a field of type `Stop` with a zero id.
pub proof fn lemma_field_stop_round_trip(tail: Seq<u8>)
    ensures
        spec_read_field_begin(seq![0u8] + tail) == (FieldDecode::Fld {
            kind: ThriftType::Stop,
            seqid: 0i16,
            used: 1,
        }),
{
    let enc = seq![0u8] + tail;
    assert(enc[0] == 0);
}

/// Cutting a message-header stream anywhere before the header's end makes
/// the read incomplete: it reports `Short`, never a value and never a fault.
pub proof fn lemma_message_begin_prefix_short(full: Seq<u8>, k: int)
    requires
        spec_read_message_begin(full) is Msg,
        0 <= k < spec_read_message_begin(full)->Msg_used,
    ensures
        spec_read_message_begin(full.take(k)) == MsgDecode::Short,
{
    let p = full.take(k);
    if k < 4 {
    } else {
        assert(p.take(4) =~= full.take(4));
        let rest = full.skip(4);
        let rest_p = p.skip(4);
        assert(rest_p =~= rest.take(k - 4));
        if k - 4 < 4 {
        } else {
            assert(rest_p.take(4) =~= rest.take(4));
            let n = spec_i32_from_be(rest.take(4));
            if k - 4 < 4 + n {
            } else {
                assert(rest_p.subrange(4, 4 + n) =~= rest.subrange(4, 4 + n));
                assert(rest_p.skip(4 + n) =~= rest.skip(4 + n).take(k - 8 - n));
                assert(rest_p.skip(4 + n).len() < 2);
            }
        }
    }
}

/// Cutting a field-header stream anywhere before the header's end makes the
/// read incomplete.
pub proof fn lemma_field_begin_prefix_short(full: Seq<u8>, k: int)
    requires
        spec_read_field_begin(full) is Fld,
        0 <= k < spec_read_field_begin(full)->Fld_used,
    ensures
        spec_read_field_begin(full.take(k)) == FieldDecode::Short,
{
    let p = full.take(k);
    if k >= 1 {
        assert(p[0] == full[0]);
    }
}

} // verus!

verus! {

// ---------------------------------------------------------------------------
// Reading length-prefixed blobs and passing over values, as sequence
// functions.
// ---------------------------------------------------------------------------

use crate::protocol::DecodeOutcome;

/// What reading a length-prefixed blob from the front of `rem` yields.
pub open spec fn spec_read_blob(rem: Seq<u8>) -> DecodeOutcome<Seq<u8>> {
    if rem.len() < 4 {
        DecodeOutcome::Incomplete
    } else {
        let n = spec_i32_from_be(rem.take(4));
        if n < 0 {
            DecodeOutcome::Malformed { err: Error::NegativeSize }
        } else if rem.len() < 4 + n {
            DecodeOutcome::Incomplete
        } else {
            DecodeOutcome::Value { v: rem.subrange(4, 4 + n), used: 4 + n }
        }
    }
}

/// How many bytes a value of a fixed-width wire type takes; `None` for the
/// types whose width depends on their contents.
pub open spec fn spec_prim_width(t: ThriftType) -> Option<int> {
    match t {
        ThriftType::Bool => Some(1),
        ThriftType::Byte => Some(1),
        ThriftType::I16 => Some(2),
        ThriftType::I32 => Some(4),
        ThriftType::Double => Some(8),
        ThriftType::U64 => Some(8),
        ThriftType::I64 => Some(8),
        _ => None,
    }
}

/// What passing over one value of wire type `t` consumes: a fixed width
/// for the primitives, a length-prefixed blob for a string, the fields up
/// to the stop marker for a struct, and the counted elements for a list, a
/// set or a map. The range guards only restate what the outcomes already
/// imply; they keep the recursion visibly descending.
#[verifier::opaque]
pub open spec fn spec_skip_value(t: ThriftType, rem: Seq<u8>) -> DecodeOutcome<()>
    decreases rem.len(), 2int,
{
    if t is String {
        match spec_read_blob(rem) {
            DecodeOutcome::Value { v: _, used } => DecodeOutcome::Value { v: (), used },
            DecodeOutcome::Incomplete => DecodeOutcome::Incomplete,
            DecodeOutcome::Malformed { err } => DecodeOutcome::Malformed { err },
        }
    } else if t is Struct {
        spec_skip_fields(rem)
    } else if t is List || t is Set_ {
        if rem.len() < 5 {
            DecodeOutcome::Incomplete
        } else {
            match ThriftType::spec_from_byte(rem[0]) {
                Option::None => DecodeOutcome::Malformed { err: Error::UnexpectedWireType },
                Option::Some(et) => {
                    let n = spec_i32_from_be(rem.subrange(1, 5));
                    if n < 0 {
                        DecodeOutcome::Malformed { err: Error::NegativeSize }
                    } else {
                        match spec_skip_n(et, rem.skip(5), n as int) {
                            DecodeOutcome::Value { v: _, used } => DecodeOutcome::Value {
                                v: (),
                                used: 5 + used,
                            },
                            DecodeOutcome::Incomplete => DecodeOutcome::Incomplete,
                            DecodeOutcome::Malformed { err } => DecodeOutcome::Malformed { err },
                        }
                    }
                },
            }
        }
    } else if t is Map_ {
        if rem.len() < 6 {
            DecodeOutcome::Incomplete
        } else {
            match ThriftType::spec_from_byte(rem[0]) {
                Option::None => DecodeOutcome::Malformed { err: Error::UnexpectedWireType },
                Option::Some(kt) => match ThriftType::spec_from_byte(rem[1]) {
                    Option::None => DecodeOutcome::Malformed { err: Error::UnexpectedWireType },
                    Option::Some(vt) => {
                        let n = spec_i32_from_be(rem.subrange(2, 6));
                        if n < 0 {
                            DecodeOutcome::Malformed { err: Error::NegativeSize }
                        } else {
                            match spec_skip_pairs(kt, vt, rem.skip(6), n as int) {
                                DecodeOutcome::Value { v: _, used } => DecodeOutcome::Value {
                                    v: (),
                                    used: 6 + used,
                                },
                                DecodeOutcome::Incomplete => DecodeOutcome::Incomplete,
                                DecodeOutcome::Malformed { err } => DecodeOutcome::Malformed {
                                    err,
                                },
                            }
                        }
                    },
                },
            }
        }
    } else {
        match spec_prim_width(t) {
            Option::None => DecodeOutcome::Malformed { err: Error::UnexpectedWireType },
            Option::Some(w) => {
                if rem.len() < w {
                    DecodeOutcome::Incomplete
                } else {
                    DecodeOutcome::Value { v: (), used: w }
                }
            },
        }
    }
}

/// What passing over a struct value consumes: its fields up to and
/// including the stop marker.
pub open spec fn spec_skip_fields(rem: Seq<u8>) -> DecodeOutcome<()>
    decreases rem.len(), 1int,
{
    match spec_read_field_begin(rem) {
        FieldDecode::Short => DecodeOutcome::Incomplete,
        FieldDecode::Bad { err } => DecodeOutcome::Malformed { err },
        FieldDecode::Fld { kind, seqid, used } => {
            if kind is Stop {
                DecodeOutcome::Value { v: (), used }
            } else if !(1 <= used <= rem.len()) {
                DecodeOutcome::Malformed { err: Error::UnexpectedWireType }
            } else {
                match spec_skip_value(kind, rem.skip(used)) {
                    DecodeOutcome::Incomplete => DecodeOutcome::Incomplete,
                    DecodeOutcome::Malformed { err } => DecodeOutcome::Malformed { err },
                    DecodeOutcome::Value { v: _, used: u2 } => {
                        if !(1 <= u2 <= rem.len() - used) {
                            DecodeOutcome::Malformed { err: Error::UnexpectedWireType }
                        } else {
                            match spec_skip_fields(rem.skip(used + u2)) {
                                DecodeOutcome::Value { v: _, used: u3 } => DecodeOutcome::Value {
                                    v: (),
                                    used: used + u2 + u3,
                                },
                                DecodeOutcome::Incomplete => DecodeOutcome::Incomplete,
                                DecodeOutcome::Malformed { err } => DecodeOutcome::Malformed {
                                    err,
                                },
                            }
                        }
                    },
                }
            }
        },
    }
}

/// What passing over `n` values of type `t` consumes.
pub open spec fn spec_skip_n(t: ThriftType, rem: Seq<u8>, n: int) -> DecodeOutcome<()>
    decreases rem.len(), 3int,
{
    if n <= 0 {
        DecodeOutcome::Value { v: (), used: 0 }
    } else {
        match spec_skip_value(t, rem) {
            DecodeOutcome::Incomplete => DecodeOutcome::Incomplete,
            DecodeOutcome::Malformed { err } => DecodeOutcome::Malformed { err },
            DecodeOutcome::Value { v: _, used } => {
                if !(1 <= used <= rem.len()) {
                    DecodeOutcome::Malformed { err: Error::UnexpectedWireType }
                } else {
                    match spec_skip_n(t, rem.skip(used), n - 1) {
                        DecodeOutcome::Value { v: _, used: u2 } => DecodeOutcome::Value {
                            v: (),
                            used: used + u2,
                        },
                        DecodeOutcome::Incomplete => DecodeOutcome::Incomplete,
                        DecodeOutcome::Malformed { err } => DecodeOutcome::Malformed { err },
                    }
                }
            },
        }
    }
}

/// What passing over one key-value pair consumes.
pub open spec fn spec_skip_pair(kt: ThriftType, vt: ThriftType, rem: Seq<u8>) -> DecodeOutcome<()>
    decreases rem.len(), 3int,
{
    match spec_skip_value(kt, rem) {
        DecodeOutcome::Incomplete => DecodeOutcome::Incomplete,
        DecodeOutcome::Malformed { err } => DecodeOutcome::Malformed { err },
        DecodeOutcome::Value { v: _, used } => {
            if !(1 <= used <= rem.len()) {
                DecodeOutcome::Malformed { err: Error::UnexpectedWireType }
            } else {
                match spec_skip_value(vt, rem.skip(used)) {
                    DecodeOutcome::Incomplete => DecodeOutcome::Incomplete,
                    DecodeOutcome::Malformed { err } => DecodeOutcome::Malformed { err },
                    DecodeOutcome::Value { v: _, used: u2 } => DecodeOutcome::Value {
                        v: (),
                        used: used + u2,
                    },
                }
            }
        },
    }
}

/// What passing over `n` key-value pairs consumes.
pub open spec fn spec_skip_pairs(kt: ThriftType, vt: ThriftType, rem: Seq<u8>, n: int) -> DecodeOutcome<
    (),
>
    decreases rem.len(), 4int,
{
    if n <= 0 {
        DecodeOutcome::Value { v: (), used: 0 }
    } else {
        match spec_skip_pair(kt, vt, rem) {
            DecodeOutcome::Incomplete => DecodeOutcome::Incomplete,
            DecodeOutcome::Malformed { err } => DecodeOutcome::Malformed { err },
            DecodeOutcome::Value { v: _, used } => {
                if !(1 <= used <= rem.len()) {
                    DecodeOutcome::Malformed { err: Error::UnexpectedWireType }
                } else {
                    match spec_skip_pairs(kt, vt, rem.skip(used), n - 1) {
                        DecodeOutcome::Value { v: _, used: u2 } => DecodeOutcome::Value {
                            v: (),
                            used: used + u2,
                        },
                        DecodeOutcome::Incomplete => DecodeOutcome::Incomplete,
                        DecodeOutcome::Malformed { err } => DecodeOutcome::Malformed { err },
                    }
                }
            },
        }
    }
}

/// Whatever reading a message header yields, a fault is never `EOF` and a
/// value's length is within the stream.
pub proof fn lemma_msg_decode_props(rem: Seq<u8>)
    ensures
        match spec_read_message_begin(rem) {
            MsgDecode::Msg { name, kind, seqid, used } => 4 <= used <= rem.len(),
            MsgDecode::Bad { err } => err != Error::EOF,
            MsgDecode::Short => true,
        },
{
}

/// Whatever reading a field header yields, a fault is never `EOF` and the
/// header's length is within the stream.
pub proof fn lemma_field_decode_props(rem: Seq<u8>)
    ensures
        match spec_read_field_begin(rem) {
            FieldDecode::Fld { kind, seqid, used } => 1 <= used <= rem.len(),
            FieldDecode::Bad { err } => err != Error::EOF,
            FieldDecode::Short => true,
        },
{
}

/// Whatever reading a blob yields, a fault is never `EOF` and the blob lies
/// within the stream.
pub proof fn lemma_blob_decode_props(rem: Seq<u8>)
    ensures
        match spec_read_blob(rem) {
            DecodeOutcome::Value { v, used } => 4 <= used <= rem.len() && v.len() == used - 4,
            DecodeOutcome::Malformed { err } => err != Error::EOF,
            DecodeOutcome::Incomplete => true,
        },
{
}

/// Whatever passing over a value yields, a fault is never `EOF` and the
/// value lies within the stream.
pub proof fn lemma_skip_value_props(t: ThriftType, rem: Seq<u8>)
    ensures
        match spec_skip_value(t, rem) {
            DecodeOutcome::Value { v, used } => 1 <= used <= rem.len(),
            DecodeOutcome::Malformed { err } => err != Error::EOF,
            DecodeOutcome::Incomplete => true,
        },
    decreases rem.len(), 2int,
{
    reveal(spec_skip_value);
    if t is String {
        lemma_blob_decode_props(rem);
    } else if t is Struct {
        lemma_skip_fields_props(rem);
    } else if t is List || t is Set_ {
        if rem.len() >= 5 {
            match ThriftType::spec_from_byte(rem[0]) {
                Option::Some(et) => {
                    let n = spec_i32_from_be(rem.subrange(1, 5));
                    if n >= 0 {
                        lemma_skip_n_props(et, rem.skip(5), n as int);
                    }
                },
                Option::None => {},
            }
        }
    } else if t is Map_ {
        if rem.len() >= 6 {
            match (ThriftType::spec_from_byte(rem[0]), ThriftType::spec_from_byte(rem[1])) {
                (Option::Some(kt), Option::Some(vt)) => {
                    let n = spec_i32_from_be(rem.subrange(2, 6));
                    if n >= 0 {
                        lemma_skip_pairs_props(kt, vt, rem.skip(6), n as int);
                    }
                },
                _ => {},
            }
        }
    }
}

/// Whatever passing over a struct value yields, a fault is never `EOF` and
/// the fields lie within the stream.
pub proof fn lemma_skip_fields_props(rem: Seq<u8>)
    ensures
        match spec_skip_fields(rem) {
            DecodeOutcome::Value { v, used } => 1 <= used <= rem.len(),
            DecodeOutcome::Malformed { err } => err != Error::EOF,
            DecodeOutcome::Incomplete => true,
        },
    decreases rem.len(), 1int,
{
    reveal(spec_skip_value);
    lemma_field_decode_props(rem);
    match spec_read_field_begin(rem) {
        FieldDecode::Fld { kind, seqid, used } => {
            if !(kind is Stop) && 1 <= used <= rem.len() {
                lemma_skip_value_props(kind, rem.skip(used));
                match spec_skip_value(kind, rem.skip(used)) {
                    DecodeOutcome::Value { v: _, used: u2 } => {
                        if 1 <= u2 <= rem.len() - used {
                            lemma_skip_fields_props(rem.skip(used + u2));
                        }
                    },
                    _ => {},
                }
            }
        },
        _ => {},
    }
}

/// Whatever passing over `n` values yields, a fault is never `EOF` and the
/// values lie within the stream.
pub proof fn lemma_skip_n_props(t: ThriftType, rem: Seq<u8>, n: int)
    ensures
        match spec_skip_n(t, rem, n) {
            DecodeOutcome::Value { v, used } => 0 <= used <= rem.len(),
            DecodeOutcome::Malformed { err } => err != Error::EOF,
            DecodeOutcome::Incomplete => true,
        },
    decreases rem.len(), 3int,
{
    reveal(spec_skip_value);
    if n > 0 {
        lemma_skip_value_props(t, rem);
        match spec_skip_value(t, rem) {
            DecodeOutcome::Value { v: _, used } => {
                if 1 <= used <= rem.len() {
                    lemma_skip_n_props(t, rem.skip(used), n - 1);
                }
            },
            _ => {},
        }
    }
}

/// Whatever passing over one pair yields, a fault is never `EOF` and the
/// pair lies within the stream.
pub proof fn lemma_skip_pair_props(kt: ThriftType, vt: ThriftType, rem: Seq<u8>)
    ensures
        match spec_skip_pair(kt, vt, rem) {
            DecodeOutcome::Value { v, used } => 1 <= used <= rem.len(),
            DecodeOutcome::Malformed { err } => err != Error::EOF,
            DecodeOutcome::Incomplete => true,
        },
    decreases rem.len(), 3int,
{
    reveal(spec_skip_value);
    lemma_skip_value_props(kt, rem);
    match spec_skip_value(kt, rem) {
        DecodeOutcome::Value { v: _, used } => {
            if 1 <= used <= rem.len() {
                lemma_skip_value_props(vt, rem.skip(used));
            }
        },
        _ => {},
    }
}

/// Whatever passing over `n` pairs yields, a fault is never `EOF` and the
/// pairs lie within the stream.
pub proof fn lemma_skip_pairs_props(kt: ThriftType, vt: ThriftType, rem: Seq<u8>, n: int)
    ensures
        match spec_skip_pairs(kt, vt, rem, n) {
            DecodeOutcome::Value { v, used } => 0 <= used <= rem.len(),
            DecodeOutcome::Malformed { err } => err != Error::EOF,
            DecodeOutcome::Incomplete => true,
        },
    decreases rem.len(), 4int,
{
    if n > 0 {
        lemma_skip_pair_props(kt, vt, rem);
        match spec_skip_pair(kt, vt, rem) {
            DecodeOutcome::Value { v: _, used } => {
                if 1 <= used <= rem.len() {
                    lemma_skip_pairs_props(kt, vt, rem.skip(used), n - 1);
                }
            },
            _ => {},
        }
    }
}

} // verus!

verus! {

/// A blob cut before its end reads as incomplete.
pub proof fn lemma_blob_prefix_short(rem: Seq<u8>, k: int)
    requires
        spec_read_blob(rem) is Value,
        0 <= k < spec_read_blob(rem)->Value_used,
    ensures
        spec_read_blob(rem.take(k)) == DecodeOutcome::<Seq<u8>>::Incomplete,
{
    let p = rem.take(k);
    if k >= 4 {
        assert(p.take(4) =~= rem.take(4));
    }
}

/// A blob read does not look past the blob: any longer cut reads the same.
pub proof fn lemma_blob_extend(rem: Seq<u8>, k: int)
    requires
        spec_read_blob(rem) is Value,
        spec_read_blob(rem)->Value_used <= k <= rem.len(),
    ensures
        spec_read_blob(rem.take(k)) == spec_read_blob(rem),
{
    let p = rem.take(k);
    assert(p.take(4) =~= rem.take(4));
    let n = spec_i32_from_be(rem.take(4));
    assert(p.subrange(4, 4 + n) =~= rem.subrange(4, 4 + n));
}

/// A value cut before its end cannot be passed over: the skip is incomplete.
#[verifier::rlimit(100)]
#[verifier::spinoff_prover]
pub proof fn lemma_skip_prefix_short(t: ThriftType, rem: Seq<u8>, k: int)
    requires
        spec_skip_value(t, rem) is Value,
        0 <= k < spec_skip_value(t, rem)->Value_used,
    ensures
        spec_skip_value(t, rem.take(k)) == DecodeOutcome::<()>::Incomplete,
    decreases rem.len(), 2int,
{
    reveal(spec_skip_value);
    lemma_skip_value_props(t, rem);
    let p = rem.take(k);
    if t is String {
        lemma_blob_prefix_short(rem, k);
    } else if t is Struct {
        lemma_skip_fields_prefix(rem, k);
    } else if t is List || t is Set_ {
        if k >= 5 {
            assert(p[0] == rem[0]);
            assert(p.subrange(1, 5) =~= rem.subrange(1, 5));
            match ThriftType::spec_from_byte(rem[0]) {
                Option::Some(et) => {
                    let n = spec_i32_from_be(rem.subrange(1, 5));
                    lemma_skip_n_props(et, rem.skip(5), n as int);
                    assert(p.skip(5) =~= rem.skip(5).take(k - 5));
                    lemma_skip_n_prefix(et, rem.skip(5), n as int, k - 5);
                },
                Option::None => {},
            }
        }
    } else if t is Map_ {
        if k >= 6 {
            assert(p[0] == rem[0]);
            assert(p[1] == rem[1]);
            assert(p.subrange(2, 6) =~= rem.subrange(2, 6));
            match (ThriftType::spec_from_byte(rem[0]), ThriftType::spec_from_byte(rem[1])) {
                (Option::Some(kt), Option::Some(vt)) => {
                    let n = spec_i32_from_be(rem.subrange(2, 6));
                    lemma_skip_pairs_props(kt, vt, rem.skip(6), n as int);
                    assert(p.skip(6) =~= rem.skip(6).take(k - 6));
                    lemma_skip_pairs_prefix(kt, vt, rem.skip(6), n as int, k - 6);
                },
                _ => {},
            }
        }
    }
}

/// A struct value cut before its stop marker cannot be passed over.
pub proof fn lemma_skip_fields_prefix(rem: Seq<u8>, k: int)
    requires
        spec_skip_fields(rem) is Value,
        0 <= k < spec_skip_fields(rem)->Value_used,
    ensures
        spec_skip_fields(rem.take(k)) == DecodeOutcome::<()>::Incomplete,
    decreases rem.len(), 1int,
{
    reveal(spec_skip_value);
    lemma_skip_fields_props(rem);
    lemma_field_decode_props(rem);
    let p = rem.take(k);
    match spec_read_field_begin(rem) {
        FieldDecode::Fld { kind, seqid, used } => {
            if k < used {
                lemma_field_begin_prefix_short(rem, k);
            } else {
                lemma_field_begin_extend(rem, k);
                assert(!(kind is Stop));
                let rest = rem.skip(used);
                lemma_skip_value_props(kind, rest);
                assert(p.skip(used) =~= rest.take(k - used));
                match spec_skip_value(kind, rest) {
                    DecodeOutcome::Value { v: _, used: u2 } => {
                        if k - used < u2 {
                            lemma_skip_prefix_short(kind, rest, k - used);
                        } else {
                            lemma_skip_extend(kind, rest, k - used);
                            let rec = rem.skip(used + u2);
                            assert(rest.skip(u2) =~= rec);
                            lemma_skip_fields_props(rec);
                            assert(p.skip(used + u2) =~= rec.take(k - used - u2));
                            assert(p.skip(used).skip(u2) =~= p.skip(used + u2));
                            lemma_skip_fields_prefix(rec, k - used - u2);
                        }
                    },
                    _ => {},
                }
            }
        },
        _ => {},
    }
}

/// A run of values cut before its end cannot be passed over.
pub proof fn lemma_skip_n_prefix(t: ThriftType, rem: Seq<u8>, n: int, k: int)
    requires
        spec_skip_n(t, rem, n) is Value,
        0 <= k < spec_skip_n(t, rem, n)->Value_used,
    ensures
        spec_skip_n(t, rem.take(k), n) == DecodeOutcome::<()>::Incomplete,
    decreases rem.len(), 3int,
{
    reveal(spec_skip_value);
    let p = rem.take(k);
    if n > 0 {
        lemma_skip_n_props(t, rem, n);
        lemma_skip_value_props(t, rem);
        match spec_skip_value(t, rem) {
            DecodeOutcome::Value { v: _, used } => {
                if k < used {
                    lemma_skip_prefix_short(t, rem, k);
                } else {
                    let rec = rem.skip(used);
                    lemma_skip_n_props(t, rec, n - 1);
                    lemma_skip_extend(t, rem, k);
                    assert(p.skip(used) =~= rec.take(k - used));
                    lemma_skip_n_prefix(t, rec, n - 1, k - used);
                }
            },
            _ => {},
        }
    }
}

/// One pair cut before its end cannot be passed over.
pub proof fn lemma_skip_pair_prefix(kt: ThriftType, vt: ThriftType, rem: Seq<u8>, k: int)
    requires
        spec_skip_pair(kt, vt, rem) is Value,
        0 <= k < spec_skip_pair(kt, vt, rem)->Value_used,
    ensures
        spec_skip_pair(kt, vt, rem.take(k)) == DecodeOutcome::<()>::Incomplete,
    decreases rem.len(), 3int,
{
    reveal(spec_skip_value);
    let p = rem.take(k);
    lemma_skip_value_props(kt, rem);
    match spec_skip_value(kt, rem) {
        DecodeOutcome::Value { v: _, used } => {
            if k < used {
                lemma_skip_prefix_short(kt, rem, k);
            } else {
                let mid = rem.skip(used);
                lemma_skip_value_props(vt, mid);
                lemma_skip_extend(kt, rem, k);
                assert(p.skip(used) =~= mid.take(k - used));
                lemma_skip_prefix_short(vt, mid, k - used);
            }
        },
        _ => {},
    }
}

/// A run of pairs cut before its end cannot be passed over.
#[verifier::rlimit(100)]
#[verifier::spinoff_prover]
pub proof fn lemma_skip_pairs_prefix(kt: ThriftType, vt: ThriftType, rem: Seq<u8>, n: int, k: int)
    requires
        spec_skip_pairs(kt, vt, rem, n) is Value,
        0 <= k < spec_skip_pairs(kt, vt, rem, n)->Value_used,
    ensures
        spec_skip_pairs(kt, vt, rem.take(k), n) == DecodeOutcome::<()>::Incomplete,
    decreases rem.len(), 4int,
{
    let p = rem.take(k);
    if n > 0 {
        lemma_skip_pair_props(kt, vt, rem);
        match spec_skip_pair(kt, vt, rem) {
            DecodeOutcome::Value { v: _, used } => {
                if k < used {
                    lemma_skip_pair_prefix(kt, vt, rem, k);
                } else {
                    let rec = rem.skip(used);
                    lemma_skip_pairs_props(kt, vt, rec, n - 1);
                    lemma_skip_pair_extend(kt, vt, rem, k);
                    assert(p.skip(used) =~= rec.take(k - used));
                    lemma_skip_pairs_prefix(kt, vt, rec, n - 1, k - used);
                }
            },
            _ => {},
        }
    }
}

/// Passing over a value does not look past it: any longer cut skips the same.
#[verifier::rlimit(100)]
#[verifier::spinoff_prover]
pub proof fn lemma_skip_extend(t: ThriftType, rem: Seq<u8>, k: int)
    requires
        spec_skip_value(t, rem) is Value,
        spec_skip_value(t, rem)->Value_used <= k <= rem.len(),
    ensures
        spec_skip_value(t, rem.take(k)) == spec_skip_value(t, rem),
    decreases rem.len(), 2int,
{
    reveal(spec_skip_value);
    lemma_skip_value_props(t, rem);
    let p = rem.take(k);
    if t is String {
        lemma_blob_extend(rem, k);
    } else if t is Struct {
        lemma_skip_fields_extend(rem, k);
    } else if t is List || t is Set_ {
        match ThriftType::spec_from_byte(rem[0]) {
            Option::Some(et) => {
                let n = spec_i32_from_be(rem.subrange(1, 5));
                if n >= 0 {
                    lemma_skip_n_props(et, rem.skip(5), n as int);
                    assert(p[0] == rem[0]);
                    assert(p.subrange(1, 5) =~= rem.subrange(1, 5));
                    assert(p.skip(5) =~= rem.skip(5).take(k - 5));
                    lemma_skip_n_extend(et, rem.skip(5), n as int, k - 5);
                }
            },
            Option::None => {},
        }
    } else if t is Map_ {
        match (ThriftType::spec_from_byte(rem[0]), ThriftType::spec_from_byte(rem[1])) {
            (Option::Some(kt), Option::Some(vt)) => {
                let n = spec_i32_from_be(rem.subrange(2, 6));
                if n >= 0 {
                    lemma_skip_pairs_props(kt, vt, rem.skip(6), n as int);
                    assert(p[0] == rem[0]);
                    assert(p[1] == rem[1]);
                    assert(p.subrange(2, 6) =~= rem.subrange(2, 6));
                    assert(p.skip(6) =~= rem.skip(6).take(k - 6));
                    lemma_skip_pairs_extend(kt, vt, rem.skip(6), n as int, k - 6);
                }
            },
            _ => {},
        }
    }
}

/// Passing over a struct value does not look past its stop marker.
pub proof fn lemma_skip_fields_extend(rem: Seq<u8>, k: int)
    requires
        spec_skip_fields(rem) is Value,
        spec_skip_fields(rem)->Value_used <= k <= rem.len(),
    ensures
        spec_skip_fields(rem.take(k)) == spec_skip_fields(rem),
    decreases rem.len(), 1int,
{
    reveal(spec_skip_value);
    lemma_skip_fields_props(rem);
    lemma_field_decode_props(rem);
    let p = rem.take(k);
    match spec_read_field_begin(rem) {
        FieldDecode::Fld { kind, seqid, used } => {
            if kind is Stop {
                lemma_field_begin_extend(rem, k);
            } else {
                let rest = rem.skip(used);
                lemma_skip_value_props(kind, rest);
                match spec_skip_value(kind, rest) {
                    DecodeOutcome::Value { v: _, used: u2 } => {
                        if 1 <= u2 <= rem.len() - used {
                            let rec = rem.skip(used + u2);
                            assert(rest.skip(u2) =~= rec);
                            lemma_skip_fields_props(rec);
                            lemma_field_begin_extend(rem, k);
                            assert(p.skip(used) =~= rest.take(k - used));
                            lemma_skip_extend(kind, rest, k - used);
                            assert(p.skip(used).skip(u2) =~= p.skip(used + u2));
                            assert(p.skip(used + u2) =~= rec.take(k - used - u2));
                            lemma_skip_fields_extend(rec, k - used - u2);
                        }
                    },
                    _ => {},
                }
            }
        },
        _ => {},
    }
}

/// Passing over a run of values does not look past it.
pub proof fn lemma_skip_n_extend(t: ThriftType, rem: Seq<u8>, n: int, k: int)
    requires
        spec_skip_n(t, rem, n) is Value,
        spec_skip_n(t, rem, n)->Value_used <= k <= rem.len(),
    ensures
        spec_skip_n(t, rem.take(k), n) == spec_skip_n(t, rem, n),
    decreases rem.len(), 3int,
{
    reveal(spec_skip_value);
    let p = rem.take(k);
    if n > 0 {
        lemma_skip_value_props(t, rem);
        match spec_skip_value(t, rem) {
            DecodeOutcome::Value { v: _, used } => {
                lemma_skip_n_props(t, rem.skip(used), n - 1);
                lemma_skip_extend(t, rem, k);
                let rec = rem.skip(used);
                assert(p.skip(used) =~= rec.take(k - used));
                lemma_skip_n_extend(t, rec, n - 1, k - used);
            },
            _ => {},
        }
    }
}

/// Passing over one pair does not look past it.
pub proof fn lemma_skip_pair_extend(kt: ThriftType, vt: ThriftType, rem: Seq<u8>, k: int)
    requires
        spec_skip_pair(kt, vt, rem) is Value,
        spec_skip_pair(kt, vt, rem)->Value_used <= k <= rem.len(),
    ensures
        spec_skip_pair(kt, vt, rem.take(k)) == spec_skip_pair(kt, vt, rem),
    decreases rem.len(), 3int,
{
    reveal(spec_skip_value);
    let p = rem.take(k);
    lemma_skip_value_props(kt, rem);
    match spec_skip_value(kt, rem) {
        DecodeOutcome::Value { v: _, used } => {
            let mid = rem.skip(used);
            lemma_skip_value_props(vt, mid);
            lemma_skip_extend(kt, rem, k);
            assert(p.skip(used) =~= mid.take(k - used));
            match spec_skip_value(vt, mid) {
                DecodeOutcome::Value { v: _, used: u2 } => {
                    lemma_skip_extend(vt, mid, k - used);
                },
                _ => {},
            }
        },
        _ => {},
    }
}

/// Passing over a run of pairs does not look past it.
#[verifier::rlimit(100)]
#[verifier::spinoff_prover]
pub proof fn lemma_skip_pairs_extend(
    kt: ThriftType,
    vt: ThriftType,
    rem: Seq<u8>,
    n: int,
    k: int,
)
    requires
        spec_skip_pairs(kt, vt, rem, n) is Value,
        spec_skip_pairs(kt, vt, rem, n)->Value_used <= k <= rem.len(),
    ensures
        spec_skip_pairs(kt, vt, rem.take(k), n) == spec_skip_pairs(kt, vt, rem, n),
    decreases rem.len(), 4int,
{
    let p = rem.take(k);
    if n > 0 {
        lemma_skip_pair_props(kt, vt, rem);
        match spec_skip_pair(kt, vt, rem) {
            DecodeOutcome::Value { v: _, used } => {
                let rec = rem.skip(used);
                lemma_skip_pairs_props(kt, vt, rec, n - 1);
                lemma_skip_pair_extend(kt, vt, rem, k);
                assert(p.skip(used) =~= rec.take(k - used));
                lemma_skip_pairs_extend(kt, vt, rec, n - 1, k - used);
            },
            _ => {},
        }
    }
}

/// A message header read does not look past the header: any longer cut
/// reads the same header.
pub proof fn lemma_message_begin_extend(rem: Seq<u8>, k: int)
    requires
        spec_read_message_begin(rem) is Msg,
        spec_read_message_begin(rem)->Msg_used <= k <= rem.len(),
    ensures
        spec_read_message_begin(rem.take(k)) == spec_read_message_begin(rem),
{
    let p = rem.take(k);
    assert(p.take(4) =~= rem.take(4));
    let rest = rem.skip(4);
    let rest_p = p.skip(4);
    assert(rest_p =~= rest.take(k - 4));
    assert(rest_p.take(4) =~= rest.take(4));
    let n = spec_i32_from_be(rest.take(4));
    assert(rest_p.subrange(4, 4 + n) =~= rest.subrange(4, 4 + n));
    assert(rest_p.skip(4 + n).take(2) =~= rest.skip(4 + n).take(2));
}

/// A field header read does not look past the header: any longer cut reads
/// the same header.
pub proof fn lemma_field_begin_extend(rem: Seq<u8>, k: int)
    requires
        spec_read_field_begin(rem) is Fld,
        spec_read_field_begin(rem)->Fld_used <= k <= rem.len(),
    ensures
        spec_read_field_begin(rem.take(k)) == spec_read_field_begin(rem),
{
    let p = rem.take(k);
    assert(p[0] == rem[0]);
    if spec_read_field_begin(rem)->Fld_used == 3 {
        assert(p.skip(1).take(2) =~= rem.skip(1).take(2));
    }
}

} // verus!

verus! {

/// A length-prefixed blob reads back from its own bytes: the string and
/// binary round trip.
pub proof fn lemma_blob_round_trip(b: Seq<u8>, tail: Seq<u8>)
    requires
        b.len() <= 0x7fff_ffff,
    ensures
        spec_read_blob(spec_blob_be(b) + tail) == (DecodeOutcome::Value {
            v: b,
            used: 4 + b.len() as int,
        }),
{
    let enc = spec_blob_be(b) + tail;
    assert(enc.take(4) =~= spec_i32_be(b.len() as i32));
    lemma_i32_round_trip(b.len() as i32);
    let n = spec_i32_from_be(enc.take(4));
    assert(n == b.len());
    assert(enc.subrange(4, 4 + n) =~= b);
}

} // verus!
