//! Wire-level vocabulary of the Thrift Binary Protocol: the one-byte type
//! codes, the message kinds, the message and field headers, and the codec
//! error taxonomy.

use vstd::prelude::*;

use crate::binary_protocol::BinaryProtocol;

verus! {

/// The one-byte type code that identifies a value's shape on the wire.
#[derive(PartialEq, Eq, Structural, Debug, Clone, Copy)]
pub enum ThriftType {
    Stop,
    Void,
    Bool,
    Byte,
    Double,
    I16,
    I32,
    U64,
    I64,
    String,
    Struct,
    Map_,
    Set_,
    List,
}

impl ThriftType {
    /// The byte written on the wire for this type code.
    pub open spec fn spec_byte(self) -> u8 {
        match self {
            ThriftType::Stop => 0,
            ThriftType::Void => 1,
            ThriftType::Bool => 2,
            ThriftType::Byte => 3,
            ThriftType::Double => 4,
            ThriftType::I16 => 6,
            ThriftType::I32 => 8,
            ThriftType::U64 => 9,
            ThriftType::I64 => 10,
            ThriftType::String => 11,
            ThriftType::Struct => 12,
            ThriftType::Map_ => 13,
            ThriftType::Set_ => 14,
            ThriftType::List => 15,
        }
    }

    /// The type code denoted by a wire byte, if the byte is one of the
    /// assigned codes.
    pub open spec fn spec_from_byte(b: u8) -> Option<ThriftType> {
        match b {
            0u8 => Some(ThriftType::Stop),
            1u8 => Some(ThriftType::Void),
            2u8 => Some(ThriftType::Bool),
            3u8 => Some(ThriftType::Byte),
            4u8 => Some(ThriftType::Double),
            6u8 => Some(ThriftType::I16),
            8u8 => Some(ThriftType::I32),
            9u8 => Some(ThriftType::U64),
            10u8 => Some(ThriftType::I64),
            11u8 => Some(ThriftType::String),
            12u8 => Some(ThriftType::Struct),
            13u8 => Some(ThriftType::Map_),
            14u8 => Some(ThriftType::Set_),
            15u8 => Some(ThriftType::List),
            _ => None,
        }
    }

    pub fn to_byte(&self) -> (b: u8)
        ensures
            b == self.spec_byte(),
    {
        match self {
            ThriftType::Stop => 0,
            ThriftType::Void => 1,
            ThriftType::Bool => 2,
            ThriftType::Byte => 3,
            ThriftType::Double => 4,
            ThriftType::I16 => 6,
            ThriftType::I32 => 8,
            ThriftType::U64 => 9,
            ThriftType::I64 => 10,
            ThriftType::String => 11,
            ThriftType::Struct => 12,
            ThriftType::Map_ => 13,
            ThriftType::Set_ => 14,
            ThriftType::List => 15,
        }
    }

    pub fn from_byte(b: u8) -> (r: Option<ThriftType>)
        ensures
            r == ThriftType::spec_from_byte(b),
    {
        match b {
            0u8 => Some(ThriftType::Stop),
            1u8 => Some(ThriftType::Void),
            2u8 => Some(ThriftType::Bool),
            3u8 => Some(ThriftType::Byte),
            4u8 => Some(ThriftType::Double),
            6u8 => Some(ThriftType::I16),
            8u8 => Some(ThriftType::I32),
            9u8 => Some(ThriftType::U64),
            10u8 => Some(ThriftType::I64),
            11u8 => Some(ThriftType::String),
            12u8 => Some(ThriftType::Struct),
            13u8 => Some(ThriftType::Map_),
            14u8 => Some(ThriftType::Set_),
            15u8 => Some(ThriftType::List),
            _ => None,
        }
    }
}

/// Every type code maps to a byte and back to itself.
pub proof fn lemma_thrift_type_byte_round_trip(t: ThriftType)
    ensures
        ThriftType::spec_from_byte(t.spec_byte()) == Some(t),
{
}

/// The kind of a message frame: a request, a response, a fault reply, or a
/// fire-and-forget request.
#[derive(PartialEq, Eq, Structural, Debug, Clone, Copy)]
pub enum ThriftMessageType {
    Call,
    Reply,
    Exception,
    Oneway,
}

impl ThriftMessageType {
    /// The low byte of the version word for this message kind.
    pub open spec fn spec_byte(self) -> u8 {
        match self {
            ThriftMessageType::Call => 1,
            ThriftMessageType::Reply => 2,
            ThriftMessageType::Exception => 3,
            ThriftMessageType::Oneway => 4,
        }
    }

    pub open spec fn spec_from_byte(b: u8) -> Option<ThriftMessageType> {
        match b {
            1u8 => Some(ThriftMessageType::Call),
            2u8 => Some(ThriftMessageType::Reply),
            3u8 => Some(ThriftMessageType::Exception),
            4u8 => Some(ThriftMessageType::Oneway),
            _ => None,
        }
    }

    pub fn to_byte(&self) -> (b: u8)
        ensures
            b == self.spec_byte(),
    {
        match self {
            ThriftMessageType::Call => 1,
            ThriftMessageType::Reply => 2,
            ThriftMessageType::Exception => 3,
            ThriftMessageType::Oneway => 4,
        }
    }

    pub fn from_byte(b: u8) -> (r: Option<ThriftMessageType>)
        ensures
            r == ThriftMessageType::spec_from_byte(b),
    {
        match b {
            1u8 => Some(ThriftMessageType::Call),
            2u8 => Some(ThriftMessageType::Reply),
            3u8 => Some(ThriftMessageType::Exception),
            4u8 => Some(ThriftMessageType::Oneway),
            _ => None,
        }
    }
}

/// Every message kind maps to a byte and back to itself.
pub proof fn lemma_message_type_byte_round_trip(t: ThriftMessageType)
    ensures
        ThriftMessageType::spec_from_byte(t.spec_byte()) == Some(t),
{
}

/// What the codec can report: a read that ran short of bytes, a malformed
/// version word, a length-prefixed blob with a negative length, bytes that are
/// not UTF-8 where text is expected, a type code outside the assigned set, a
/// required field that the stream never carried, a request for a method the
/// service does not have, and a reply of the wrong variant.
#[derive(PartialEq, Eq, Structural, Debug, Clone, Copy)]
pub enum Error {
    EOF,
    BadVersion,
    ProtocolVersionMissing,
    Utf8Error,
    UnexpectedWireType,
    NegativeSize,
    MissingField,
    UnknownMethod,
    VariantMismatch,
}

impl Error {
    /// A short phrase naming the error.
    pub fn description(&self) -> &'static str {
        match self {
            Error::EOF => "eof",
            Error::BadVersion => "bad version",
            Error::ProtocolVersionMissing => "protocol version missing",
            Error::Utf8Error => "internal error of utf8 conversion",
            Error::UnexpectedWireType => "unexpected wire type",
            Error::NegativeSize => "negative size",
            Error::MissingField => "missing required field",
            Error::UnknownMethod => "unknown method",
            Error::VariantMismatch => "variant mismatch",
        }
    }
}

/// The decoded header of one message frame.
#[derive(Debug)]
pub struct ThriftMessage {
    pub name: String,
    pub ty: ThriftMessageType,
    pub seq: i16,
}

/// The decoded header of one struct field.
#[derive(Debug)]
pub struct ThriftField {
    pub name: Option<String>,
    pub ty: ThriftType,
    pub seq: i16,
}

/// What decoding a value from the front of a byte stream yields: the value
/// (as its mathematical view) together with how many bytes it took, a signal
/// that the stream ends mid-value, or a fault. A fault is never `EOF`: running
/// short of bytes is always `Incomplete`.
pub enum DecodeOutcome<V> {
    Value { v: V, used: int },
    Incomplete,
    Malformed { err: Error },
}

/// The outcome of decoding a suffix, seen from an enclosing decode that has
/// already consumed `d` bytes.
pub open spec fn shift_outcome<V>(o: DecodeOutcome<V>, d: int) -> DecodeOutcome<V> {
    match o {
        DecodeOutcome::Value { v, used } => DecodeOutcome::Value { v, used: used + d },
        DecodeOutcome::Incomplete => DecodeOutcome::Incomplete,
        DecodeOutcome::Malformed { err } => DecodeOutcome::Malformed { err },
    }
}

/// A value whose on-wire form is a function of its view, written through a
/// `BinaryProtocol`.
pub trait Serialize: View {
    /// The bytes a value with this view puts on the wire.
    spec fn spec_encode(v: Self::V) -> Seq<u8>;

    /// What must hold of the value for its encoding to be writable (sizes
    /// that fit the wire's length prefixes).
    spec fn wf(&self) -> bool;

    fn serialize(&self, s: &mut BinaryProtocol) -> (r: Result<(), Error>)
        requires
            self.wf(),
            old(s).wf(),
        ensures
            final(s).wf(),
            r is Ok,
            final(s).written() == old(s).written() + Self::spec_encode(self@),
            final(s).rpos() == old(s).rpos(),
    ;
}

/// A value that can be decoded from the front of a byte stream. Decoding
/// consumes exactly the value's bytes; on an incomplete stream it consumes
/// nothing and reports `EOF`, so the caller may retry with more bytes.
pub trait Deserialize: Sized + View {
    /// What the front of `rem` holds for this type.
    spec fn spec_decode(rem: Seq<u8>) -> DecodeOutcome<Self::V>;

    fn deserialize(de: &mut BinaryProtocol) -> (r: Result<Self, Error>)
        requires
            old(de).wf(),
        ensures
            final(de).wf(),
            final(de).written() == old(de).written(),
            match Self::spec_decode(old(de).remaining()) {
                DecodeOutcome::Value { v, used } => {
                    &&& r matches Ok(x) && x@ == v
                    &&& 0 <= used <= old(de).remaining().len()
                    &&& final(de).rpos() == old(de).rpos() + used
                },
                DecodeOutcome::Incomplete => r == Err::<Self, Error>(Error::EOF) && final(de).rpos() == old(de).rpos(),
                DecodeOutcome::Malformed { err } => (r matches Err(e) && e == err) && err
                    != Error::EOF,
            },
    ;
}

} // verus!
