//! The shape of generated service code, instantiated for the `Hello`
//! service of the IDL
//! `service Hello { string hello_name(1: string name); string hello(); }`:
//! an argument record per method, a request sum, a response sum, a service
//! interface, a server adapter that dispatches on the request sum, and the
//! client side's builders and matchers. The code generator emits source of
//! exactly this shape for every declared service; the runtime operates on it
//! only through the `Serialize` and `Deserialize` contracts.

use vstd::prelude::*;
use vstd::utf8::{valid_utf8, decode_utf8, encode_utf8, is_ascii_chars, is_ascii_chars_encode_utf8};
use vstd::string::StringExecFns;

use crate::protocol::{
    Error,
    ThriftType,
    ThriftMessageType,
    Serialize,
    Deserialize,
    DecodeOutcome,
    shift_outcome,
};
use crate::binary_protocol::{
    BinaryProtocol,
    spec_message_begin_be,
    spec_field_begin_be,
    spec_blob_be,
    spec_read_message_begin,
    spec_read_field_begin,
    spec_read_blob,
    spec_skip_value,
    MsgDecode,
    FieldDecode,
    lemma_msg_decode_props,
    lemma_field_decode_props,
    lemma_blob_decode_props,
    lemma_skip_value_props,
};
use crate::result::ThriftError;

verus! {

// ---------------------------------------------------------------------------
// The generated data shapes and their views.
// ---------------------------------------------------------------------------

/// The argument record of `hello_name`.
#[allow(non_camel_case_types)]
#[derive(Debug, Clone)]
pub struct Hellohello_nameArgs {
    pub name: String,
}

/// The argument record of `hello`, which takes nothing.
#[derive(Debug, Clone)]
pub struct HellohelloArgs {
}

/// The request sum: one variant per method, carrying its argument record.
#[allow(non_camel_case_types)]
#[derive(Debug, Clone)]
pub enum HelloServiceMethodArgs {
    Ahello_name(Hellohello_nameArgs),
    Ahello(HellohelloArgs),
}

/// The response sum: one variant per method, carrying its return value.
#[allow(non_camel_case_types)]
#[derive(Debug, Clone)]
pub enum HelloServiceMethodReturn {
    Rhello_name(String),
    Rhello(String),
}

/// The method identifiers of the service.
#[allow(non_camel_case_types)]
#[derive(Debug, Clone, Copy, PartialEq, Eq, Structural)]
pub enum HelloServiceMethods {
    Mhello_name,
    Mhello,
}

#[allow(non_camel_case_types)]
pub struct Hellohello_nameArgsV {
    pub name: Seq<char>,
}

impl View for Hellohello_nameArgs {
    type V = Hellohello_nameArgsV;

    open spec fn view(&self) -> Hellohello_nameArgsV {
        Hellohello_nameArgsV { name: self.name@ }
    }
}

pub struct HellohelloArgsV {
}

impl View for HellohelloArgs {
    type V = HellohelloArgsV;

    open spec fn view(&self) -> HellohelloArgsV {
        HellohelloArgsV {  }
    }
}

#[allow(non_camel_case_types)]
pub enum HelloServiceMethodArgsV {
    Ahello_name { name: Seq<char> },
    Ahello,
}

impl View for HelloServiceMethodArgs {
    type V = HelloServiceMethodArgsV;

    open spec fn view(&self) -> HelloServiceMethodArgsV {
        match self {
            HelloServiceMethodArgs::Ahello_name(a) => HelloServiceMethodArgsV::Ahello_name {
                name: a.name@,
            },
            HelloServiceMethodArgs::Ahello(_) => HelloServiceMethodArgsV::Ahello,
        }
    }
}

#[allow(non_camel_case_types)]
pub enum HelloServiceMethodReturnV {
    Rhello_name { value: Seq<char> },
    Rhello { value: Seq<char> },
}

impl View for HelloServiceMethodReturn {
    type V = HelloServiceMethodReturnV;

    open spec fn view(&self) -> HelloServiceMethodReturnV {
        match self {
            HelloServiceMethodReturn::Rhello_name(s) => HelloServiceMethodReturnV::Rhello_name {
                value: s@,
            },
            HelloServiceMethodReturn::Rhello(s) => HelloServiceMethodReturnV::Rhello {
                value: s@,
            },
        }
    }
}

impl HelloServiceMethods {
    /// The method a request frame names, if the service has it.
    pub open spec fn spec_of_name(name: Seq<char>) -> Option<HelloServiceMethods> {
        if name == "hello_name"@ {
            Some(HelloServiceMethods::Mhello_name)
        } else if name == "hello"@ {
            Some(HelloServiceMethods::Mhello)
        } else {
            None
        }
    }

    pub fn from_name(name: &str) -> (r: Option<HelloServiceMethods>)
        ensures
            r == HelloServiceMethods::spec_of_name(name@),
    {
        let owned = name.to_owned();
        if owned == String::from_str("hello_name") {
            Some(HelloServiceMethods::Mhello_name)
        } else if owned == String::from_str("hello") {
            Some(HelloServiceMethods::Mhello)
        } else {
            None
        }
    }
}

// ---------------------------------------------------------------------------
// The wire form of each shape.
// ---------------------------------------------------------------------------

/// The struct body of `hello_name`'s arguments: a string field with id 1,
/// then the stop marker.
pub open spec fn spec_hello_name_body_be(name: Seq<char>) -> Seq<u8> {
    spec_field_begin_be(ThriftType::String, 1i16) + spec_blob_be(encode_utf8(name)) + seq![0u8]
}

/// The struct body of `hello`'s arguments: nothing but the stop marker.
pub open spec fn spec_hello_body_be() -> Seq<u8> {
    seq![0u8]
}

/// The frame of a request: the message header naming the method, then the
/// argument struct's body.
pub open spec fn spec_args_encode(v: HelloServiceMethodArgsV) -> Seq<u8> {
    match v {
        HelloServiceMethodArgsV::Ahello_name { name } => spec_message_begin_be(
            encode_utf8("hello_name"@),
            ThriftMessageType::Call,
        ) + spec_hello_name_body_be(name),
        HelloServiceMethodArgsV::Ahello => spec_message_begin_be(
            encode_utf8("hello"@),
            ThriftMessageType::Call,
        ) + spec_hello_body_be(),
    }
}

/// The frame of a response: the message header naming the method, then the
/// length-prefixed return string.
pub open spec fn spec_return_encode(v: HelloServiceMethodReturnV) -> Seq<u8> {
    match v {
        HelloServiceMethodReturnV::Rhello_name { value } => spec_message_begin_be(
            encode_utf8("hello_name"@),
            ThriftMessageType::Reply,
        ) + spec_blob_be(encode_utf8(value)),
        HelloServiceMethodReturnV::Rhello { value } => spec_message_begin_be(
            encode_utf8("hello"@),
            ThriftMessageType::Reply,
        ) + spec_blob_be(encode_utf8(value)),
    }
}

/// The method names of this service are short, distinct ASCII literals;
/// their UTF-8 forms fit every length prefix.
proof fn lemma_method_names_ascii()
    ensures
        encode_utf8("hello_name"@).len() == 10,
        encode_utf8("hello"@).len() == 5,
        "hello_name"@ != "hello"@,
{
    reveal_strlit("hello_name");
    reveal_strlit("hello");
    assert(is_ascii_chars("hello_name"@));
    assert(is_ascii_chars("hello"@));
    is_ascii_chars_encode_utf8("hello_name"@);
    is_ascii_chars_encode_utf8("hello"@);
    assert("hello_name"@.len() != "hello"@.len());
}

// ---------------------------------------------------------------------------
// Writing the shapes.
// ---------------------------------------------------------------------------

impl Serialize for Hellohello_nameArgs {
    /// The bytes of the argument struct's body.
    open spec fn spec_encode(v: Hellohello_nameArgsV) -> Seq<u8> {
        spec_hello_name_body_be(v.name)
    }

    open spec fn wf(&self) -> bool {
        encode_utf8(self.name@).len() <= 0x7fff_ffff
    }

    fn serialize(&self, s: &mut BinaryProtocol) -> (r: Result<(), Error>) {
        let _ = s.write_struct_begin("Hello_hello_name_Args");
        let _ = s.write_field_begin("name", ThriftType::String, 1);
        let _ = s.serialize_str(self.name.as_str());
        let _ = s.write_field_end();
        let _ = s.write_field_stop();
        let _ = s.write_struct_end();
        proof {
            assert(s.written() =~= old(s).written() + Self::spec_encode(self@));
        }
        Ok(())
    }
}

impl Serialize for HellohelloArgs {
    /// The bytes of the argument struct's body.
    open spec fn spec_encode(_v: HellohelloArgsV) -> Seq<u8> {
        spec_hello_body_be()
    }

    open spec fn wf(&self) -> bool {
        true
    }

    fn serialize(&self, s: &mut BinaryProtocol) -> (r: Result<(), Error>) {
        let _ = s.write_struct_begin("Hello_hello_Args");
        let _ = s.write_field_stop();
        let _ = s.write_struct_end();
        proof {
            assert(s.written() =~= old(s).written() + Self::spec_encode(self@));
        }
        Ok(())
    }
}

impl Serialize for HelloServiceMethodArgs {
    open spec fn spec_encode(v: HelloServiceMethodArgsV) -> Seq<u8> {
        spec_args_encode(v)
    }

    open spec fn wf(&self) -> bool {
        match self {
            HelloServiceMethodArgs::Ahello_name(a) => a.wf(),
            HelloServiceMethodArgs::Ahello(a) => a.wf(),
        }
    }

    fn serialize(&self, s: &mut BinaryProtocol) -> (r: Result<(), Error>) {
        proof {
            lemma_method_names_ascii();
        }
        match self {
            HelloServiceMethodArgs::Ahello_name(b) => {
                let _ = s.write_message_begin("hello_name", ThriftMessageType::Call);
                let _ = b.serialize(s);
                let _ = s.write_message_end();
            },
            HelloServiceMethodArgs::Ahello(b) => {
                let _ = s.write_message_begin("hello", ThriftMessageType::Call);
                let _ = b.serialize(s);
                let _ = s.write_message_end();
            },
        }
        proof {
            assert(s.written() =~= old(s).written() + Self::spec_encode(self@));
        }
        Ok(())
    }
}

impl Serialize for HelloServiceMethodReturn {
    open spec fn spec_encode(v: HelloServiceMethodReturnV) -> Seq<u8> {
        spec_return_encode(v)
    }

    open spec fn wf(&self) -> bool {
        match self {
            HelloServiceMethodReturn::Rhello_name(v) => encode_utf8(v@).len() <= 0x7fff_ffff,
            HelloServiceMethodReturn::Rhello(v) => encode_utf8(v@).len() <= 0x7fff_ffff,
        }
    }

    fn serialize(&self, s: &mut BinaryProtocol) -> (r: Result<(), Error>) {
        proof {
            lemma_method_names_ascii();
        }
        match self {
            HelloServiceMethodReturn::Rhello_name(b) => {
                let _ = s.write_message_begin("hello_name", ThriftMessageType::Reply);
                let _ = s.serialize_str(b.as_str());
                let _ = s.write_message_end();
            },
            HelloServiceMethodReturn::Rhello(b) => {
                let _ = s.write_message_begin("hello", ThriftMessageType::Reply);
                let _ = s.serialize_str(b.as_str());
                let _ = s.write_message_end();
            },
        }
        proof {
            assert(s.written() =~= old(s).written() + Self::spec_encode(self@));
        }
        Ok(())
    }
}


// ---------------------------------------------------------------------------
// Reading the shapes back.
// ---------------------------------------------------------------------------

/// The view of an optional string the field loop may have found.
pub open spec fn opt_str_view(o: Option<String>) -> Option<Seq<char>> {
    match o {
        Option::Some(s) => Some(s@),
        Option::None => None,
    }
}

/// What the field loop of `hello_name`'s argument struct yields on `rem`,
/// having already found `acc` for the one recognized field: it reads field
/// headers until the stop marker, takes a string field with id 1 as the
/// `name`, and passes over every other field.
pub open spec fn spec_read_name_fields(rem: Seq<u8>, acc: Option<Seq<char>>) -> DecodeOutcome<
    Option<Seq<char>>,
>
    decreases rem.len(),
{
    match spec_read_field_begin(rem) {
        FieldDecode::Short => DecodeOutcome::Incomplete,
        FieldDecode::Bad { err } => DecodeOutcome::Malformed { err },
        FieldDecode::Fld { kind, seqid, used } => {
            if kind is Stop {
                DecodeOutcome::Value { v: acc, used }
            } else {
                let rest = rem.skip(used);
                if seqid == 1 && kind is String {
                    match spec_read_blob(rest) {
                        DecodeOutcome::Incomplete => DecodeOutcome::Incomplete,
                        DecodeOutcome::Malformed { err } => DecodeOutcome::Malformed { err },
                        DecodeOutcome::Value { v: b, used: u2 } => {
                            if !valid_utf8(b) {
                                DecodeOutcome::Malformed { err: Error::Utf8Error }
                            } else {
                                shift_outcome(
                                    spec_read_name_fields(
                                        rest.skip(u2),
                                        Some(decode_utf8(b)),
                                    ),
                                    used + u2,
                                )
                            }
                        },
                    }
                } else {
                    match spec_skip_value(kind, rest) {
                        DecodeOutcome::Incomplete => DecodeOutcome::Incomplete,
                        DecodeOutcome::Malformed { err } => DecodeOutcome::Malformed { err },
                        DecodeOutcome::Value { v: _, used: u2 } => {
                            if !(1 <= u2 <= rest.len()) {
                                DecodeOutcome::Malformed { err: Error::UnexpectedWireType }
                            } else {
                                shift_outcome(
                                    spec_read_name_fields(rest.skip(u2), acc),
                                    used + u2,
                                )
                            }
                        },
                    }
                }
            }
        },
    }
}

/// What the field loop of `hello`'s argument struct yields on `rem`: it has
/// no recognized fields, so it passes over everything until the stop marker.
pub open spec fn spec_read_plain_fields(rem: Seq<u8>) -> DecodeOutcome<()>
    decreases rem.len(),
{
    match spec_read_field_begin(rem) {
        FieldDecode::Short => DecodeOutcome::Incomplete,
        FieldDecode::Bad { err } => DecodeOutcome::Malformed { err },
        FieldDecode::Fld { kind, seqid, used } => {
            if kind is Stop {
                DecodeOutcome::Value { v: (), used }
            } else {
                let rest = rem.skip(used);
                match spec_skip_value(kind, rest) {
                    DecodeOutcome::Incomplete => DecodeOutcome::Incomplete,
                    DecodeOutcome::Malformed { err } => DecodeOutcome::Malformed { err },
                    DecodeOutcome::Value { v: _, used: u2 } => {
                        if !(1 <= u2 <= rest.len()) {
                            DecodeOutcome::Malformed { err: Error::UnexpectedWireType }
                        } else {
                            shift_outcome(spec_read_plain_fields(rest.skip(u2)), used + u2)
                        }
                    },
                }
            }
        },
    }
}

/// Whatever the `hello_name` field loop yields, a fault is never `EOF` and
/// what it consumes lies within the stream.
pub proof fn lemma_name_fields_props(rem: Seq<u8>, acc: Option<Seq<char>>)
    ensures
        match spec_read_name_fields(rem, acc) {
            DecodeOutcome::Value { v, used } => 1 <= used <= rem.len(),
            DecodeOutcome::Malformed { err } => err != Error::EOF,
            DecodeOutcome::Incomplete => true,
        },
    decreases rem.len(),
{
    lemma_field_decode_props(rem);
    match spec_read_field_begin(rem) {
        FieldDecode::Fld { kind, seqid, used } => {
            if !(kind is Stop) {
                let rest = rem.skip(used);
                lemma_blob_decode_props(rest);
                lemma_skip_value_props(kind, rest);
                if seqid == 1 && kind is String {
                    match spec_read_blob(rest) {
                        DecodeOutcome::Value { v: b, used: u2 } => {
                            if valid_utf8(b) {
                                lemma_name_fields_props(rest.skip(u2), Some(decode_utf8(b)));
                            }
                        },
                        _ => {},
                    }
                } else {
                    match spec_skip_value(kind, rest) {
                        DecodeOutcome::Value { v: _, used: u2 } => {
                            lemma_name_fields_props(rest.skip(u2), acc);
                        },
                        _ => {},
                    }
                }
            }
        },
        _ => {},
    }
}

/// Whatever the `hello` field loop yields, a fault is never `EOF` and what
/// it consumes lies within the stream.
pub proof fn lemma_plain_fields_props(rem: Seq<u8>)
    ensures
        match spec_read_plain_fields(rem) {
            DecodeOutcome::Value { v, used } => 1 <= used <= rem.len(),
            DecodeOutcome::Malformed { err } => err != Error::EOF,
            DecodeOutcome::Incomplete => true,
        },
    decreases rem.len(),
{
    lemma_field_decode_props(rem);
    match spec_read_field_begin(rem) {
        FieldDecode::Fld { kind, seqid, used } => {
            if !(kind is Stop) {
                let rest = rem.skip(used);
                lemma_skip_value_props(kind, rest);
                match spec_skip_value(kind, rest) {
                    DecodeOutcome::Value { v: _, used: u2 } => {
                        lemma_plain_fields_props(rest.skip(u2));
                    },
                    _ => {},
                }
            }
        },
        _ => {},
    }
}

impl Deserialize for Hellohello_nameArgs {
    /// Decoding the argument struct reads its fields until the stop marker;
    /// the stream must carry the required `name` field.
    open spec fn spec_decode(rem: Seq<u8>) -> DecodeOutcome<Hellohello_nameArgsV> {
        match spec_read_name_fields(rem, None) {
            DecodeOutcome::Value { v: Some(nm), used } => DecodeOutcome::Value {
                v: Hellohello_nameArgsV { name: nm },
                used,
            },
            DecodeOutcome::Value { v: None, used } => DecodeOutcome::Malformed {
                err: Error::MissingField,
            },
            DecodeOutcome::Incomplete => DecodeOutcome::Incomplete,
            DecodeOutcome::Malformed { err } => DecodeOutcome::Malformed { err },
        }
    }

    fn deserialize(de: &mut BinaryProtocol) -> (r: Result<Self, Error>) {
        proof {
            lemma_name_fields_props(old(de).remaining(), None);
        }
        let start = de.position();
        let _ = de.read_struct_begin();
        let mut found: Option<String> = None;
        loop
            invariant
                de.wf(),
                old(de).wf(),
                de.written() == old(de).written(),
                start == old(de).rpos(),
                old(de).rpos() <= de.rpos() <= de.written().len(),
                spec_read_name_fields(old(de).remaining(), None) == shift_outcome(
                    spec_read_name_fields(de.remaining(), opt_str_view(found)),
                    de.rpos() - old(de).rpos(),
                ),
            decreases de.remaining().len(),
        {
            let ghost rem_i = de.remaining();
            let ghost acc_i = opt_str_view(found);
            let ghost c_i = de.rpos() - old(de).rpos();
            proof {
                lemma_field_decode_props(rem_i);
            }
            let f = match de.read_field_begin() {
                Ok(f) => f,
                Err(Error::EOF) => {
                    de.rewind_to(start);
                    return Err(Error::EOF);
                },
                Err(e) => { return Err(e); },
            };
            match f.ty {
                ThriftType::Stop => {
                    let _ = de.read_struct_end();
                    match found {
                        Some(name) => { return Ok(Hellohello_nameArgs { name }); },
                        None => { return Err(Error::MissingField); },
                    }
                },
                _ => {},
            }
            let ghost rest = rem_i.skip(3);
            proof {
                assert(de.remaining() =~= rest);
                lemma_blob_decode_props(rest);
                lemma_skip_value_props(f.ty, rest);
            }
            if f.seq == 1 && matches!(f.ty, ThriftType::String) {
                match de.deserialize_str() {
                    Ok(s) => {
                        found = Some(s);
                    },
                    Err(Error::EOF) => {
                        de.rewind_to(start);
                        return Err(Error::EOF);
                    },
                    Err(e) => { return Err(e); },
                }
            } else {
                match de.skip_field(f.ty) {
                    Ok(_) => {},
                    Err(Error::EOF) => {
                        de.rewind_to(start);
                        return Err(Error::EOF);
                    },
                    Err(e) => { return Err(e); },
                }
            }
            let _ = de.read_field_end();
            proof {
                let u_all = de.rpos() - old(de).rpos() - c_i;
                assert(de.remaining() =~= rest.skip(u_all - 3));
                assert(spec_read_name_fields(rem_i, acc_i) == shift_outcome(
                    spec_read_name_fields(de.remaining(), opt_str_view(found)),
                    u_all,
                ));
            }
        }
    }
}

impl Deserialize for HellohelloArgs {
    /// Decoding the empty argument struct reads its fields until the stop
    /// marker; with no declared fields, everything found is passed over, and
    /// an immediate stop marker yields the default record.
    open spec fn spec_decode(rem: Seq<u8>) -> DecodeOutcome<HellohelloArgsV> {
        match spec_read_plain_fields(rem) {
            DecodeOutcome::Value { v: _, used } => DecodeOutcome::Value {
                v: HellohelloArgsV {  },
                used,
            },
            DecodeOutcome::Incomplete => DecodeOutcome::Incomplete,
            DecodeOutcome::Malformed { err } => DecodeOutcome::Malformed { err },
        }
    }

    fn deserialize(de: &mut BinaryProtocol) -> (r: Result<Self, Error>) {
        proof {
            lemma_plain_fields_props(old(de).remaining());
        }
        let start = de.position();
        let _ = de.read_struct_begin();
        loop
            invariant
                de.wf(),
                old(de).wf(),
                de.written() == old(de).written(),
                start == old(de).rpos(),
                old(de).rpos() <= de.rpos() <= de.written().len(),
                spec_read_plain_fields(old(de).remaining()) == shift_outcome(
                    spec_read_plain_fields(de.remaining()),
                    de.rpos() - old(de).rpos(),
                ),
            decreases de.remaining().len(),
        {
            let ghost rem_i = de.remaining();
            let ghost c_i = de.rpos() - old(de).rpos();
            proof {
                lemma_field_decode_props(rem_i);
            }
            let f = match de.read_field_begin() {
                Ok(f) => f,
                Err(Error::EOF) => {
                    de.rewind_to(start);
                    return Err(Error::EOF);
                },
                Err(e) => { return Err(e); },
            };
            match f.ty {
                ThriftType::Stop => {
                    let _ = de.read_struct_end();
                    return Ok(HellohelloArgs {  });
                },
                _ => {},
            }
            let ghost rest = rem_i.skip(3);
            proof {
                assert(de.remaining() =~= rest);
                lemma_skip_value_props(f.ty, rest);
            }
            match de.skip_field(f.ty) {
                Ok(_) => {},
                Err(Error::EOF) => {
                    de.rewind_to(start);
                    return Err(Error::EOF);
                },
                Err(e) => { return Err(e); },
            }
            let _ = de.read_field_end();
            proof {
                let u_all = de.rpos() - old(de).rpos() - c_i;
                assert(de.remaining() =~= rest.skip(u_all - 3));
                assert(spec_read_plain_fields(rem_i) == shift_outcome(
                    spec_read_plain_fields(de.remaining()),
                    u_all,
                ));
            }
        }
    }
}


impl Deserialize for HelloServiceMethodArgs {
    /// Decoding a request reads the message header, dispatches on the method
    /// name, and decodes that method's argument struct; a name outside the
    /// service's method set is a fault.
    open spec fn spec_decode(rem: Seq<u8>) -> DecodeOutcome<HelloServiceMethodArgsV> {
        match spec_read_message_begin(rem) {
            MsgDecode::Short => DecodeOutcome::Incomplete,
            MsgDecode::Bad { err } => DecodeOutcome::Malformed { err },
            MsgDecode::Msg { name, kind, seqid, used } => {
                let rest = rem.skip(used);
                let nm = decode_utf8(name);
                if nm == "hello_name"@ {
                    match Hellohello_nameArgs::spec_decode(rest) {
                        DecodeOutcome::Value { v, used: u2 } => DecodeOutcome::Value {
                            v: HelloServiceMethodArgsV::Ahello_name { name: v.name },
                            used: used + u2,
                        },
                        DecodeOutcome::Incomplete => DecodeOutcome::Incomplete,
                        DecodeOutcome::Malformed { err } => DecodeOutcome::Malformed { err },
                    }
                } else if nm == "hello"@ {
                    match HellohelloArgs::spec_decode(rest) {
                        DecodeOutcome::Value { v: _, used: u2 } => DecodeOutcome::Value {
                            v: HelloServiceMethodArgsV::Ahello,
                            used: used + u2,
                        },
                        DecodeOutcome::Incomplete => DecodeOutcome::Incomplete,
                        DecodeOutcome::Malformed { err } => DecodeOutcome::Malformed { err },
                    }
                } else {
                    DecodeOutcome::Malformed { err: Error::UnknownMethod }
                }
            },
        }
    }

    fn deserialize(de: &mut BinaryProtocol) -> (r: Result<Self, Error>) {
        let ghost rem0 = old(de).remaining();
        proof {
            lemma_msg_decode_props(rem0);
        }
        let start = de.position();
        let msg = match de.read_message_begin() {
            Ok(m) => m,
            Err(e) => { return Err(e); },
        };
        let ghost used = spec_read_message_begin(rem0)->Msg_used;
        proof {
            assert(de.remaining() =~= rem0.skip(used));
            lemma_name_fields_props(de.remaining(), None);
            lemma_plain_fields_props(de.remaining());
        }
        match HelloServiceMethods::from_name(msg.name.as_str()) {
            None => Err(Error::UnknownMethod),
            Some(HelloServiceMethods::Mhello_name) => match Hellohello_nameArgs::deserialize(
                de,
            ) {
                Ok(a) => {
                    let _ = de.read_message_end();
                    Ok(HelloServiceMethodArgs::Ahello_name(a))
                },
                Err(Error::EOF) => {
                    de.rewind_to(start);
                    Err(Error::EOF)
                },
                Err(e) => Err(e),
            },
            Some(HelloServiceMethods::Mhello) => match HellohelloArgs::deserialize(de) {
                Ok(a) => {
                    let _ = de.read_message_end();
                    Ok(HelloServiceMethodArgs::Ahello(a))
                },
                Err(Error::EOF) => {
                    de.rewind_to(start);
                    Err(Error::EOF)
                },
                Err(e) => Err(e),
            },
        }
    }
}

impl Deserialize for HelloServiceMethodReturn {
    /// Decoding a response reads the message header, dispatches on the
    /// method name, and reads that method's return string.
    open spec fn spec_decode(rem: Seq<u8>) -> DecodeOutcome<HelloServiceMethodReturnV> {
        match spec_read_message_begin(rem) {
            MsgDecode::Short => DecodeOutcome::Incomplete,
            MsgDecode::Bad { err } => DecodeOutcome::Malformed { err },
            MsgDecode::Msg { name, kind, seqid, used } => {
                let rest = rem.skip(used);
                let nm = decode_utf8(name);
                if nm == "hello_name"@ || nm == "hello"@ {
                    match spec_read_blob(rest) {
                        DecodeOutcome::Incomplete => DecodeOutcome::Incomplete,
                        DecodeOutcome::Malformed { err } => DecodeOutcome::Malformed { err },
                        DecodeOutcome::Value { v: b, used: u2 } => {
                            if !valid_utf8(b) {
                                DecodeOutcome::Malformed { err: Error::Utf8Error }
                            } else if nm == "hello_name"@ {
                                DecodeOutcome::Value {
                                    v: HelloServiceMethodReturnV::Rhello_name {
                                        value: decode_utf8(b),
                                    },
                                    used: used + u2,
                                }
                            } else {
                                DecodeOutcome::Value {
                                    v: HelloServiceMethodReturnV::Rhello {
                                        value: decode_utf8(b),
                                    },
                                    used: used + u2,
                                }
                            }
                        },
                    }
                } else {
                    DecodeOutcome::Malformed { err: Error::UnknownMethod }
                }
            },
        }
    }

    fn deserialize(de: &mut BinaryProtocol) -> (r: Result<Self, Error>) {
        let ghost rem0 = old(de).remaining();
        proof {
            lemma_msg_decode_props(rem0);
        }
        let start = de.position();
        let msg = match de.read_message_begin() {
            Ok(m) => m,
            Err(e) => { return Err(e); },
        };
        let ghost used = spec_read_message_begin(rem0)->Msg_used;
        proof {
            assert(de.remaining() =~= rem0.skip(used));
            lemma_blob_decode_props(de.remaining());
        }
        let method = match HelloServiceMethods::from_name(msg.name.as_str()) {
            None => { return Err(Error::UnknownMethod); },
            Some(m) => m,
        };
        let value = match de.deserialize_str() {
            Ok(s) => s,
            Err(Error::EOF) => {
                de.rewind_to(start);
                return Err(Error::EOF);
            },
            Err(e) => { return Err(e); },
        };
        let _ = de.read_message_end();
        match method {
            HelloServiceMethods::Mhello_name => Ok(HelloServiceMethodReturn::Rhello_name(value)),
            HelloServiceMethods::Mhello => Ok(HelloServiceMethodReturn::Rhello(value)),
        }
    }
}


// ---------------------------------------------------------------------------
// Laws of the shapes: a decoded encoding is the value again, with unknown
// fields passed over, and a frame cut anywhere before its end is not ready.
// ---------------------------------------------------------------------------

/// Reading `hello_name`'s argument struct back from its own body yields the
/// name it was built from and consumes exactly the body.
#[verifier::rlimit(100)]
#[verifier::spinoff_prover]
pub proof fn lemma_name_body_round_trip(name: Seq<char>, tail: Seq<u8>)
    requires
        encode_utf8(name).len() <= 0x7fff_ffff,
    ensures
        spec_read_name_fields(spec_hello_name_body_be(name) + tail, None)
            == (DecodeOutcome::Value {
            v: Some(name),
            used: spec_hello_name_body_be(name).len() as int,
        }),
{
    let nb = encode_utf8(name);
    let body = spec_hello_name_body_be(name);
    let enc = body + tail;
    assert(enc =~= spec_field_begin_be(ThriftType::String, 1i16) + (spec_blob_be(nb) + seq![0u8]
        + tail));
    crate::binary_protocol::lemma_field_begin_round_trip(
        ThriftType::String,
        1i16,
        spec_blob_be(nb) + seq![0u8] + tail,
    );
    let rest = enc.skip(3);
    assert(rest =~= spec_blob_be(nb) + seq![0u8] + tail);
    assert(rest.take(4) =~= crate::binary_protocol::spec_i32_be(nb.len() as i32));
    crate::binary_protocol::lemma_i32_round_trip(nb.len() as i32);
    let n = crate::binary_protocol::spec_i32_from_be(rest.take(4));
    assert(n == nb.len());
    assert(rest.subrange(4, 4 + n) =~= nb);
    vstd::utf8::encode_utf8_valid_utf8(name);
    vstd::utf8::encode_utf8_decode_utf8(name);
    assert(spec_read_blob(rest) == (DecodeOutcome::Value { v: nb, used: 4 + n as int }));
    assert(rest.skip(4 + n) =~= seq![0u8] + tail);
    crate::binary_protocol::lemma_field_stop_round_trip(tail);
    assert(spec_read_name_fields(seq![0u8] + tail, Some(name)) == (DecodeOutcome::<
        Option<Seq<char>>,
    >::Value { v: Some(name), used: 1int }));
    assert(spec_read_name_fields(enc, None) == (DecodeOutcome::<Option<Seq<char>>>::Value {
        v: Some(name),
        used: 3 + (4 + n as int) + 1,
    }));
    assert(body.len() == 8 + nb.len());
}

/// Reading `hello`'s argument struct back from its own body consumes exactly
/// the stop marker.
pub proof fn lemma_plain_body_round_trip(tail: Seq<u8>)
    ensures
        spec_read_plain_fields(seq![0u8] + tail) == (DecodeOutcome::Value { v: (), used: 1int }),
{
    crate::binary_protocol::lemma_field_stop_round_trip(tail);
}

/// A decoded request encoding is the request again: the frame of any
/// request value, followed by anything, decodes to that value and consumes
/// exactly the frame.
pub proof fn lemma_args_round_trip(v: HelloServiceMethodArgsV, tail: Seq<u8>)
    requires
        v matches HelloServiceMethodArgsV::Ahello_name { name } ==> encode_utf8(name).len()
            <= 0x7fff_ffff,
    ensures
        HelloServiceMethodArgs::spec_decode(spec_args_encode(v) + tail) == (DecodeOutcome::Value {
            v,
            used: spec_args_encode(v).len() as int,
        }),
{
    lemma_method_names_ascii();
    let enc = spec_args_encode(v) + tail;
    match v {
        HelloServiceMethodArgsV::Ahello_name { name } => {
            let body = spec_hello_name_body_be(name);
            assert(enc =~= spec_message_begin_be(encode_utf8("hello_name"@),
                ThriftMessageType::Call) + (body + tail));
            crate::binary_protocol::lemma_message_header_round_trip(
                "hello_name"@,
                ThriftMessageType::Call,
                body + tail,
            );
            let used = spec_read_message_begin(enc)->Msg_used;
            assert(used == 20);
            assert(enc.skip(used) =~= body + tail);
            lemma_name_body_round_trip(name, tail);
        },
        HelloServiceMethodArgsV::Ahello => {
            assert(enc =~= spec_message_begin_be(encode_utf8("hello"@), ThriftMessageType::Call)
                + (seq![0u8] + tail));
            crate::binary_protocol::lemma_message_header_round_trip(
                "hello"@,
                ThriftMessageType::Call,
                seq![0u8] + tail,
            );
            let used = spec_read_message_begin(enc)->Msg_used;
            assert(used == 15);
            assert(enc.skip(used) =~= seq![0u8] + tail);
            lemma_plain_body_round_trip(tail);
        },
    }
}

/// A decoded response encoding is the response again.
pub proof fn lemma_return_round_trip(v: HelloServiceMethodReturnV, tail: Seq<u8>)
    requires
        v matches HelloServiceMethodReturnV::Rhello_name { value } ==> encode_utf8(value).len()
            <= 0x7fff_ffff,
        v matches HelloServiceMethodReturnV::Rhello { value } ==> encode_utf8(value).len()
            <= 0x7fff_ffff,
    ensures
        HelloServiceMethodReturn::spec_decode(spec_return_encode(v) + tail)
            == (DecodeOutcome::Value { v, used: spec_return_encode(v).len() as int }),
{
    lemma_method_names_ascii();
    let enc = spec_return_encode(v) + tail;
    match v {
        HelloServiceMethodReturnV::Rhello_name { value } => {
            let vb = encode_utf8(value);
            assert(enc =~= spec_message_begin_be(encode_utf8("hello_name"@),
                ThriftMessageType::Reply) + (spec_blob_be(vb) + tail));
            crate::binary_protocol::lemma_message_header_round_trip(
                "hello_name"@,
                ThriftMessageType::Reply,
                spec_blob_be(vb) + tail,
            );
            let used = spec_read_message_begin(enc)->Msg_used;
            assert(used == 20);
            let rest = enc.skip(used);
            assert(rest =~= spec_blob_be(vb) + tail);
            assert(rest.take(4) =~= crate::binary_protocol::spec_i32_be(vb.len() as i32));
            crate::binary_protocol::lemma_i32_round_trip(vb.len() as i32);
            assert(rest.subrange(4, 4 + vb.len() as int) =~= vb);
            vstd::utf8::encode_utf8_valid_utf8(value);
            vstd::utf8::encode_utf8_decode_utf8(value);
        },
        HelloServiceMethodReturnV::Rhello { value } => {
            let vb = encode_utf8(value);
            assert(enc =~= spec_message_begin_be(encode_utf8("hello"@),
                ThriftMessageType::Reply) + (spec_blob_be(vb) + tail));
            crate::binary_protocol::lemma_message_header_round_trip(
                "hello"@,
                ThriftMessageType::Reply,
                spec_blob_be(vb) + tail,
            );
            let used = spec_read_message_begin(enc)->Msg_used;
            assert(used == 15);
            let rest = enc.skip(used);
            assert(rest =~= spec_blob_be(vb) + tail);
            assert(rest.take(4) =~= crate::binary_protocol::spec_i32_be(vb.len() as i32));
            crate::binary_protocol::lemma_i32_round_trip(vb.len() as i32);
            assert(rest.subrange(4, 4 + vb.len() as int) =~= vb);
            vstd::utf8::encode_utf8_valid_utf8(value);
            vstd::utf8::encode_utf8_decode_utf8(value);
        },
    }
}

/// A field loop cut anywhere before its end is incomplete, never a value
/// and never a fault.
pub proof fn lemma_name_fields_prefix(rem: Seq<u8>, acc: Option<Seq<char>>, k: int)
    requires
        spec_read_name_fields(rem, acc) is Value,
        0 <= k < spec_read_name_fields(rem, acc)->Value_used,
    ensures
        spec_read_name_fields(rem.take(k), acc) == DecodeOutcome::<Option<Seq<char>>>::Incomplete,
    decreases rem.len(),
{
    let p = rem.take(k);
    lemma_name_fields_props(rem, acc);
    lemma_field_decode_props(rem);
    match spec_read_field_begin(rem) {
        FieldDecode::Fld { kind, seqid, used } => {
            if k < used {
                crate::binary_protocol::lemma_field_begin_prefix_short(rem, k);
            } else {
                crate::binary_protocol::lemma_field_begin_extend(rem, k);
                assert(!(kind is Stop));
                let rest = rem.skip(3);
                let rest_p = p.skip(3);
                assert(rest_p =~= rest.take(k - 3));
                if seqid == 1 && kind is String {
                    lemma_blob_decode_props(rest);
                    match spec_read_blob(rest) {
                        DecodeOutcome::Value { v: b, used: u2 } => {
                            if k - 3 < u2 {
                                crate::binary_protocol::lemma_blob_prefix_short(rest, k - 3);
                            } else {
                                crate::binary_protocol::lemma_blob_extend(rest, k - 3);
                                let rec_rem = rest.skip(u2);
                                assert(rest_p.skip(u2) =~= rec_rem.take(k - 3 - u2));
                                lemma_name_fields_prefix(
                                    rec_rem,
                                    Some(decode_utf8(b)),
                                    k - 3 - u2,
                                );
                            }
                        },
                        _ => {},
                    }
                } else {
                    lemma_skip_value_props(kind, rest);
                    match spec_skip_value(kind, rest) {
                        DecodeOutcome::Value { v: _, used: u2 } => {
                            if k - 3 < u2 {
                                crate::binary_protocol::lemma_skip_prefix_short(kind, rest, k - 3);
                            } else {
                                crate::binary_protocol::lemma_skip_extend(kind, rest, k - 3);
                                let rec_rem = rest.skip(u2);
                                assert(rest_p.skip(u2) =~= rec_rem.take(k - 3 - u2));
                                lemma_name_fields_prefix(rec_rem, acc, k - 3 - u2);
                            }
                        },
                        _ => {},
                    }
                }
            }
        },
        _ => {},
    }
}

/// The `hello` field loop cut anywhere before its end is incomplete.
pub proof fn lemma_plain_fields_prefix(rem: Seq<u8>, k: int)
    requires
        spec_read_plain_fields(rem) is Value,
        0 <= k < spec_read_plain_fields(rem)->Value_used,
    ensures
        spec_read_plain_fields(rem.take(k)) == DecodeOutcome::<()>::Incomplete,
    decreases rem.len(),
{
    let p = rem.take(k);
    lemma_plain_fields_props(rem);
    lemma_field_decode_props(rem);
    match spec_read_field_begin(rem) {
        FieldDecode::Fld { kind, seqid, used } => {
            if k < used {
                crate::binary_protocol::lemma_field_begin_prefix_short(rem, k);
            } else {
                crate::binary_protocol::lemma_field_begin_extend(rem, k);
                assert(!(kind is Stop));
                let rest = rem.skip(3);
                let rest_p = p.skip(3);
                assert(rest_p =~= rest.take(k - 3));
                lemma_skip_value_props(kind, rest);
                match spec_skip_value(kind, rest) {
                    DecodeOutcome::Value { v: _, used: u2 } => {
                        if k - 3 < u2 {
                            crate::binary_protocol::lemma_skip_prefix_short(kind, rest, k - 3);
                        } else {
                            crate::binary_protocol::lemma_skip_extend(kind, rest, k - 3);
                            let rec_rem = rest.skip(u2);
                            assert(rest_p.skip(u2) =~= rec_rem.take(k - 3 - u2));
                            lemma_plain_fields_prefix(rec_rem, k - 3 - u2);
                        }
                    },
                    _ => {},
                }
            }
        },
        _ => {},
    }
}

/// A request stream cut anywhere before the frame's end decodes as
/// incomplete.
pub proof fn lemma_args_decode_prefix(rem: Seq<u8>, k: int)
    requires
        HelloServiceMethodArgs::spec_decode(rem) is Value,
        0 <= k < HelloServiceMethodArgs::spec_decode(rem)->Value_used,
    ensures
        HelloServiceMethodArgs::spec_decode(rem.take(k)) == DecodeOutcome::<
            HelloServiceMethodArgsV,
        >::Incomplete,
{
    lemma_msg_decode_props(rem);
    match spec_read_message_begin(rem) {
        MsgDecode::Msg { name, kind, seqid, used } => {
            let rest = rem.skip(used);
            let nm = decode_utf8(name);
            if nm == "hello_name"@ {
                lemma_name_fields_props(rest, None);
            } else if nm == "hello"@ {
                lemma_plain_fields_props(rest);
            }
            if k < used {
                crate::binary_protocol::lemma_message_begin_prefix_short(rem, k);
            } else {
                crate::binary_protocol::lemma_message_begin_extend(rem, k);
                let rest_p = rem.take(k).skip(used);
                assert(rest_p =~= rest.take(k - used));
                if nm == "hello_name"@ {
                    lemma_name_fields_prefix(rest, None, k - used);
                } else if nm == "hello"@ {
                    lemma_plain_fields_prefix(rest, k - used);
                }
            }
        },
        _ => {},
    }
}

/// The framing law of a request: the frame of any request value decodes to
/// that value, consuming exactly the frame, and the frame cut anywhere
/// before its end is not ready.
pub proof fn lemma_request_frame_prefix(v: HelloServiceMethodArgsV, k: int)
    requires
        v matches HelloServiceMethodArgsV::Ahello_name { name } ==> encode_utf8(name).len()
            <= 0x7fff_ffff,
        0 <= k < spec_args_encode(v).len(),
    ensures
        HelloServiceMethodArgs::spec_decode(spec_args_encode(v)) == (DecodeOutcome::Value {
            v,
            used: spec_args_encode(v).len() as int,
        }),
        HelloServiceMethodArgs::spec_decode(spec_args_encode(v).take(k)) == DecodeOutcome::<
            HelloServiceMethodArgsV,
        >::Incomplete,
{
    let enc = spec_args_encode(v);
    assert(enc + Seq::<u8>::empty() =~= enc);
    lemma_args_round_trip(v, Seq::empty());
    lemma_args_decode_prefix(enc, k);
}


/// A response stream cut anywhere before the frame's end decodes as
/// incomplete.
pub proof fn lemma_return_decode_prefix(rem: Seq<u8>, k: int)
    requires
        HelloServiceMethodReturn::spec_decode(rem) is Value,
        0 <= k < HelloServiceMethodReturn::spec_decode(rem)->Value_used,
    ensures
        HelloServiceMethodReturn::spec_decode(rem.take(k)) == DecodeOutcome::<
            HelloServiceMethodReturnV,
        >::Incomplete,
{
    lemma_msg_decode_props(rem);
    match spec_read_message_begin(rem) {
        MsgDecode::Msg { name, kind, seqid, used } => {
            let rest = rem.skip(used);
            lemma_blob_decode_props(rest);
            if k < used {
                crate::binary_protocol::lemma_message_begin_prefix_short(rem, k);
            } else {
                crate::binary_protocol::lemma_message_begin_extend(rem, k);
                let rest_p = rem.take(k).skip(used);
                assert(rest_p =~= rest.take(k - used));
                match spec_read_blob(rest) {
                    DecodeOutcome::Value { v: b, used: u2 } => {
                        crate::binary_protocol::lemma_blob_prefix_short(rest, k - used);
                    },
                    _ => {},
                }
            }
        },
        _ => {},
    }
}

/// The framing law of a response: the frame of any response value decodes
/// to that value, consuming exactly the frame, and the frame cut anywhere
/// before its end is not ready.
pub proof fn lemma_response_frame_prefix(v: HelloServiceMethodReturnV, k: int)
    requires
        v matches HelloServiceMethodReturnV::Rhello_name { value } ==> encode_utf8(value).len()
            <= 0x7fff_ffff,
        v matches HelloServiceMethodReturnV::Rhello { value } ==> encode_utf8(value).len()
            <= 0x7fff_ffff,
        0 <= k < spec_return_encode(v).len(),
    ensures
        HelloServiceMethodReturn::spec_decode(spec_return_encode(v)) == (DecodeOutcome::Value {
            v,
            used: spec_return_encode(v).len() as int,
        }),
        HelloServiceMethodReturn::spec_decode(spec_return_encode(v).take(k)) == DecodeOutcome::<
            HelloServiceMethodReturnV,
        >::Incomplete,
{
    let enc = spec_return_encode(v);
    assert(enc + Seq::<u8>::empty() =~= enc);
    lemma_return_round_trip(v, Seq::empty());
    lemma_return_decode_prefix(enc, k);
}

// ---------------------------------------------------------------------------
// The service interface, the server adapter, and the client side.
// ---------------------------------------------------------------------------

/// The service interface a user implements. The adapter holds it by shared
/// reference only, so one implementation may serve many connections.
pub trait HelloService {
    fn hello_name(&self, name: String) -> Result<String, ThriftError>;

    fn hello(&self) -> Result<String, ThriftError>;
}

/// The server adapter: it owns an implementation and dispatches each decoded
/// request to the matching interface method, mapping the result into the
/// response sum.
pub struct HelloServer<S> {
    inner: S,
}

impl<S: HelloService> HelloServer<S> {
    pub fn new(inner: S) -> (r: HelloServer<S>) {
        HelloServer { inner }
    }

    /// One request in, one response out. The response variant always matches
    /// the request's method.
    pub fn call(&self, req: HelloServiceMethodArgs) -> (r: Result<
        HelloServiceMethodReturn,
        ThriftError,
    >)
        ensures
            r matches Ok(ret) ==> (req is Ahello_name <==> ret is Rhello_name),
            r matches Ok(ret) ==> (req is Ahello <==> ret is Rhello),
    {
        match req {
            HelloServiceMethodArgs::Ahello_name(args) => match self.inner.hello_name(args.name) {
                Ok(v) => Ok(HelloServiceMethodReturn::Rhello_name(v)),
                Err(e) => Err(e),
            },
            HelloServiceMethodArgs::Ahello(_args) => match self.inner.hello() {
                Ok(v) => Ok(HelloServiceMethodReturn::Rhello(v)),
                Err(e) => Err(e),
            },
        }
    }
}

/// Builds the request the client proxy sends for `hello_name(name)`.
pub fn make_hello_name_call(name: String) -> (r: HelloServiceMethodArgs)
    ensures
        r == HelloServiceMethodArgs::Ahello_name(Hellohello_nameArgs { name }),
{
    HelloServiceMethodArgs::Ahello_name(Hellohello_nameArgs { name })
}

/// Builds the request the client proxy sends for `hello()`.
pub fn make_hello_call() -> (r: HelloServiceMethodArgs)
    ensures
        r == HelloServiceMethodArgs::Ahello(HellohelloArgs {  }),
{
    HelloServiceMethodArgs::Ahello(HellohelloArgs {  })
}

/// Destructures the response the client proxy expects for `hello_name`; a
/// response of any other variant is a protocol fault.
pub fn match_hello_name_return(ret: HelloServiceMethodReturn) -> (r: Result<String, Error>)
    ensures
        ret matches HelloServiceMethodReturn::Rhello_name(s) ==> r == Ok::<String, Error>(s),
        ret is Rhello ==> r == Err::<String, Error>(Error::VariantMismatch),
{
    match ret {
        HelloServiceMethodReturn::Rhello_name(s) => Ok(s),
        _ => Err(Error::VariantMismatch),
    }
}

/// Destructures the response the client proxy expects for `hello`.
pub fn match_hello_return(ret: HelloServiceMethodReturn) -> (r: Result<String, Error>)
    ensures
        ret matches HelloServiceMethodReturn::Rhello(s) ==> r == Ok::<String, Error>(s),
        ret is Rhello_name ==> r == Err::<String, Error>(Error::VariantMismatch),
{
    match ret {
        HelloServiceMethodReturn::Rhello(s) => Ok(s),
        _ => Err(Error::VariantMismatch),
    }
}

/// A field the reader does not recognize is discarded without error: the
/// loop passes over its header and its value and goes on with the rest of
/// the stream, finding the same fields there.
pub proof fn lemma_unknown_field_skipped(
    t: ThriftType,
    id: i16,
    vbytes: Seq<u8>,
    rest: Seq<u8>,
    acc: Option<Seq<char>>,
)
    requires
        !(t is Stop),
        !(id == 1 && t is String),
        spec_skip_value(t, vbytes + rest) == (DecodeOutcome::Value {
            v: (),
            used: vbytes.len() as int,
        }),
    ensures
        spec_read_name_fields(
            crate::binary_protocol::spec_field_begin_be(t, id) + (vbytes + rest),
            acc,
        ) == shift_outcome(spec_read_name_fields(rest, acc), 3 + vbytes.len() as int),
{
    let enc = crate::binary_protocol::spec_field_begin_be(t, id) + (vbytes + rest);
    crate::binary_protocol::lemma_skip_value_props(t, vbytes + rest);
    crate::binary_protocol::lemma_field_begin_round_trip(t, id, vbytes + rest);
    assert(enc.skip(3) =~= vbytes + rest);
    assert((vbytes + rest).skip(vbytes.len() as int) =~= rest);
}

} // verus!
