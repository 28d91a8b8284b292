use byteorder::{BigEndian, ReadBytesExt, WriteBytesExt};
use std::io::Cursor;
use tokio_thrift::binary_protocol::{BinaryProtocol, THRIFT_VERSION_1};
use tokio_thrift::protocol::{Error, ThriftMessageType, ThriftType};
use tokio_thrift::transport::MemoryTransport;
use tokio_thrift::create_empty_thrift_message;

fn reader(buf: Vec<u8>) -> BinaryProtocol {
    BinaryProtocol::new(MemoryTransport::from_vec(buf))
}

fn writer() -> BinaryProtocol {
    BinaryProtocol::new(MemoryTransport::new())
}

#[test]
fn deserialize_bool() {
    let mut de = reader(vec![1u8]);
    let val: bool = de.deserialize_bool().unwrap();
    assert_eq!(val, true);
}

#[test]
fn deserialize_u16() {
    let mut buf = Vec::new();
    buf.write_u16::<BigEndian>(32000).unwrap();
    let mut de = reader(buf);
    let val: u16 = de.deserialize_u16().unwrap();
    assert_eq!(val, 32000);
}

#[test]
fn deserialize_i16() {
    let mut buf = Vec::new();
    buf.write_i16::<BigEndian>(-32000).unwrap();
    let mut de = reader(buf);
    let val: i16 = de.deserialize_i16().unwrap();
    assert_eq!(val, -32000);
}

#[test]
fn deserialize_u32() {
    let mut buf = Vec::new();
    buf.write_u32::<BigEndian>(32000).unwrap();
    let mut de = reader(buf);
    let val: u32 = de.deserialize_u32().unwrap();
    assert_eq!(val, 32000);
}

#[test]
fn deserialize_i32() {
    let mut buf = Vec::new();
    buf.write_i32::<BigEndian>(32000).unwrap();
    let mut de = reader(buf);
    let val: i32 = de.deserialize_i32().unwrap();
    assert_eq!(val, 32000);
}

#[test]
fn deserialize_u64() {
    let mut buf = Vec::new();
    buf.write_u64::<BigEndian>(32000).unwrap();
    let mut de = reader(buf);
    let val: u64 = de.deserialize_u64().unwrap();
    assert_eq!(val, 32000);
}

#[test]
fn deserialize_i64() {
    let mut buf = Vec::new();
    buf.write_i64::<BigEndian>(32000).unwrap();
    let mut de = reader(buf);
    let val: i64 = de.deserialize_i64().unwrap();
    assert_eq!(val, 32000);
}

#[test]
fn deserialize_string() {
    let mut buf = Vec::new();
    let i = "foobar";
    buf.write_i32::<BigEndian>(i.len() as i32).unwrap();
    std::io::Write::write(&mut buf, i.as_bytes()).unwrap();
    let mut de = reader(buf);
    let val: String = de.deserialize_str().unwrap();
    assert_eq!(&*val, "foobar");
}

#[test]
fn serialize_bool_true() {
    let mut s = writer();
    s.serialize_bool(true).unwrap();
    let v = s.into_inner().into_vec();
    assert_eq!(v[0], 1);
}

#[test]
fn serialize_bool_false() {
    let mut s = writer();
    s.serialize_bool(false).unwrap();
    let v = s.into_inner().into_vec();
    assert_eq!(v[0], 0);
}

#[test]
fn serialize_i8() {
    let mut s = writer();
    s.serialize_i8(5).unwrap();
    let v = s.into_inner().into_vec();
    assert_eq!(v[0], 5);
}

#[test]
fn serialize_i8_neg() {
    let mut s = writer();
    s.serialize_i8(-5).unwrap();
    let v = s.into_inner().into_vec();
    assert_eq!(v[0] as i8, -5);
}

#[test]
fn serialize_i16() {
    let mut s = writer();
    s.serialize_i16(900).unwrap();
    let v = s.into_inner().into_vec();
    let mut cursor = Cursor::new(v);
    assert_eq!(900, cursor.read_i16::<BigEndian>().unwrap());
}

#[test]
fn serialize_i16_neg() {
    let mut s = writer();
    s.serialize_i16(-900).unwrap();
    let v = s.into_inner().into_vec();
    let mut cursor = Cursor::new(v);
    assert_eq!(-900, cursor.read_i16::<BigEndian>().unwrap());
}

#[test]
fn serialize_i32() {
    let mut s = writer();
    s.serialize_i32(3000000).unwrap();
    let v = s.into_inner().into_vec();
    let mut cursor = Cursor::new(v);
    assert_eq!(3000000, cursor.read_i32::<BigEndian>().unwrap());
}

#[test]
fn serialize_i32_neg() {
    let mut s = writer();
    s.serialize_i32(-3000000).unwrap();
    let v = s.into_inner().into_vec();
    let mut cursor = Cursor::new(v);
    assert_eq!(-3000000, cursor.read_i32::<BigEndian>().unwrap());
}

#[test]
fn serialize_i64() {
    let mut s = writer();
    s.serialize_i64(33000000).unwrap();
    let v = s.into_inner().into_vec();
    let mut cursor = Cursor::new(v);
    assert_eq!(33000000, cursor.read_i64::<BigEndian>().unwrap());
}

#[test]
fn serialize_i64_neg() {
    let mut s = writer();
    s.serialize_i64(-33000000).unwrap();
    let v = s.into_inner().into_vec();
    let mut cursor = Cursor::new(v);
    assert_eq!(-33000000, cursor.read_i64::<BigEndian>().unwrap());
}

#[test]
fn protocol_begin() {
    let mut proto = writer();
    proto
        .write_message_begin("foobar", ThriftMessageType::Call)
        .unwrap();
    let v = proto.into_inner().into_vec();
    let mut cursor = Cursor::new(v);
    let version = (THRIFT_VERSION_1 | ThriftMessageType::Call.to_byte() as u32) as i32;
    assert_eq!(version, cursor.read_i32::<BigEndian>().unwrap());
}

#[test]
fn write_and_read_message_begin() {
    let mut se = writer();
    se.write_message_begin("Foobar123", ThriftMessageType::Call)
        .unwrap();
    let buf = se.into_inner().into_vec();

    let mut de = reader(buf);
    let msg = de.read_message_begin().unwrap();
    assert_eq!(msg.name, "Foobar123");
    assert_eq!(msg.ty, ThriftMessageType::Call);
}

#[test]
fn wire_roundtrip_i32() {
    let mut s = writer();
    s.serialize_i32(-3_000_000).unwrap();
    let v = s.into_inner().into_vec();
    assert_eq!(v, vec![0xff, 0xd2, 0x39, 0x40]);
    let mut de = reader(v);
    assert_eq!(de.deserialize_i32().unwrap(), -3_000_000);
}

#[test]
fn roundtrip_primitives() {
    let mut s = writer();
    s.serialize_bool(true).unwrap();
    s.serialize_u8(200).unwrap();
    s.serialize_i8(-7).unwrap();
    s.serialize_u16(65000).unwrap();
    s.serialize_i16(-12345).unwrap();
    s.serialize_u32(4000000000).unwrap();
    s.serialize_i32(-2000000000).unwrap();
    s.serialize_u64(18000000000000000000).unwrap();
    s.serialize_i64(-9000000000000000000).unwrap();
    s.serialize_f64_bits(4614256656552045848).unwrap();
    s.serialize_str("héllo wörld").unwrap();
    let mut de = reader(s.into_inner().into_vec());
    assert_eq!(de.deserialize_bool().unwrap(), true);
    assert_eq!(de.deserialize_u8().unwrap(), 200);
    assert_eq!(de.deserialize_i8().unwrap(), -7);
    assert_eq!(de.deserialize_u16().unwrap(), 65000);
    assert_eq!(de.deserialize_i16().unwrap(), -12345);
    assert_eq!(de.deserialize_u32().unwrap(), 4000000000);
    assert_eq!(de.deserialize_i32().unwrap(), -2000000000);
    assert_eq!(de.deserialize_u64().unwrap(), 18000000000000000000);
    assert_eq!(de.deserialize_i64().unwrap(), -9000000000000000000);
    assert_eq!(de.deserialize_f64_bits().unwrap(), 4614256656552045848);
    assert_eq!(de.deserialize_str().unwrap(), "héllo wörld");
}

#[test]
fn version_missing_rejected() {
    let mut de = reader(vec![0, 0, 0, 0]);
    assert_eq!(
        de.read_message_begin().unwrap_err(),
        Error::ProtocolVersionMissing
    );
}

#[test]
fn bad_version_rejected() {
    let mut de = reader(vec![0x80, 0x02, 0x00, 0x01]);
    assert_eq!(de.read_message_begin().unwrap_err(), Error::BadVersion);
}

#[test]
fn negative_length_rejected() {
    let mut de = reader(vec![0xff, 0xff, 0xff, 0xff, 1, 2, 3]);
    assert_eq!(de.deserialize_bytes().unwrap_err(), Error::NegativeSize);
}

#[test]
fn short_read_keeps_cursor() {
    let mut de = reader(vec![0, 0]);
    assert_eq!(de.deserialize_i32().unwrap_err(), Error::EOF);
    assert_eq!(de.deserialize_u16().unwrap(), 0);
}

#[test]
fn field_header_roundtrip() {
    let mut s = writer();
    s.write_field_begin("name", ThriftType::String, 7).unwrap();
    s.write_field_stop().unwrap();
    let mut de = reader(s.into_inner().into_vec());
    let f = de.read_field_begin().unwrap();
    assert_eq!(f.ty, ThriftType::String);
    assert_eq!(f.seq, 7);
    let stop = de.read_field_begin().unwrap();
    assert_eq!(stop.ty, ThriftType::Stop);
    assert_eq!(stop.seq, 0);
}

#[test]
fn unknown_wire_type_rejected() {
    let mut de = reader(vec![42]);
    assert_eq!(de.read_field_begin().unwrap_err(), Error::UnexpectedWireType);
}

#[test]
fn empty_message_frame() {
    let v = create_empty_thrift_message("ping", ThriftMessageType::Oneway);
    let mut de = reader(v);
    let msg = de.read_message_begin().unwrap();
    assert_eq!(msg.name, "ping");
    assert_eq!(msg.ty, ThriftMessageType::Oneway);
    assert_eq!(msg.seq, 0);
}

#[test]
fn type_codes_roundtrip() {
    for b in 0u8..16u8 {
        match ThriftType::from_byte(b) {
            Some(t) => assert_eq!(t.to_byte(), b),
            None => assert!(b == 5 || b == 7),
        }
    }
    assert_eq!(ThriftType::from_byte(16), None);
    assert_eq!(ThriftMessageType::from_byte(1), Some(ThriftMessageType::Call));
    assert_eq!(ThriftMessageType::from_byte(5), None);
}

#[test]
fn error_descriptions() {
    assert_eq!(Error::EOF.description(), "eof");
    assert_eq!(Error::BadVersion.description(), "bad version");
    assert_eq!(
        Error::ProtocolVersionMissing.description(),
        "protocol version missing"
    );
}
