use tokio_thrift::binary_protocol::BinaryProtocol;
use tokio_thrift::framed::ThriftCodec;
use tokio_thrift::hello::{
    make_hello_call, make_hello_name_call, match_hello_name_return, match_hello_return,
    HelloServer, HelloService, HelloServiceMethodArgs, HelloServiceMethodReturn,
    HelloServiceMethods, Hellohello_nameArgs, HellohelloArgs,
};
use tokio_thrift::protocol::{Deserialize, Error, Serialize, ThriftMessageType, ThriftType};
use tokio_thrift::transport::MemoryTransport;
use tokio_thrift::ThriftError;

struct HelloServerImpl;

impl HelloService for HelloServerImpl {
    fn hello_name(&self, name: String) -> Result<String, ThriftError> {
        Ok(format!("Hello, {}", name))
    }

    fn hello(&self) -> Result<String, ThriftError> {
        Ok(format!("Hello, World"))
    }
}

fn encode_args(args: HelloServiceMethodArgs) -> Vec<u8> {
    let mut proto = BinaryProtocol::new(MemoryTransport::new());
    args.serialize(&mut proto).unwrap();
    proto.into_inner().into_vec()
}

fn encode_return(ret: HelloServiceMethodReturn) -> Vec<u8> {
    let mut proto = BinaryProtocol::new(MemoryTransport::new());
    ret.serialize(&mut proto).unwrap();
    proto.into_inner().into_vec()
}

#[test]
fn hello_loopback_hello_name() {
    // the client builds and encodes the request
    let req = make_hello_name_call("keen".to_string());
    let mut wire = Vec::new();
    let mut client_codec: ThriftCodec<HelloServiceMethodReturn, HelloServiceMethodArgs> =
        ThriftCodec::new();
    client_codec.encode(req, &mut wire).unwrap();

    // the server decodes it, dispatches, and encodes the response
    let mut server_codec: ThriftCodec<HelloServiceMethodArgs, HelloServiceMethodReturn> =
        ThriftCodec::new();
    let decoded = server_codec.decode(&mut wire).unwrap().unwrap();
    assert!(wire.is_empty());
    let server = HelloServer::new(HelloServerImpl);
    let ret = server.call(decoded).unwrap();
    let mut reply_wire = Vec::new();
    server_codec.encode(ret, &mut reply_wire).unwrap();

    // the client decodes the response and destructures its variant
    let reply = client_codec.decode(&mut reply_wire).unwrap().unwrap();
    assert_eq!(match_hello_name_return(reply).unwrap(), "Hello, keen");
}

#[test]
fn hello_loopback_hello() {
    let req = make_hello_call();
    let mut wire = Vec::new();
    let mut client_codec: ThriftCodec<HelloServiceMethodReturn, HelloServiceMethodArgs> =
        ThriftCodec::new();
    client_codec.encode(req, &mut wire).unwrap();

    let mut server_codec: ThriftCodec<HelloServiceMethodArgs, HelloServiceMethodReturn> =
        ThriftCodec::new();
    let decoded = server_codec.decode(&mut wire).unwrap().unwrap();
    let server = HelloServer::new(HelloServerImpl);
    let ret = server.call(decoded).unwrap();
    let mut reply_wire = Vec::new();
    server_codec.encode(ret, &mut reply_wire).unwrap();

    let reply = client_codec.decode(&mut reply_wire).unwrap().unwrap();
    assert_eq!(match_hello_return(reply).unwrap(), "Hello, World");
}

#[test]
fn framing_on_fragment() {
    let req = make_hello_name_call("keen".to_string());
    let full = encode_args(req);
    assert!(full.len() > 3);

    let mut codec: ThriftCodec<HelloServiceMethodArgs, HelloServiceMethodReturn> =
        ThriftCodec::new();
    // only the first three bytes have arrived: not ready, nothing consumed
    let mut buf: Vec<u8> = full[..3].to_vec();
    assert!(codec.decode(&mut buf).unwrap().is_none());
    assert_eq!(buf.len(), 3);

    // the rest arrives: exactly one value, and the buffer is drained
    buf.extend_from_slice(&full[3..]);
    let decoded = codec.decode(&mut buf).unwrap().unwrap();
    assert!(buf.is_empty());
    match decoded {
        HelloServiceMethodArgs::Ahello_name(a) => assert_eq!(a.name, "keen"),
        other => panic!("wrong variant: {:?}", other),
    }
}

#[test]
fn every_prefix_is_not_ready() {
    let req = make_hello_name_call("bob".to_string());
    let full = encode_args(req);
    for k in 0..full.len() {
        let mut codec: ThriftCodec<HelloServiceMethodArgs, HelloServiceMethodReturn> =
            ThriftCodec::new();
        let mut buf: Vec<u8> = full[..k].to_vec();
        assert!(codec.decode(&mut buf).unwrap().is_none(), "prefix of {} bytes", k);
        assert_eq!(buf.len(), k);
    }
}

#[test]
fn unknown_method_rejected() {
    let mut proto = BinaryProtocol::new(MemoryTransport::new());
    proto
        .write_message_begin("no_such_method", ThriftMessageType::Call)
        .unwrap();
    proto.write_field_stop().unwrap();
    let wire = proto.into_inner().into_vec();

    let mut de = BinaryProtocol::new(MemoryTransport::from_vec(wire.clone()));
    let r = HelloServiceMethodArgs::deserialize(&mut de);
    assert_eq!(r.unwrap_err(), Error::UnknownMethod);

    let mut codec: ThriftCodec<HelloServiceMethodArgs, HelloServiceMethodReturn> =
        ThriftCodec::new();
    let mut buf = wire;
    assert_eq!(codec.decode(&mut buf).unwrap_err(), Error::UnknownMethod);
}

#[test]
fn empty_struct_body_gives_defaults() {
    // an immediate stop marker deserializes to the default record
    let mut de = BinaryProtocol::new(MemoryTransport::from_vec(vec![0u8]));
    let r: HellohelloArgs = Deserialize::deserialize(&mut de).unwrap();
    let _ = r;
}

#[test]
fn unknown_fields_are_skipped() {
    // a field with an unrecognized id is passed over without error
    let mut proto = BinaryProtocol::new(MemoryTransport::new());
    proto.write_field_begin("x", ThriftType::I32, 99).unwrap();
    proto.serialize_i32(12345).unwrap();
    proto.write_field_begin("name", ThriftType::String, 1).unwrap();
    proto.serialize_str("bob").unwrap();
    proto.write_field_stop().unwrap();
    let wire = proto.into_inner().into_vec();

    let mut de = BinaryProtocol::new(MemoryTransport::from_vec(wire));
    let args: Hellohello_nameArgs = Deserialize::deserialize(&mut de).unwrap();
    assert_eq!(args.name, "bob");
}

#[test]
fn missing_required_field_rejected() {
    // a body with only unknown fields misses the required `name`
    let mut proto = BinaryProtocol::new(MemoryTransport::new());
    proto.write_field_begin("x", ThriftType::I16, 5).unwrap();
    proto.serialize_i16(3).unwrap();
    proto.write_field_stop().unwrap();
    let wire = proto.into_inner().into_vec();

    let mut de = BinaryProtocol::new(MemoryTransport::from_vec(wire));
    let r = Hellohello_nameArgs::deserialize(&mut de);
    assert_eq!(r.unwrap_err(), Error::MissingField);
}

#[test]
fn args_struct_roundtrip() {
    let args = Hellohello_nameArgs { name: "wire".to_string() };
    let mut proto = BinaryProtocol::new(MemoryTransport::new());
    args.serialize(&mut proto).unwrap();
    let wire = proto.into_inner().into_vec();
    let mut de = BinaryProtocol::new(MemoryTransport::from_vec(wire));
    let back: Hellohello_nameArgs = Deserialize::deserialize(&mut de).unwrap();
    assert_eq!(back.name, "wire");
}

#[test]
fn return_roundtrip() {
    let ret = HelloServiceMethodReturn::Rhello_name("abc".to_string());
    let wire = encode_return(ret);
    let mut de = BinaryProtocol::new(MemoryTransport::from_vec(wire));
    let back: HelloServiceMethodReturn = Deserialize::deserialize(&mut de).unwrap();
    assert_eq!(match_hello_name_return(back).unwrap(), "abc");
}

#[test]
fn variant_mismatch_detected() {
    let ret = HelloServiceMethodReturn::Rhello("x".to_string());
    assert_eq!(match_hello_name_return(ret).unwrap_err(), Error::VariantMismatch);
    let ret2 = HelloServiceMethodReturn::Rhello_name("y".to_string());
    assert_eq!(match_hello_return(ret2).unwrap_err(), Error::VariantMismatch);
}

#[test]
fn method_names_map_back() {
    assert_eq!(
        HelloServiceMethods::from_name("hello_name"),
        Some(HelloServiceMethods::Mhello_name)
    );
    assert_eq!(
        HelloServiceMethods::from_name("hello"),
        Some(HelloServiceMethods::Mhello)
    );
    assert_eq!(HelloServiceMethods::from_name("nope"), None);
}

#[test]
fn encode_appends_to_buffer() {
    let mut codec: ThriftCodec<HelloServiceMethodArgs, HelloServiceMethodReturn> =
        ThriftCodec::new();
    let mut buf = vec![9u8];
    codec
        .encode(HelloServiceMethodReturn::Rhello("hi".to_string()), &mut buf)
        .unwrap();
    assert_eq!(buf[0], 9);
    assert!(buf.len() > 1);
}

#[test]
fn proto_binds_codec() {
    let proto: tokio_thrift::ThriftProto<HelloServiceMethodArgs, HelloServiceMethodReturn> =
        tokio_thrift::ThriftProto::new();
    let mut codec = proto.bind_transport();
    let mut buf: Vec<u8> = Vec::new();
    assert!(codec.decode(&mut buf).unwrap().is_none());
}

#[test]
fn unknown_struct_field_is_skipped() {
    // an unrecognized field of struct type: its whole body is passed over
    let mut proto = BinaryProtocol::new(MemoryTransport::new());
    proto.write_field_begin("mystery", ThriftType::Struct, 50).unwrap();
    proto.write_field_begin("inner", ThriftType::I32, 1).unwrap();
    proto.serialize_i32(7).unwrap();
    proto.write_field_stop().unwrap();
    proto.write_field_begin("name", ThriftType::String, 1).unwrap();
    proto.serialize_str("bob").unwrap();
    proto.write_field_stop().unwrap();
    let wire = proto.into_inner().into_vec();

    let mut de = BinaryProtocol::new(MemoryTransport::from_vec(wire));
    let args: Hellohello_nameArgs = Deserialize::deserialize(&mut de).unwrap();
    assert_eq!(args.name, "bob");
}

#[test]
fn unknown_list_field_is_skipped() {
    // an unrecognized field of list type: element type, count, elements
    let mut proto = BinaryProtocol::new(MemoryTransport::new());
    proto.write_field_begin("xs", ThriftType::List, 60).unwrap();
    proto.serialize_u8(ThriftType::I32.to_byte()).unwrap();
    proto.serialize_i32(2).unwrap();
    proto.serialize_i32(10).unwrap();
    proto.serialize_i32(20).unwrap();
    proto.write_field_begin("name", ThriftType::String, 1).unwrap();
    proto.serialize_str("eve").unwrap();
    proto.write_field_stop().unwrap();
    let wire = proto.into_inner().into_vec();

    let mut de = BinaryProtocol::new(MemoryTransport::from_vec(wire));
    let args: Hellohello_nameArgs = Deserialize::deserialize(&mut de).unwrap();
    assert_eq!(args.name, "eve");
}

#[test]
fn unknown_map_field_is_skipped() {
    // an unrecognized field of map type: key and value types, count, pairs
    let mut proto = BinaryProtocol::new(MemoryTransport::new());
    proto.write_field_begin("m", ThriftType::Map_, 61).unwrap();
    proto.serialize_u8(ThriftType::I32.to_byte()).unwrap();
    proto.serialize_u8(ThriftType::String.to_byte()).unwrap();
    proto.serialize_i32(1).unwrap();
    proto.serialize_i32(5).unwrap();
    proto.serialize_str("five").unwrap();
    proto.write_field_begin("name", ThriftType::String, 1).unwrap();
    proto.serialize_str("kim").unwrap();
    proto.write_field_stop().unwrap();
    let wire = proto.into_inner().into_vec();

    let mut de = BinaryProtocol::new(MemoryTransport::from_vec(wire));
    let args: Hellohello_nameArgs = Deserialize::deserialize(&mut de).unwrap();
    assert_eq!(args.name, "kim");
}

#[test]
fn truncated_skipped_field_is_not_ready() {
    // the unknown struct field's value is cut off: the decode must report
    // EOF and leave the cursor where it began
    let mut proto = BinaryProtocol::new(MemoryTransport::new());
    proto.write_field_begin("mystery", ThriftType::Struct, 50).unwrap();
    proto.write_field_begin("inner", ThriftType::I32, 1).unwrap();
    let mut wire = proto.into_inner().into_vec();
    wire.push(0); // one byte of the four-byte value
    let mut de = BinaryProtocol::new(MemoryTransport::from_vec(wire));
    let r = Hellohello_nameArgs::deserialize(&mut de);
    assert_eq!(r.unwrap_err(), tokio_thrift::Error::EOF);
    assert_eq!(de.position(), 0);
}
