//! Small helpers over the codec.

use vstd::prelude::*;
use vstd::utf8::encode_utf8;

use crate::protocol::ThriftMessageType;
use crate::binary_protocol::{BinaryProtocol, spec_message_begin_be};
use crate::transport::MemoryTransport;

verus! {

/// The frame of a message with the given method name and kind and no body:
/// just the header, ready to transmit.
pub fn create_empty_thrift_message(method: &str, ty: ThriftMessageType) -> (r: Vec<u8>)
    requires
        encode_utf8(method@).len() <= 0x7fff_ffff,
    ensures
        r@ == spec_message_begin_be(encode_utf8(method@), ty),
{
    let mut se = BinaryProtocol::new(MemoryTransport::new());
    let _ = se.write_message_begin(method, ty);
    let _ = se.write_message_end();
    let r = se.into_inner().into_vec();
    proof {
        assert(r@ =~= spec_message_begin_be(encode_utf8(method@), ty));
    }
    r
}

} // verus!
