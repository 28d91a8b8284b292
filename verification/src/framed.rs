//! The framing layer: it pulls one complete value out of a reassembly
//! buffer, or reports *not ready* without consuming a byte, and it writes a
//! value's frame into an outgoing buffer. The network layer appends received
//! bytes at the back of the reassembly buffer and transmits outgoing buffers
//! whole.

use vstd::prelude::*;
use core::marker::PhantomData;

use crate::protocol::{Error, Serialize, Deserialize, DecodeOutcome};
use crate::binary_protocol::BinaryProtocol;
use crate::transport::MemoryTransport;

verus! {

/// Reads every unread byte out of a transport.
fn drain_rest(mt: MemoryTransport) -> (r: Vec<u8>)
    requires
        mt.wf(),
    ensures
        r@ == mt.remaining(),
{
    let mut mt = mt;
    let ghost bytes0 = mt.bytes();
    let ghost pos0 = mt.rpos();
    let ghost rem0 = mt.remaining();
    let n0 = mt.remaining_len();
    let mut rest: Vec<u8> = Vec::new();
    let mut i: usize = 0;
    while i < n0
        invariant
            mt.wf(),
            i <= n0,
            n0 == rem0.len(),
            rem0 == bytes0.skip(pos0),
            0 <= pos0 <= bytes0.len(),
            mt.bytes() == bytes0,
            mt.rpos() == pos0 + i,
            rest@ == rem0.take(i as int),
        decreases n0 - i,
    {
        let b = mt.read_byte();
        rest.push(b);
        proof {
            assert(b == bytes0[pos0 + i]);
            assert(rem0[i as int] == bytes0[pos0 + i]);
            assert(rest@ =~= rem0.take(i as int + 1));
        }
        i = i + 1;
    }
    proof {
        assert(rest@ =~= rem0);
    }
    rest
}

/// A codec of one connection: it decodes incoming values of type `In` from a
/// reassembly buffer and encodes outgoing values of type `Out`.
pub struct ThriftCodec<In, Out> {
    _in: PhantomData<In>,
    _out: PhantomData<Out>,
}

impl<In: Deserialize, Out: Serialize> ThriftCodec<In, Out> {
    pub fn new() -> Self {
        ThriftCodec { _in: PhantomData, _out: PhantomData }
    }

    /// Attempts to decode one value from the front of the buffer. When the
    /// buffer holds a complete value, the value's bytes are drained and the
    /// value returned; when it ends mid-value, nothing is consumed and the
    /// caller gets `None`, to try again once more bytes arrive; a malformed
    /// front is a fault, and the buffer is left as it was for the caller to
    /// drop with the connection.
    pub fn decode(&mut self, buf: &mut Vec<u8>) -> (r: Result<Option<In>, Error>)
        ensures
            match In::spec_decode(old(buf)@) {
                DecodeOutcome::Value { v, used } => {
                    &&& r matches Ok(x) && x matches Some(m) && m@ == v
                    &&& final(buf)@ == old(buf)@.skip(used)
                },
                DecodeOutcome::Incomplete => r == Ok::<Option<In>, Error>(None) && final(buf)@
                    == old(buf)@,
                DecodeOutcome::Malformed { err } => (r matches Err(e) && e == err)
                    && final(buf)@ == old(buf)@,
            },
    {
        let mut taken: Vec<u8> = Vec::new();
        core::mem::swap(buf, &mut taken);
        let mut protocol = BinaryProtocol::new(MemoryTransport::from_vec(taken));
        proof {
            assert(protocol.remaining() =~= old(buf)@);
        }
        match In::deserialize(&mut protocol) {
            Ok(v) => {
                let rest = drain_rest(protocol.into_inner());
                *buf = rest;
                Ok(Some(v))
            },
            Err(Error::EOF) => {
                let mut back = protocol.into_inner().into_vec();
                core::mem::swap(buf, &mut back);
                proof {
                    assert(buf@ =~= old(buf)@);
                }
                Ok(None)
            },
            Err(e) => {
                let mut back = protocol.into_inner().into_vec();
                core::mem::swap(buf, &mut back);
                proof {
                    assert(buf@ =~= old(buf)@);
                }
                Err(e)
            },
        }
    }

    /// Appends the frame of one outgoing value to the buffer.
    pub fn encode(&mut self, msg: Out, buf: &mut Vec<u8>) -> (r: Result<(), Error>)
        requires
            msg.wf(),
        ensures
            r is Ok,
            final(buf)@ == old(buf)@ + Out::spec_encode(msg@),
    {
        let mut taken: Vec<u8> = Vec::new();
        core::mem::swap(buf, &mut taken);
        let mut protocol = BinaryProtocol::new(MemoryTransport::from_vec(taken));
        let _ = msg.serialize(&mut protocol);
        let mut back = protocol.into_inner().into_vec();
        core::mem::swap(buf, &mut back);
        Ok(())
    }
}

/// Pairs the request and response types of one connection; binding a
/// transport yields the connection's codec.
pub struct ThriftProto<Req, Res> {
    _req: PhantomData<Req>,
    _res: PhantomData<Res>,
}

impl<Req: Deserialize, Res: Serialize> ThriftProto<Req, Res> {
    pub fn new() -> Self {
        ThriftProto { _req: PhantomData, _res: PhantomData }
    }

    pub fn bind_transport(&self) -> ThriftCodec<Req, Res> {
        ThriftCodec::new()
    }
}

} // verus!
