//! Byte transports. The codec reads from and writes to an in-memory byte
//! view that the network layer has populated; `MemoryTransport` is that view:
//! a byte buffer with a read cursor. Writes append at the end, reads advance
//! the cursor, and a read never moves the cursor past the end.

use vstd::prelude::*;

verus! {

/// A transport that can be opened and closed.
pub trait VoidTransport {
    fn open(&mut self) -> Result<(), crate::result::ThriftError>;

    fn close(&mut self) -> Result<(), crate::result::ThriftError>;
}

/// A transport whose front can be consumed byte by byte.
pub trait ReadTransport: VoidTransport {
}

/// A transport whose end accepts new bytes.
pub trait WriteTransport: VoidTransport {
}

/// A transport that does both.
pub trait Transport: ReadTransport + WriteTransport {
}

/// A byte buffer with a read cursor. The well-formedness invariant is that
/// the cursor never lies past the end of the buffer.
pub struct MemoryTransport {
    buf: Vec<u8>,
    pos: usize,
}

impl MemoryTransport {
    /// All bytes held, read and unread alike.
    pub closed spec fn bytes(&self) -> Seq<u8> {
        self.buf@
    }

    /// The read cursor.
    pub closed spec fn rpos(&self) -> int {
        self.pos as int
    }

    /// The bytes not yet read.
    pub open spec fn remaining(&self) -> Seq<u8> {
        self.bytes().skip(self.rpos())
    }

    pub open spec fn wf(&self) -> bool {
        0 <= self.rpos() <= self.bytes().len()
    }

    /// An empty buffer, ready to be written.
    pub fn new() -> (r: MemoryTransport)
        ensures
            r.bytes() == Seq::<u8>::empty(),
            r.rpos() == 0,
            r.wf(),
    {
        let r = MemoryTransport { buf: Vec::new(), pos: 0 };
        proof {
            assert(r.bytes() =~= Seq::<u8>::empty());
        }
        r
    }

    /// A buffer holding the given bytes, with the cursor at the front.
    pub fn from_vec(buf: Vec<u8>) -> (r: MemoryTransport)
        ensures
            r.bytes() == buf@,
            r.rpos() == 0,
            r.wf(),
    {
        MemoryTransport { buf, pos: 0 }
    }

    /// Gives the buffer back, cursor position forgotten.
    pub fn into_vec(self) -> (r: Vec<u8>)
        ensures
            r@ == self.bytes(),
    {
        self.buf
    }

    /// Where the cursor stands.
    pub fn position(&self) -> (r: usize)
        ensures
            r == self.rpos(),
    {
        self.pos
    }

    /// How many bytes are left to read.
    pub fn remaining_len(&self) -> (r: usize)
        requires
            self.wf(),
        ensures
            r == self.remaining().len(),
    {
        self.buf.len() - self.pos
    }

    /// Reads the byte under the cursor and moves past it.
    pub fn read_byte(&mut self) -> (b: u8)
        requires
            old(self).wf(),
            old(self).remaining().len() >= 1,
        ensures
            final(self).wf(),
            b == old(self).remaining()[0],
            final(self).bytes() == old(self).bytes(),
            final(self).rpos() == old(self).rpos() + 1,
    {
        let n = self.buf.len();
        assert(self.pos < n);
        let b = self.buf[self.pos];
        self.pos = self.pos + 1;
        b
    }

    /// Moves the cursor back over bytes already read, so that a partial read
    /// can be retried once more bytes arrive.
    pub fn unread(&mut self, n: usize)
        requires
            old(self).wf(),
            n <= old(self).rpos(),
        ensures
            final(self).wf(),
            final(self).bytes() == old(self).bytes(),
            final(self).rpos() == old(self).rpos() - n,
    {
        self.pos = self.pos - n;
    }

    /// Appends one byte at the end.
    pub fn write_byte(&mut self, b: u8)
        requires
            old(self).wf(),
        ensures
            final(self).wf(),
            final(self).bytes() == old(self).bytes().push(b),
            final(self).rpos() == old(self).rpos(),
    {
        self.buf.push(b);
    }
}

impl VoidTransport for MemoryTransport {
    fn open(&mut self) -> Result<(), crate::result::ThriftError> {
        Ok(())
    }

    fn close(&mut self) -> Result<(), crate::result::ThriftError> {
        Ok(())
    }
}

impl ReadTransport for MemoryTransport {
}

impl WriteTransport for MemoryTransport {
}

impl Transport for MemoryTransport {
}

} // verus!
