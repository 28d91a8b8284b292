//! A Thrift toolchain: an IDL parser, a Rust code generator, and a binary
//! wire-protocol runtime with a framing layer for request/response
//! messaging.

pub mod protocol;
pub mod result;
pub mod transport;
pub mod binary_protocol;
pub mod framed;
pub mod hello;
pub mod parser;
pub mod codegen;
pub mod util;

pub use protocol::{ThriftType, ThriftMessageType, ThriftMessage, ThriftField, Error};
pub use result::{ThriftResult, ThriftError};
pub use binary_protocol::BinaryProtocol;
pub use framed::{ThriftCodec, ThriftProto};
pub use util::create_empty_thrift_message;
