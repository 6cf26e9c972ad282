//! Error types of the library.

use vstd::prelude::*;

verus! {

/// The input bytes are not a well-formed message.
#[derive(Debug, Clone, Copy, PartialEq, Eq, Structural)]
pub struct Malformed;

/// Why an operation of the store failed.
#[derive(Debug, Clone, Copy, PartialEq, Eq, Structural)]
pub enum KvsError {
    /// The transport could not be set up, or sending or receiving on it failed.
    ConnectionError,
    /// Bytes that should hold a message, or a key that should hold text, are malformed.
    CodecError,
    /// The protocol cannot carry the operation: the channel has no request identifier left.
    ProtocolLimitation,
    /// The pool has no live channel.
    PoolExhausted,
}

} // verus!
