//! The client side of a key-value store that is reached over message channels.
//!
//! The library holds what such a client decides and computes; it does not open a socket.
//! `wire`, `field` and `text` are the wire format's building blocks, `envelope` and
//! `reqresp` the messages made of them, each with the proof that what is written reads
//! back. `kvs` has the operations of a store, the channel and the pool of channels that
//! speak to the remote store, and a store in memory.

pub mod envelope;
pub mod error;
pub mod field;
pub mod kvs;
pub mod reqresp;
pub mod task;
pub mod text;
pub mod wire;
