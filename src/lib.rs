//! A single-file upload protocol: a TCP control channel for the handshake and
//! acknowledgements, and a UDP data channel that carries the file in chunks.
//!
//! The library holds the wire codec, the sliding-window sender and receiver,
//! and the session decisions; sockets, threads, clocks and files stay with the
//! programs that use it.
pub mod bytes;
pub mod config;
pub mod filename;
pub mod message;
pub mod network;
pub mod receiver;
pub mod sender;
pub mod session;
