//! The protocol core of a small request/reply TCP server.
//!
//! A client sends one protobuf-encoded [`message::ClientMessage`] per read and
//! gets one [`message::ServerMessage`] back: an echo of its text, or the sum of
//! its two integers. This crate holds everything about that exchange that can
//! be decided without touching a socket: the wire format, the dispatch rule,
//! the life of one connection and the life of the server itself. The program
//! around it owns the sockets and the threads and asks this crate what to do
//! next.
pub mod client;
pub mod codec;
pub mod message;
pub mod pool;
pub mod round_trip;
pub mod schema;
pub mod server;
pub mod wire;
