//! A minimal message broker for a voting pipeline.
//!
//! Producers publish opaque byte payloads over a one-byte-opcode wire
//! protocol; consumers subscribe and receive every distributed message.
//! The broker state (a FIFO queue and a consumer registry) and the
//! decisions taken by the connection handlers and the periodic
//! distribution loop are verified here; the sockets and the timer that
//! drive them live outside the library.

pub mod broker;
pub mod codec;
pub mod laws;
