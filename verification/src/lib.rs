//! A minimal real-time text broadcast service, split into the wire protocol
//! (`common`), the broadcast loop (`server`) and the peer handle a client
//! program holds (`client`).
//!
//! Nothing in this crate touches a socket. A byte stream is held in memory as a
//! [`common::Stream`]: the program around the library moves bytes between it
//! and the real transport, and everything in between is verified.

pub mod common;
pub mod server;
pub mod client;
