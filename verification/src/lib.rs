//! A minimal local inter-process communication endpoint: a process listens on
//! a filesystem-addressed socket, accepts one client connection at a time,
//! reads a single JSON request, emits two interim status frames and one
//! terminal response frame, each terminated by a single zero sentinel.
//!
//! This crate holds the verified core: the message types, the JSON wire
//! codec, the per-connection protocol, and the endpoint configuration.
//! The socket system calls themselves live outside the library.

pub mod codec;
pub mod errors;
pub mod message;
pub mod parse;
pub mod protocol;
pub mod socket;
