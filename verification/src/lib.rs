//! A binary codec for a publish/subscribe protocol: encoders for the frames of
//! each direction, and resumable decoders that turn a byte stream, fed in
//! fragments of any size, back into messages.

pub mod buffer;
pub mod common;
pub mod state;
pub mod send_to_client;
pub mod send_to_server;
