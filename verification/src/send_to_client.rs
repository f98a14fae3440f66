//! The server's side of a connection: it decodes what a client sent and
//! encodes what goes to the client.

pub mod decode;
pub mod encode;
pub mod laws;
