//! The client's side of a connection: it decodes what a server sent and
//! encodes what goes to the server.

pub mod decode;
pub mod encode;
pub mod laws;
