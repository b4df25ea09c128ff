//! A small chat system: the wire protocol shared by clients and server, the
//! server's registry of known clients, and the decisions the server takes when
//! clients log in, talk and leave.

pub mod client;
pub mod protocol;
pub mod server;
