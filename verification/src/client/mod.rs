//! The client's side of the chat.

pub mod client_lib;
