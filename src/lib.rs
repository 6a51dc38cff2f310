//! A chat relay engine: a binary wire codec for the chat protocol, rooms with
//! optional password gates, a registry of rooms, the per-connection dispatch
//! rules that decide what each request does, and the client's command line.

pub mod protocol;
pub mod codec;
pub mod command;
pub mod crypto;
pub mod room;
pub mod server;
pub mod session;
