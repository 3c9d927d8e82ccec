//! SMTP building blocks: an RFC 5321 address grammar, a mailbox parser and the
//! command engine of a server, with machine-checked contracts.

pub mod common;
pub mod grammar;
pub mod server;
pub mod text;
pub mod utils;
