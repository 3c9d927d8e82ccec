//! What clients and servers share: mailboxes and the addresses in them.

pub mod ip;
pub mod ip_text;
pub mod mailbox;
