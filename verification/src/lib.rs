//! A blocklist of hardware (MAC) addresses with a line-oriented control
//! protocol.
//!
//! - [`address`]: the syntax of an address and its stored form.
//! - [`registry`]: the set of blocked addresses and the requests that change
//!   and query it.
//! - [`store`]: the record of the registry that is written and read back.
//! - [`gateway`]: the commands for the packet filter and how their outcome is
//!   reported.
//! - [`session`]: one line of the protocol, from its text to the line that
//!   answers it.
//! - [`text`]: characters, numbers and words.
//!
//! The library decides and formats; it opens no socket, file or process.

pub mod text;
pub mod address;
pub mod registry;
pub mod store;
pub mod gateway;
pub mod session;
