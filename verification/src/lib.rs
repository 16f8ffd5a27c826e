//! A client core for a realtime publish/subscribe protocol over one
//! connection: the connection's state machine and non-blocking step, the
//! channels with their callbacks, and the presence engine of each channel.
//!
//! The transport and the wire encoding are the caller's: the library takes
//! decoded frames and hands back what is to be sent. Its logic is verified;
//! what it believes of the JSON value that it carries is declared in
//! `json_value`.

pub mod json_value;
pub mod message;
pub mod ordered_map;
pub mod sync;
