//! What travels between the server and a channel, once decoded.

pub mod cdc_message_filter;
pub mod payload;
