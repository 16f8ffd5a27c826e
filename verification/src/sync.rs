//! The connection, its channels, and the presence engine of each channel.

pub mod presence_diff;
pub mod presence_laws;
pub mod presence_state;
pub mod realtime_channel;
pub mod realtime_client;
pub mod realtime_presence;
