//! Interchain-query (ICQ) protocol handler: channel handshake validation,
//! outbound query packet construction, sequence allocation, and inbound
//! acknowledgment processing over an IBC-style unordered channel.

pub mod ack;
pub mod contract;
pub mod error;
pub mod ext;
pub mod ibc;
pub mod msg;
pub mod state;
pub mod wire;
