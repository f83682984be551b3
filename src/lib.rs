//! Peer registry, control-protocol decisions and frame routing of an
//! Ethernet-over-UDP mesh, with their contracts.

pub mod addr;
pub mod error;
pub mod peer;
pub mod registry;
pub mod msg;
pub mod control;
pub mod eth;
pub mod dispatch;
pub mod discovery;
pub mod laws;
pub mod text;
pub mod tap;
