//! Verified core of a dynamic-DNS updater: IPv4 text handling, persisted
//! state codec, outside-IP resolution, DNS record selection, and the
//! orchestrated run, each with a proved contract.
pub mod dns;
pub mod ip;
pub mod orchestrator;
pub mod resolver;
pub mod state;
pub mod text;
pub mod timestamp;
pub mod webhook;

pub use ip::Ipv4;
