//! Bootstrap library for preparing a validator node for launch: selecting
//! low-latency seed peers, provisioning a verified supervisor binary, and
//! gating the work behind a configuration-freshness check.

pub mod report;
pub mod chain;
pub mod scan;
pub mod ip;
pub mod gossip;
pub mod speedtest;
pub mod freshness;
pub mod provision;
pub mod orchestrator;
pub mod json;
pub mod codec;
pub mod snapshot;
pub mod scrape;
