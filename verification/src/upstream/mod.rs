//! Upstream resolvers: DNS messages and the strategies that ask several servers.

pub mod answers;
pub mod attempts;
pub mod dns_packet;
pub mod exchange;
pub mod fastest_addr;
pub mod format;
pub mod load_balance;
pub mod msg;
pub mod parallel;
pub mod rewrite;
pub mod round_trip;
pub mod rr_types;
pub mod stats;
