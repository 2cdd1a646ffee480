//! The logic of a DNS-over-HTTPS proxy: DNS messages, the requests of its clients, the choice
//! among upstream servers, and the settings, each with a contract.
//!
//! Nothing here opens a socket, reads a file or waits. What a step needs from outside comes in
//! as a value, and what it wants done goes out as a value: see the enums whose names end in
//! `Action`, `Step` and `Event`.

pub mod bootstrap;
pub mod config;
pub mod content_type;
pub mod dns_client;
pub mod doh_upstream;
pub mod errors;
pub mod fast_ip_cache;
pub mod globals;
pub mod h2_client;
pub mod h3_client;
pub mod h3_pools;
pub mod headers;
pub mod http3_server;
pub mod json_query;
pub mod limits;
pub mod net;
pub mod query_string;
pub mod request;
pub mod resolve;
pub mod response;
pub mod retry;
pub mod stamps;
pub mod text;
pub mod time;
pub mod tls;
pub mod upstream;
pub mod utils;
pub mod wire;
