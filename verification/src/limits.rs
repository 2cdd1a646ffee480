//! Sizes and times that a deployment fixes.

use vstd::prelude::*;

verus! {

/// The sizes of packets, and the times for which clients may use a stale answer, in seconds.
#[derive(Clone, Copy, Debug, PartialEq, Eq, Structural)]
pub struct Limits {
    pub min_dns_packet_len: usize,
    pub max_dns_response_len: usize,
    pub max_dns_question_len: usize,
    pub udp_tcp_ratio: usize,
    pub stale_if_error_secs: u32,
    pub stale_while_revalidate_secs: u32,
    pub odoh_key_rotation_secs: u32,
}

impl Limits {
    /// The ratio divides, and the length of an encoded question can be computed.
    pub open spec fn wf(self) -> bool {
        self.udp_tcp_ratio > 0 && self.max_dns_question_len * 4 <= usize::MAX
    }
}

} // verus!
