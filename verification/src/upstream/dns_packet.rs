//! What the server asks of DNS packets.

use super::answers;
use super::msg;
use super::msg::{Msg, MsgError};
use super::rewrite;
use super::rr_types::RrType;
use crate::net::IpAddr;
use vstd::prelude::*;

verus! {

/// Why a packet was refused.
#[derive(Clone, Copy, Debug, PartialEq, Eq, Structural)]
pub enum PacketError {
    InvalidPacket,
}

impl From<MsgError> for PacketError {
    fn from(_e: MsgError) -> (r: Self) {
        PacketError::InvalidPacket
    }
}

impl vstd::std_specs::convert::FromSpecImpl<MsgError> for PacketError {
    open spec fn obeys_from_spec() -> bool {
        true
    }

    open spec fn from_spec(_e: MsgError) -> PacketError {
        PacketError::InvalidPacket
    }
}

/// The type that a query asks for.
pub fn query_qtype(packet: &[u8]) -> (t: Option<RrType>)
    ensures
        t == answers::asked_type(packet@),
{
    Msg::qtype_from_packet(packet)
}

/// Whether a response is a message, with every byte accounted for.
pub fn validate_response_packet(packet: &[u8]) -> (valid: bool)
    ensures
        valid == (msg::decode_message(packet@) is Ok),
{
    Msg::validate_packet(packet)
}

/// The addresses in a response's answers.
pub fn extract_answer_ips(packet: &[u8]) -> (ips: Vec<IpAddr>)
    ensures
        ips@ == answers::packet_ips(packet@),
{
    Msg::extract_answer_ips_from_packet(packet)
}

/// Whether a response has the address among its answers.
pub fn contains_answer_ip(packet: &[u8], target_ip: IpAddr) -> (found: bool)
    ensures
        found == answers::packet_has_ip(packet@, target_ip),
{
    Msg::contains_answer_ip_in_packet(packet, target_ip)
}

/// Puts the selected address in the place of those in a response's answers.
pub fn rewrite_answer_ips_in_place(packet: &mut [u8], selected_ip: IpAddr) -> (r: Result<
    (),
    PacketError,
>)
    ensures
        r is Ok <==> rewrite::layout(old(packet)@) is Ok,
        r matches Err(e) ==> e == PacketError::InvalidPacket,
        final(packet)@ == rewrite::rewritten_packet(old(packet)@, selected_ip),
{
    match Msg::rewrite_answer_ips_in_packet(packet, selected_ip) {
        Ok(done) => Ok(done),
        Err(e) => Err(PacketError::from(e)),
    }
}

} // verus!
