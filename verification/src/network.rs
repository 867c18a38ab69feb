//! What the server decides for each datagram. The sockets themselves are
//! not here: the program around this library receives and sends.

use vstd::prelude::*;

use crate::address::IpAddr;
use crate::errors::{LookupError, QueryError};
use crate::protocol::dns_packet::{packet_at, DnsPacket, PacketView};
use crate::protocol::packet_buffer::PacketBuffer;
use crate::resolver::{resolution_of, Resolution, ResolutionView, ResolverType};

verus! {

/// The lowest port that a lookup is sent from.
pub const CLIENT_PORT_BASE: u16 = 4000;

/// The number of ports that a lookup may be sent from.
pub const CLIENT_PORT_RANGE: u16 = 1000;

/// `rand::random` gives a value of the type that is asked for, here a
/// `u16`. Which one is not known before.
#[verifier::external_body]
fn random_u16() -> u16 {
    rand::random::<u16>()
}

/// The port that stands for a number: the ports from 4000 to 4999 in turn.
pub fn client_port(seed: u16) -> (r: u16)
    ensures
        r == CLIENT_PORT_BASE + seed % CLIENT_PORT_RANGE,
        4000 <= r < 5000,
{
    seed % CLIENT_PORT_RANGE + CLIENT_PORT_BASE
}

/// A port to send a lookup from, chosen at random from 4000 to 4999.
pub fn random_client_port() -> (r: u16)
    ensures
        4000 <= r < 5000,
{
    client_port(random_u16())
}

/// What is to be done with a datagram.
#[derive(Debug, Clone, PartialEq, Eq)]
pub enum Handling {
    /// These bytes go back to the sender.
    Reply(Vec<u8>),
    /// These bytes go to the server at this address and port. What it
    /// replies is handed to `handle_reply`.
    Forward { address: IpAddr, port: u16, datagram: Vec<u8> },
    /// Nothing is sent; this is why.
    Drop(QueryError),
}

/// What is to be done with a datagram, over plain values.
pub enum HandlingView {
    Reply(Seq<u8>),
    Forward { address: IpAddr, port: u16, datagram: Seq<u8> },
    Drop(QueryError),
}

impl View for Handling {
    type V = HandlingView;

    open spec fn view(&self) -> HandlingView {
        match self {
            Handling::Reply(bytes) => HandlingView::Reply(bytes@),
            Handling::Forward { address, port, datagram } => HandlingView::Forward {
                address: *address,
                port: *port,
                datagram: datagram@,
            },
            Handling::Drop(e) => HandlingView::Drop(*e),
        }
    }
}

/// The bytes that stand for a message on the wire, if it can be written:
/// its counts have to be right, no label may be too long, and it has to
/// fit in 512 bytes.
pub open spec fn datagram_of(packet: PacketView) -> Option<Seq<u8>> {
    if packet.counts_match() && packet.question_fits() && packet.records_fit() {
        Some(packet.wire())
    } else {
        None
    }
}

/// What is to be done with a datagram that a client sent. A datagram that
/// is no message is dropped. A message that is resolved here is answered,
/// unless the response cannot be written; a message that has to be sent on
/// is written again and sent on, unless it cannot be written.
pub open spec fn handling_of(datagram: Seq<u8>, resolver: ResolverType) -> HandlingView {
    match packet_at(datagram, 0) {
        Err(_) => HandlingView::Drop(QueryError::FailedToDeserializeResponse),
        Ok((query, _)) => match resolution_of(resolver, query) {
            ResolutionView::Done(response) => match datagram_of(response) {
                Some(bytes) => HandlingView::Reply(bytes),
                None => HandlingView::Drop(QueryError::FailedToSerializeResponse),
            },
            ResolutionView::Forward { address, port, query } => match datagram_of(query) {
                Some(bytes) => HandlingView::Forward { address, port, datagram: bytes },
                None => HandlingView::Drop(QueryError::FailedToSerializeQuery),
            },
            ResolutionView::Failed(_) => HandlingView::Drop(QueryError::FailetToResolveQuery),
        },
    }
}

/// What is to be done with the reply of the mirror server: it is read as
/// a message, written again, and sent to the client; a reply that is no
/// message, or one that cannot be written, is dropped.
pub open spec fn reply_handling_of(reply: Seq<u8>) -> HandlingView {
    match packet_at(reply, 0) {
        Err(_) => HandlingView::Drop(QueryError::FailedToDeserializeResponse),
        Ok((response, _)) => match datagram_of(response) {
            Some(bytes) => HandlingView::Reply(bytes),
            None => HandlingView::Drop(QueryError::FailedToSerializeResponse),
        },
    }
}

/// The bytes that stand for a message on the wire, if it can be written.
pub fn datagram(packet: &DnsPacket) -> (r: Option<Vec<u8>>)
    ensures
        match datagram_of(packet@) {
            Some(bytes) => r is Some && r->Some_0@ == bytes,
            None => r is None,
        },
{
    match packet.serialize() {
        Ok(mut packet_buffer) => {
            let length = packet_buffer.pos;
            packet_buffer.seek(0);
            match packet_buffer.read_bytes(length) {
                Ok(bytes) => {
                    proof {
                        let zeros = Seq::new(512, |i: int| 0u8);
                        crate::protocol::packet_buffer::lemma_written_there(
                            zeros,
                            0,
                            packet@.wire(),
                        );
                    }
                    Some(bytes)
                },
                Err(_) => None,
            }
        },
        Err(_) => None,
    }
}

/// Decides what is to be done with a datagram that a client sent.
pub fn handle_query(buf: [u8; 512], resolver: &ResolverType) -> (r: Handling)
    ensures
        r@ == handling_of(buf@, *resolver),
{
    let mut packet_buffer = PacketBuffer::new(buf);
    let query = match DnsPacket::deserialize(&mut packet_buffer) {
        Ok(query) => query,
        Err(_) => {
            return Handling::Drop(QueryError::FailedToDeserializeResponse);
        },
    };
    match resolver.resolve(query) {
        Resolution::Done(response) => match datagram(&response) {
            Some(bytes) => Handling::Reply(bytes),
            None => Handling::Drop(QueryError::FailedToSerializeResponse),
        },
        Resolution::Forward { address, port, query } => match datagram(&query) {
            Some(bytes) => Handling::Forward { address, port, datagram: bytes },
            None => Handling::Drop(QueryError::FailedToSerializeQuery),
        },
        Resolution::Failed(_) => Handling::Drop(QueryError::FailetToResolveQuery),
    }
}

/// Decides what is to be done with the reply of the mirror server.
pub fn handle_reply(buf: [u8; 512]) -> (r: Handling)
    ensures
        r@ == reply_handling_of(buf@),
{
    let mut packet_buffer = PacketBuffer::new(buf);
    let response = match DnsPacket::deserialize(&mut packet_buffer) {
        Ok(response) => response,
        Err(_) => {
            return Handling::Drop(QueryError::FailedToDeserializeResponse);
        },
    };
    match datagram(&response) {
        Some(bytes) => Handling::Reply(bytes),
        None => Handling::Drop(QueryError::FailedToSerializeResponse),
    }
}

/// Decides what is to be done where the mirror server could not be asked
/// or did not reply in time: nothing is sent. The text is what an operator
/// is told.
pub fn handle_lookup_failure(error: &LookupError) -> (r: (Handling, String))
    ensures
        r.0@ == HandlingView::Drop(QueryError::FailetToResolveQuery),
        r.1@ == error@.message(),
{
    (Handling::Drop(QueryError::FailetToResolveQuery), error.message())
}

} // verus!
