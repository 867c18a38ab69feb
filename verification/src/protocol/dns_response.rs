use vstd::prelude::*;

use crate::errors::{DeserializeError, SerializeError};
use crate::protocol::dns_answer::{static_answer, AnswerView, DnsAnswer};
use crate::protocol::dns_header::{DnsHeader, ResponseCode};
use crate::protocol::dns_packet::{DnsPacket, PacketView};
use crate::protocol::dns_query::{DnsQuery, DnsQueryView};
use crate::protocol::packet_buffer::PacketBuffer;

verus! {

/// The response to a query: the header, the question that was asked, and
/// the answer to it.
#[derive(Debug, Clone)]
pub struct DnsResponsePacket {
    header: DnsHeader,
    query: DnsQuery,
    answers: DnsAnswer,
}

/// What a response holds.
pub struct ResponseView {
    pub header: DnsHeader,
    pub query: DnsQueryView,
    pub answers: AnswerView,
}

impl View for DnsResponsePacket {
    type V = ResponseView;

    closed spec fn view(&self) -> ResponseView {
        ResponseView { header: self.header, query: self.query@, answers: self.answers@ }
    }
}

/// The header of the response to a request that is answered with
/// `answers` records: the id, the opcode, the reserved bits, the truncation
/// flag and the question count are those of the request; the message is a
/// response and authoritative, recursion is available and no longer
/// desired, the response code is `NoError`, and the counts are those of the
/// records that the response holds: `answers` answers and nothing else.
pub open spec fn response_header(request: DnsHeader, answers: u16) -> DnsHeader {
    DnsHeader {
        id: request.id,
        is_response: true,
        opcode: request.opcode,
        authoritative_answer: true,
        truncated_message: request.truncated_message,
        recursion_desired: false,
        recursion_available: true,
        z: request.z,
        rcode: ResponseCode::NoError,
        question_count: request.question_count,
        answer_count: answers,
        nscount: 0,
        arcount: 0,
    }
}

impl ResponseView {
    /// The response as a message: its answer section holds the records of
    /// the answer, the other two sections hold nothing.
    pub open spec fn packet(self) -> PacketView {
        PacketView {
            header: self.header,
            questions: self.query,
            answers: self.answers.records(),
            authority: Seq::empty(),
            additional: Seq::empty(),
        }
    }
}

impl DnsResponsePacket {
    /// The response to a query with the fixed answer of this server: the
    /// question is that of the query, the header is the header of the
    /// query turned into that of a response.
    pub fn from_query(query: DnsPacket, ttl: u32) -> (r: DnsResponsePacket)
        ensures
            r@.query == query@.questions,
            r@.answers == static_answer(query@.questions, ttl),
            r@.header == response_header(query@.header, r@.answers.rdata.len() as u16),
    {
        let answers = DnsAnswer::from_query(&query.questions, ttl);
        Self::with_answer(query, answers)
    }

    /// The response to a query with a given answer, of at most 65535 records.
    pub fn with_answer(query: DnsPacket, answers: DnsAnswer) -> (r: DnsResponsePacket)
        requires
            answers@.rdata.len() <= u16::MAX,
        ensures
            r@.query == query@.questions,
            r@.answers == answers@,
            r@.header == response_header(query@.header, answers@.rdata.len() as u16),
    {
        let header = DnsHeader {
            id: query.header.id,
            is_response: true,
            opcode: query.header.opcode,
            authoritative_answer: true,
            truncated_message: query.header.truncated_message,
            recursion_desired: false,
            recursion_available: true,
            z: query.header.z,
            rcode: ResponseCode::NoError,
            question_count: query.header.question_count,
            answer_count: answers.rdata().len() as u16,
            nscount: 0,
            arcount: 0,
        };
        DnsResponsePacket { header, query: query.questions, answers }
    }

    /// The header of the response.
    pub fn header(&self) -> (r: &DnsHeader)
        ensures
            *r == self@.header,
    {
        &self.header
    }

    /// The question that is answered.
    pub fn query(&self) -> (r: &DnsQuery)
        ensures
            r@ == self@.query,
    {
        &self.query
    }

    /// The answer.
    pub fn answers(&self) -> (r: &DnsAnswer)
        ensures
            r@ == self@.answers,
    {
        &self.answers
    }

    /// The response as a message.
    pub fn into_packet(self) -> (r: DnsPacket)
        ensures
            r@ == self@.packet(),
    {
        let answers = self.answers.records();
        let r = DnsPacket {
            header: self.header,
            questions: self.query,
            answers,
            authority: Vec::new(),
            additional: Vec::new(),
        };
        proof {
            assert(r@.authority =~= Seq::empty());
            assert(r@.additional =~= Seq::empty());
        }
        r
    }

    /// Reads a response: a message with exactly one answer and nothing in
    /// its other two sections. Another message is refused as having an
    /// invalid answer. On failure the cursor stays where it was.
    pub fn deserialize(packet_buffer: &mut PacketBuffer) -> (r: Result<Self, DeserializeError>)
        ensures
            final(packet_buffer).buffer == old(packet_buffer).buffer,
            match crate::protocol::dns_packet::packet_at(
                old(packet_buffer).bytes(),
                old(packet_buffer).pos as int,
            ) {
                Ok((packet, end)) => if packet.answers.len() == 1 && packet.authority.len() == 0
                    && packet.additional.len() == 0 {
                    r is Ok && r->Ok_0@.packet() == packet && final(packet_buffer).pos == end
                } else {
                    r == Err::<Self, DeserializeError>(DeserializeError::InvalidAnswer)
                        && final(packet_buffer).pos == old(packet_buffer).pos
                },
                Err(e) => r == Err::<Self, DeserializeError>(e) && final(packet_buffer).pos
                    == old(packet_buffer).pos,
            },
    {
        let start = packet_buffer.pos;
        let mut packet = DnsPacket::deserialize(packet_buffer)?;
        if packet.answers.len() != 1 || packet.authority.len() != 0 || packet.additional.len()
            != 0 {
            packet_buffer.seek(start);
            return Err(DeserializeError::InvalidAnswer);
        }
        let ghost whole = packet@;
        let record = packet.answers.pop().unwrap();
        let mut rdata = Vec::new();
        rdata.push(record.data);
        let answers = DnsAnswer::new(record.name, record.class, record.ttl, rdata);
        let r = DnsResponsePacket { header: packet.header, query: packet.questions, answers };
        proof {
            assert(r@.answers.rdata =~= seq![whole.answers[0].data]);
            assert(r@.packet().answers =~= whole.answers);
            assert(r@.packet().authority =~= whole.authority);
            assert(r@.packet().additional =~= whole.additional);
        }
        Ok(r)
    }

    /// Writes the response into a fresh buffer, as `DnsPacket::serialize`
    /// writes the message that the response is.
    pub fn serialize(&self) -> (r: Result<PacketBuffer, SerializeError>)
        ensures
            !self@.packet().counts_match() ==> r == Err::<PacketBuffer, SerializeError>(
                SerializeError::InvalidHeader,
            ),
            self@.packet().counts_match() && !self@.packet().question_fits() ==> r == Err::<
                PacketBuffer,
                SerializeError,
            >(SerializeError::InvalidQuestion),
            self@.packet().counts_match() && self@.packet().question_fits()
                && !self@.packet().records_fit() ==> r == Err::<PacketBuffer, SerializeError>(
                SerializeError::InvalidRecord,
            ),
            self@.packet().counts_match() && self@.packet().question_fits()
                && self@.packet().records_fit() ==> r is Ok && r->Ok_0.bytes()
                == crate::protocol::packet_buffer::written(
                Seq::new(512, |i: int| 0u8),
                0,
                self@.packet().wire(),
            ) && r->Ok_0.pos == self@.packet().wire().len(),
    {
        let packet = DnsPacket {
            header: self.header,
            questions: self.query.duplicate(),
            answers: self.answers.records(),
            authority: Vec::new(),
            additional: Vec::new(),
        };
        proof {
            assert(packet@.authority =~= Seq::empty());
            assert(packet@.additional =~= Seq::empty());
            assert(packet@ == self@.packet());
        }
        packet.serialize()
    }
}

} // verus!
