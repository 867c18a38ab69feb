use vstd::prelude::*;

use crate::address::Ipv4Addr;
use crate::errors::PacketError;
use crate::protocol::dns_query::{DnsQuery, DnsQueryView};
use crate::protocol::dns_record::{
    known_view, record_at, records_fit, records_view, records_wire, write_records, DnsRecord,
    RecordView,
};
use crate::protocol::dns_record_type::{Class, DnsRecordType, RecordDataView};
use crate::protocol::packet_buffer::{written, PacketBuffer, BUFFER_SIZE};

verus! {

/// The answer to a question: the records of one name, which share their
/// class and the time they may be kept, and differ in their data.
#[derive(Debug, Clone, PartialEq, Eq)]
pub struct DnsAnswer {
    record: String,
    response_class: Class,
    ttl: u32,
    rdata: Vec<DnsRecordType>,
}

/// What an answer holds.
pub struct AnswerView {
    pub record: Seq<char>,
    pub response_class: Class,
    pub ttl: u32,
    pub rdata: Seq<RecordDataView>,
}

/// What a list of record data holds.
pub open spec fn rdata_view(rdata: Seq<DnsRecordType>) -> Seq<RecordDataView> {
    Seq::new(rdata.len(), |i: int| rdata[i]@)
}

impl View for DnsAnswer {
    type V = AnswerView;

    closed spec fn view(&self) -> AnswerView {
        AnswerView {
            record: self.record@,
            response_class: self.response_class,
            ttl: self.ttl,
            rdata: rdata_view(self.rdata@),
        }
    }
}

impl AnswerView {
    /// The bytes of the answer on the wire: its records, one behind the
    /// other, with their names written out.
    pub open spec fn wire(self) -> Seq<u8> {
        records_wire(self.records(), Seq::empty())
    }

    /// Whether the answer can be written into a buffer at `pos`, and why
    /// not where it cannot: it has to hold data, no label of its names may
    /// be longer than 63 bytes, and it has to fit.
    pub open spec fn write_result(self, pos: int) -> Result<(), PacketError> {
        if self.rdata.len() == 0 {
            Err(PacketError::NoRecordData)
        } else if !records_fit(self.records(), Seq::empty()) {
            Err(PacketError::LabelTooLong)
        } else if pos + self.wire().len() > BUFFER_SIZE {
            Err(PacketError::BufferOverrun)
        } else {
            Ok(())
        }
    }

    /// The records of the answer: one for each of its data, all with the
    /// name, the class and the time to live of the answer.
    pub open spec fn records(self) -> Seq<RecordView> {
        Seq::new(
            self.rdata.len(),
            |i: int|
                RecordView {
                    name: self.record,
                    class: self.response_class,
                    ttl: self.ttl,
                    data: self.rdata[i],
                },
        )
    }
}

/// The time, in seconds, that the fixed answer of this server may be kept.
pub const STATIC_TTL: u32 = 60;

/// The address that this server answers with where it answers by itself.
pub open spec fn static_address() -> Ipv4Addr {
    Ipv4Addr { a: 192, b: 168, c: 1, d: 1 }
}

/// The fixed answer to a question: for a question of type A the address
/// `static_address()`, under the first name of the question; no data for
/// a question of another type or without a name.
pub open spec fn static_answer(question: DnsQueryView, ttl: u32) -> AnswerView {
    AnswerView {
        record: if question.domain_names.len() > 0 {
            question.domain_names[0]
        } else {
            Seq::empty()
        },
        response_class: question.qclass,
        ttl,
        rdata: if question.qtype == 1 && question.domain_names.len() > 0 {
            seq![RecordDataView::A { address: static_address() }]
        } else {
            Seq::empty()
        },
    }
}

impl DnsAnswer {
    /// The fixed answer to a question: for a question of type A one
    /// address, 192.168.1.1, under the first name of the question; no data
    /// for a question of another type or without a name.
    pub fn from_query(question: &DnsQuery, ttl: u32) -> (r: Self)
        ensures
            r@ == static_answer(question@, ttl),
    {
        let mut rdata: Vec<DnsRecordType> = Vec::new();
        let record = if question.domain_names.len() > 0 {
            if question.qtype == 1 {
                rdata.push(DnsRecordType::A { address: Ipv4Addr::new(192, 168, 1, 1) });
            }
            question.domain_names[0].clone()
        } else {
            String::new()
        };
        proof {
            assert(rdata_view(rdata@) =~= static_answer(question@, ttl).rdata);
        }
        DnsAnswer { record, response_class: question.qclass, ttl, rdata }
    }

    /// The answer with these records for this name.
    pub fn new(record: String, response_class: Class, ttl: u32, rdata: Vec<DnsRecordType>) -> (r:
        Self)
        ensures
            r@ == (AnswerView { record: record@, response_class, ttl, rdata: rdata_view(rdata@) }),
    {
        DnsAnswer { record, response_class, ttl, rdata }
    }

    /// The name that the records belong to.
    pub fn record(&self) -> (r: &String)
        ensures
            r@ == self@.record,
    {
        &self.record
    }

    /// The class of the records.
    pub fn response_class(&self) -> (r: Class)
        ensures
            r == self@.response_class,
    {
        self.response_class
    }

    /// How long the records may be kept, in seconds.
    pub fn ttl(&self) -> (r: u32)
        ensures
            r == self@.ttl,
    {
        self.ttl
    }

    /// The data of the records.
    pub fn rdata(&self) -> (r: &Vec<DnsRecordType>)
        ensures
            rdata_view(r@) == self@.rdata,
    {
        &self.rdata
    }

    /// The record of index `i`.
    pub fn record_at(&self, i: usize) -> (r: DnsRecord)
        requires
            i < self@.rdata.len(),
        ensures
            r@ == self@.records()[i as int],
    {
        DnsRecord {
            name: self.record.clone(),
            class: self.response_class,
            ttl: self.ttl,
            data: self.rdata[i].duplicate(),
        }
    }

    /// The records of the answer: one for each of its data.
    pub fn records(&self) -> (r: Vec<DnsRecord>)
        ensures
            records_view(r@) == self@.records(),
    {
        let mut records: Vec<DnsRecord> = Vec::new();
        let mut i: usize = 0;
        while i < self.rdata.len()
            invariant
                i <= self.rdata.len(),
                records_view(records@) == self@.records().subrange(
                    0,
                    i as int,
                ),
            decreases self.rdata.len() - i,
        {
            let ghost before = records_view(records@);
            let record = self.record_at(i);
            records.push(record);
            proof {
                assert(records_view(records@) =~= before.push(
                    self@.records()[i as int],
                ));
                assert(self@.records().subrange(0, i + 1) =~= self@.records().subrange(
                    0,
                    i as int,
                ).push(self@.records()[i as int]));
            }
            i += 1;
        }
        proof {
            assert(self@.records().subrange(0, self@.records().len() as int) =~= self@.records());
        }
        records
    }

    /// Reads one record as an answer with that record's data. On failure
    /// the cursor stays where it was.
    pub fn deserialize(packet_buffer: &mut PacketBuffer) -> (r: Result<Self, PacketError>)
        ensures
            final(packet_buffer).buffer == old(packet_buffer).buffer,
            match record_at(old(packet_buffer).bytes(), old(packet_buffer).pos as int) {
                Ok((record, end)) => r is Ok && r->Ok_0@ == (AnswerView {
                    record: record.name,
                    response_class: record.class,
                    ttl: record.ttl,
                    rdata: seq![record.data],
                }) && final(packet_buffer).pos == end,
                Err(e) => r == Err::<Self, PacketError>(e) && final(packet_buffer).pos
                    == old(packet_buffer).pos,
            },
    {
        let record = DnsRecord::deserialize(packet_buffer)?;
        let mut rdata: Vec<DnsRecordType> = Vec::new();
        let ghost data = record.data@;
        rdata.push(record.data);
        proof {
            assert(rdata_view(rdata@) =~= seq![data]);
        }
        Ok(DnsAnswer { record: record.name, response_class: record.class, ttl: record.ttl, rdata })
    }

    /// Writes the records of the answer one behind the other. An answer
    /// without data is refused, and so is a label of more than 63 bytes;
    /// where the answer is refused or does not fit, nothing is written.
    pub fn serialize(&self, packet_buffer: &mut PacketBuffer) -> (r: Result<(), PacketError>)
        ensures
            r == self@.write_result(old(packet_buffer).pos as int),
            r is Err ==> *final(packet_buffer) == *old(packet_buffer),
            r is Ok ==> final(packet_buffer).bytes() == written(
                old(packet_buffer).bytes(),
                old(packet_buffer).pos as int,
                self@.wire(),
            ) && final(packet_buffer).pos == old(packet_buffer).pos + self@.wire().len(),
    {
        if self.rdata.len() == 0 {
            return Err(PacketError::NoRecordData);
        }
        let records = self.records();
        let known: Vec<(String, u16)> = Vec::new();
        proof {
            assert(known_view(known@) =~= Seq::empty());
        }
        write_records(packet_buffer, &records, &known)
    }
}

} // verus!
