use vstd::prelude::*;

use crate::errors::{DeserializeError, SerializeError};
use crate::protocol::dns_header::{header_at, header_wire, DnsHeader, HEADER_SIZE};
use crate::protocol::dns_query::{
    names_fit, names_view, names_wire, query_at, query_wire, DnsQuery, DnsQueryView,
};
use crate::protocol::dns_record::{
    known_view, lemma_records_at_count, read_readable_records, read_records, readable_records_at,
    records_at, records_fit, records_view, records_wire, write_records, DnsRecord, RecordView,
};
use crate::protocol::packet_buffer::{lemma_written_concat, written, PacketBuffer, BUFFER_SIZE};

verus! {

/// A message: header, question, and the three sections of records.
#[derive(Debug, Clone)]
pub struct DnsPacket {
    pub header: DnsHeader,
    pub questions: DnsQuery,
    pub answers: Vec<DnsRecord>,
    pub authority: Vec<DnsRecord>,
    pub additional: Vec<DnsRecord>,
}

/// What a message holds.
pub struct PacketView {
    pub header: DnsHeader,
    pub questions: DnsQueryView,
    pub answers: Seq<RecordView>,
    pub authority: Seq<RecordView>,
    pub additional: Seq<RecordView>,
}

impl View for DnsPacket {
    type V = PacketView;

    open spec fn view(&self) -> PacketView {
        PacketView {
            header: self.header,
            questions: self.questions@,
            answers: records_view(self.answers@),
            authority: records_view(self.authority@),
            additional: records_view(self.additional@),
        }
    }
}

impl PacketView {
    /// The counts of the header are the numbers of names and of records
    /// that the message holds.
    pub open spec fn counts_match(self) -> bool {
        &&& self.header.question_count == self.questions.domain_names.len()
        &&& self.header.answer_count == self.answers.len()
        &&& self.header.nscount == self.authority.len()
        &&& self.header.arcount == self.additional.len()
    }

    /// The names of the question, each with the byte offset at which it
    /// stands in the message: the first one behind the header, and each
    /// other one behind the one before.
    pub open spec fn known_names(self) -> Seq<(Seq<char>, u16)> {
        question_names(self.questions.domain_names)
    }

    /// The bytes of the message on the wire: the header, the question,
    /// and the records of the answer, authority and additional sections.
    /// Where the name of a record is a name of the question, a pointer to
    /// that name stands in its place.
    pub open spec fn wire(self) -> Seq<u8> {
        header_wire(self.header) + query_wire(self.questions) + records_wire(
            self.answers,
            self.known_names(),
        ) + records_wire(self.authority, self.known_names()) + records_wire(
            self.additional,
            self.known_names(),
        )
    }

    /// The question can be written behind the header: no label of its names
    /// is too long, and it fits the buffer.
    pub open spec fn question_fits(self) -> bool {
        names_fit(self.questions.domain_names) && HEADER_SIZE + query_wire(self.questions).len()
            <= BUFFER_SIZE
    }

    /// The records can be written: no label of a name that is written out
    /// is too long, and the whole message fits the buffer.
    pub open spec fn records_fit(self) -> bool {
        records_fit(self.answers, self.known_names()) && records_fit(
            self.authority,
            self.known_names(),
        ) && records_fit(self.additional, self.known_names()) && self.wire().len() <= BUFFER_SIZE
    }
}

/// The byte offset at which the name of index `i` of a question stands in
/// a message: behind the header and the names before it.
pub open spec fn question_name_offset(names: Seq<Seq<char>>, i: int) -> int {
    HEADER_SIZE + names_wire(names.subrange(0, i)).len()
}

/// The names of a question, each with the byte offset at which it stands
/// in a message.
pub open spec fn question_names(names: Seq<Seq<char>>) -> Seq<(Seq<char>, u16)> {
    Seq::new(names.len(), |i: int| (names[i], question_name_offset(names, i) as u16))
}

/// The first names of a list take no more bytes than the whole list.
pub proof fn lemma_names_wire_grows(names: Seq<Seq<char>>, i: int)
    requires
        0 <= i <= names.len(),
    ensures
        names_wire(names.subrange(0, i)).len() <= names_wire(names).len(),
    decreases names.len() - i,
{
    if i < names.len() {
        lemma_names_wire_grows(names, i + 1);
        assert(names.subrange(0, i + 1).drop_last() =~= names.subrange(0, i));
    } else {
        assert(names.subrange(0, i) =~= names);
    }
}

/// The names of a question with the byte offsets at which they stand in a
/// message, where the question fits the buffer behind the header.
fn known_names(questions: &DnsQuery) -> (r: Vec<(String, u16)>)
    requires
        HEADER_SIZE + names_wire(questions@.domain_names).len() <= BUFFER_SIZE,
        names_fit(questions@.domain_names),
    ensures
        known_view(r@) == question_names(questions@.domain_names),
{
    let ghost names = questions@.domain_names;
    let mut known: Vec<(String, u16)> = Vec::new();
    let mut offset: usize = HEADER_SIZE;
    let mut i: usize = 0;
    proof {
        assert(names.subrange(0, 0) =~= Seq::<Seq<char>>::empty());
        assert(known_view(known@) =~= question_names(names).subrange(0, 0));
    }
    while i < questions.domain_names.len()
        invariant
            i <= questions.domain_names.len(),
            names == names_view(questions.domain_names@),
            names == questions@.domain_names,
            HEADER_SIZE + names_wire(names).len() <= BUFFER_SIZE,
            names_fit(names),
            offset == question_name_offset(names, i as int),
            known_view(known@) == question_names(names).subrange(0, i as int),
        decreases questions.domain_names.len() - i,
    {
        let ghost before = known_view(known@);
        let name = questions.domain_names[i].clone();
        proof {
            lemma_names_wire_grows(names, i as int);
            lemma_names_wire_grows(names, i + 1);
            assert(names.subrange(0, i + 1).drop_last() =~= names.subrange(0, i as int));
            assert(names.subrange(0, i + 1).last() == names[i as int]);
            crate::protocol::name_codec::lemma_encode_labels_len(
                vstd::utf8::encode_utf8(names[i as int]),
                0,
            );
        }
        let length = name.as_str().len();
        known.push((name, offset as u16));
        proof {
            assert(known_view(known@) =~= before.push(question_names(names)[i as int]));
            assert(question_names(names).subrange(0, i + 1) =~= question_names(names).subrange(
                0,
                i as int,
            ).push(question_names(names)[i as int]));
        }
        offset = offset + length + 2;
        i += 1;
    }
    proof {
        assert(question_names(names).subrange(0, names.len() as int) =~= question_names(names));
    }
    known
}

/// The message that stands in `buf` at `pos`, and the position behind it,
/// or the part of it that cannot be read. The sections hold as many
/// records as the header announces; only of the additional section the
/// records that cannot be read are left out, and the count of the header is
/// the number of those that are left.
pub open spec fn packet_at(buf: Seq<u8>, pos: int) -> Result<(PacketView, int), DeserializeError> {
    match header_at(buf, pos) {
        Err(_) => Err(DeserializeError::InvalidHeader),
        Ok(header) => match query_at(buf, pos + HEADER_SIZE, header.question_count as nat) {
            Err(_) => Err(DeserializeError::InvalidQuestion),
            Ok((questions, after_question)) => match records_at(
                buf,
                after_question,
                header.answer_count as nat,
            ) {
                Err(_) => Err(DeserializeError::InvalidRecord),
                Ok((answers, after_answers)) => match records_at(
                    buf,
                    after_answers,
                    header.nscount as nat,
                ) {
                    Err(_) => Err(DeserializeError::InvalidRecord),
                    Ok((authority, after_authority)) => {
                        let (additional, end, _) = readable_records_at(
                            buf,
                            after_authority,
                            header.arcount as nat,
                        );
                        Ok(
                            (
                                PacketView {
                                    header: DnsHeader {
                                        arcount: additional.len() as u16,
                                        ..header
                                    },
                                    questions,
                                    answers,
                                    authority,
                                    additional,
                                },
                                end,
                            ),
                        )
                    },
                },
            },
        },
    }
}

impl DnsPacket {
    /// Reads a message: the header, the question with as many names as the
    /// header counts, the answer and authority records, and those records
    /// of the additional section that can be read. The count of additional
    /// records in the header that is handed back is the number of records
    /// that were read. On failure the cursor stays where it was.
    pub fn deserialize(packet_buffer: &mut PacketBuffer) -> (r: Result<Self, DeserializeError>)
        ensures
            final(packet_buffer).buffer == old(packet_buffer).buffer,
            match packet_at(old(packet_buffer).bytes(), old(packet_buffer).pos as int) {
                Ok((packet, end)) => r is Ok && r->Ok_0@ == packet && final(packet_buffer).pos
                    == end,
                Err(e) => r == Err::<Self, DeserializeError>(e) && final(packet_buffer).pos
                    == old(packet_buffer).pos,
            },
            r is Ok ==> r->Ok_0@.counts_match(),
    {
        let start = packet_buffer.pos;
        let header = match DnsHeader::deserialize(packet_buffer) {
            Ok(header) => header,
            Err(_) => {
                return Err(DeserializeError::InvalidHeader);
            },
        };
        let questions = match DnsQuery::deserialize(packet_buffer, header.question_count) {
            Ok(questions) => questions,
            Err(_) => {
                packet_buffer.seek(start);
                return Err(DeserializeError::InvalidQuestion);
            },
        };
        let ghost answers_at = packet_buffer.pos as int;
        let answers = match read_records(packet_buffer, header.answer_count) {
            Ok(records) => records,
            Err(_) => {
                packet_buffer.seek(start);
                return Err(DeserializeError::InvalidRecord);
            },
        };
        let ghost authority_at = packet_buffer.pos as int;
        let authority = match read_records(packet_buffer, header.nscount) {
            Ok(records) => records,
            Err(_) => {
                packet_buffer.seek(start);
                return Err(DeserializeError::InvalidRecord);
            },
        };
        let additional = read_readable_records(packet_buffer, header.arcount);
        let header = DnsHeader {
            id: header.id,
            is_response: header.is_response,
            opcode: header.opcode,
            authoritative_answer: header.authoritative_answer,
            truncated_message: header.truncated_message,
            recursion_desired: header.recursion_desired,
            recursion_available: header.recursion_available,
            z: header.z,
            rcode: header.rcode,
            question_count: header.question_count,
            answer_count: header.answer_count,
            nscount: header.nscount,
            arcount: additional.len() as u16,
        };
        proof {
            crate::protocol::dns_query::lemma_names_at_count(
                old(packet_buffer).bytes(),
                start + HEADER_SIZE,
                header.question_count as nat,
            );
            lemma_records_at_count(
                packet_buffer.bytes(),
                answers_at,
                header.answer_count as nat,
            );
            lemma_records_at_count(packet_buffer.bytes(), authority_at, header.nscount as nat);
        }
        Ok(DnsPacket { header, questions, answers, authority, additional })
    }

    /// Writes the message into a fresh buffer: the header, the question,
    /// and the records of the three sections. The counts of the header have
    /// to be the numbers of names and of records that the message holds.
    pub fn serialize(&self) -> (r: Result<PacketBuffer, SerializeError>)
        ensures
            !self@.counts_match() ==> r == Err::<PacketBuffer, SerializeError>(
                SerializeError::InvalidHeader,
            ),
            self@.counts_match() && !self@.question_fits() ==> r == Err::<
                PacketBuffer,
                SerializeError,
            >(SerializeError::InvalidQuestion),
            self@.counts_match() && self@.question_fits() && !self@.records_fit() ==> r == Err::<
                PacketBuffer,
                SerializeError,
            >(SerializeError::InvalidRecord),
            self@.counts_match() && self@.question_fits() && self@.records_fit() ==> r is Ok
                && r->Ok_0.bytes() == written(Seq::new(512, |i: int| 0u8), 0, self@.wire())
                && r->Ok_0.pos == self@.wire().len(),
    {
        if self.header.question_count as usize != self.questions.domain_names.len()
            || self.header.answer_count as usize != self.answers.len()
            || self.header.nscount as usize != self.authority.len()
            || self.header.arcount as usize != self.additional.len() {
            return Err(SerializeError::InvalidHeader);
        }
        let mut packet_buffer = PacketBuffer::new([0u8; 512]);
        let ghost zeros = packet_buffer.bytes();
        proof {
            assert(zeros =~= Seq::new(512, |i: int| 0u8));
            assert(self@.questions.domain_names.len() == self.questions.domain_names@.len());
        }
        match self.header.serialize(&mut packet_buffer) {
            Ok(()) => {},
            Err(_) => {
                return Err(SerializeError::InvalidHeader);
            },
        }
        match self.questions.serialize(&mut packet_buffer) {
            Ok(()) => {},
            Err(_) => {
                return Err(SerializeError::InvalidQuestion);
            },
        }
        let known = known_names(&self.questions);
        let ghost a = header_wire(self.header);
        let ghost b = query_wire(self.questions@);
        let ghost c = records_wire(self@.answers, self@.known_names());
        let ghost d = records_wire(self@.authority, self@.known_names());
        let ghost e = records_wire(self@.additional, self@.known_names());
        proof {
            lemma_written_concat(zeros, 0, a, b);
        }
        match write_records(&mut packet_buffer, &self.answers, &known) {
            Ok(()) => {},
            Err(_) => {
                return Err(SerializeError::InvalidRecord);
            },
        }
        proof {
            lemma_written_concat(zeros, 0, a + b, c);
        }
        match write_records(&mut packet_buffer, &self.authority, &known) {
            Ok(()) => {},
            Err(_) => {
                return Err(SerializeError::InvalidRecord);
            },
        }
        proof {
            lemma_written_concat(zeros, 0, a + b + c, d);
        }
        match write_records(&mut packet_buffer, &self.additional, &known) {
            Ok(()) => {},
            Err(_) => {
                return Err(SerializeError::InvalidRecord);
            },
        }
        proof {
            lemma_written_concat(zeros, 0, a + b + c + d, e);
        }
        Ok(packet_buffer)
    }
}

} // verus!
