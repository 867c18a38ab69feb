//! What is written is read back: the laws that tie the writers of this
//! library to its readers.

use vstd::prelude::*;
use vstd::utf8::{encode_utf8, encode_utf8_decode_utf8, encode_utf8_valid_utf8, is_ascii_chars};

use crate::errors::{DeserializeError, PacketError};
use crate::protocol::dns_header::{
    header_at, header_is_plain, header_wire, lemma_header_roundtrip, DnsHeader, HEADER_SIZE,
};
use crate::protocol::dns_packet::{lemma_names_wire_grows, packet_at, question_names, PacketView};
use crate::protocol::dns_query::{
    lemma_query_roundtrip, names_are_plain, names_wire, query_at, query_wire, DnsQueryView,
};
use crate::protocol::dns_record::{
    known_offset, pointable, pointer_wire, readable_records_at, record_at, records_at,
    records_wire, RecordView,
};
use crate::protocol::dns_record_type::{data_at, name_at, name_bytes, RecordDataView};
use crate::protocol::name_codec::{
    is_pointer, lemma_ascii_chars_of_bytes, lemma_encode_labels_len, lemma_name_roundtrip,
    name_is_plain, pointer_target,
};
use crate::protocol::packet_buffer::{
    lemma_split_range, lemma_u16_read_back, lemma_u32_read_back, lemma_written_there, u16_at,
    u16_to_be, u32_to_be, written,
};

verus! {

/// A name that reads back as it was written: it is in ASCII and each of
/// its labels has between 1 and 63 bytes.
pub open spec fn plain_name(name: Seq<char>) -> bool {
    is_ascii_chars(name) && name_is_plain(encode_utf8(name))
}

/// The wire form of a plain name has two bytes more than the name has characters.
pub proof fn lemma_name_bytes_len(name: Seq<char>)
    requires
        is_ascii_chars(name),
    ensures
        name_bytes(name).len() == name.len() + 2,
{
    lemma_ascii_chars_of_bytes(name);
    lemma_encode_labels_len(encode_utf8(name), 0);
}

/// A plain name that stands in a buffer in wire form is read back as it is.
pub proof fn lemma_name_at_roundtrip(buf: Seq<u8>, pos: int, name: Seq<char>)
    requires
        plain_name(name),
        0 <= pos,
        pos + name_bytes(name).len() <= buf.len(),
        buf.subrange(pos, pos + name_bytes(name).len()) == name_bytes(name),
    ensures
        name_at(buf, pos) == Ok::<(Seq<char>, int), PacketError>(
            (name, pos + name_bytes(name).len()),
        ),
{
    lemma_name_bytes_len(name);
    lemma_name_roundtrip(buf, pos, name, 0);
}

impl RecordDataView {
    /// Data that reads back as it was written: its names are plain.
    pub open spec fn is_plain(self) -> bool {
        match self {
            RecordDataView::NS { name_server } => plain_name(name_server),
            RecordDataView::CNAME { canonical_name } => plain_name(canonical_name),
            RecordDataView::SOA { mname, rname, .. } => plain_name(mname) && plain_name(rname),
            RecordDataView::MX { exchange, .. } => plain_name(exchange),
            _ => true,
        }
    }
}

/// The length that is written in front of the data of a record is the
/// number of bytes of the data: 4 for an address of type A, 16 for one of
/// type AAAA, the number of bytes of the text for a text, and for a start
/// of authority the bytes of its two names and 20 bytes for its five numbers.
pub proof fn lemma_data_length(data: RecordDataView)
    requires
        data.wire().len() <= u16::MAX,
    ensures
        data.wire_with_length().len() == 2 + data.wire().len(),
        u16_at(data.wire_with_length(), 0) == data.wire().len(),
        data is A ==> data.wire().len() == 4,
        data is AAAA ==> data.wire().len() == 16,
        data is TXT ==> data.wire().len() == encode_utf8(data->text).len(),
        data is SOA ==> data.wire().len() == name_bytes(data->mname).len() + name_bytes(
            data->rname,
        ).len() + 20,
{
    let n = data.wire().len() as u16;
    let whole = data.wire_with_length();
    assert(whole.subrange(0, 2) =~= u16_to_be(n));
    lemma_u16_read_back(whole, 0, n);
}

/// Plain data that stands in a buffer in wire form is read back as it is,
/// where its type and its length are announced as they are.
pub proof fn lemma_data_roundtrip(buf: Seq<u8>, pos: int, data: RecordDataView)
    requires
        data.is_plain(),
        0 <= pos,
        pos + data.wire().len() <= buf.len(),
        data.wire().len() <= u16::MAX,
        buf.subrange(pos, pos + data.wire().len()) == data.wire(),
    ensures
        data_at(buf, pos, data.type_code(), data.wire().len() as u16) == Ok::<
            (RecordDataView, int),
            PacketError,
        >((data, pos + data.wire().len())),
{
    match data {
        RecordDataView::A { address } => {
            let here = buf.subrange(pos, pos + 4);
            assert(here[0] == buf[pos] && here[1] == buf[pos + 1] && here[2] == buf[pos + 2]
                && here[3] == buf[pos + 3]);
        },
        RecordDataView::NS { name_server } => {
            lemma_name_at_roundtrip(buf, pos, name_server);
        },
        RecordDataView::CNAME { canonical_name } => {
            lemma_name_at_roundtrip(buf, pos, canonical_name);
        },
        RecordDataView::SOA { .. } => {
            lemma_soa_roundtrip(buf, pos, data);
        },
        RecordDataView::MX { priority, exchange } => {
            let p = u16_to_be(priority);
            let x = name_bytes(exchange);
            lemma_split_range(buf, pos, p, x);
            lemma_u16_read_back(buf, pos, priority);
            lemma_name_at_roundtrip(buf, pos + 2, exchange);
        },
        RecordDataView::TXT { text } => {
            encode_utf8_valid_utf8(text);
            encode_utf8_decode_utf8(text);
        },
        RecordDataView::AAAA { .. } => {
            lemma_aaaa_roundtrip(buf, pos, data);
        },
    }
}

/// A start of authority with plain names that stands in a buffer in wire
/// form is read back as it is.
pub proof fn lemma_soa_roundtrip(buf: Seq<u8>, pos: int, data: RecordDataView)
    requires
        data is SOA,
        data.is_plain(),
        0 <= pos,
        pos + data.wire().len() <= buf.len(),
        buf.subrange(pos, pos + data.wire().len()) == data.wire(),
    ensures
        data_at(buf, pos, 6, data.wire().len() as u16) == Ok::<(RecordDataView, int), PacketError>(
            (data, pos + data.wire().len()),
        ),
{
    let m = name_bytes(data->mname);
    let r = name_bytes(data->rname);
    let s1 = u32_to_be(data->serial);
    let s2 = u32_to_be(data->refresh);
    let s3 = u32_to_be(data->retry);
    let s4 = u32_to_be(data->expire);
    let s5 = u32_to_be(data->minimum);
    assert(data.wire() == m + r + s1 + s2 + s3 + s4 + s5);
    lemma_split_range(buf, pos, m + r + s1 + s2 + s3 + s4, s5);
    lemma_split_range(buf, pos, m + r + s1 + s2 + s3, s4);
    lemma_split_range(buf, pos, m + r + s1 + s2, s3);
    lemma_split_range(buf, pos, m + r + s1, s2);
    lemma_split_range(buf, pos, m + r, s1);
    lemma_split_range(buf, pos, m, r);
    lemma_name_at_roundtrip(buf, pos, data->mname);
    lemma_name_at_roundtrip(buf, pos + m.len(), data->rname);
    let q = pos + m.len() + r.len();
    lemma_u32_read_back(buf, q, data->serial);
    lemma_u32_read_back(buf, q + 4, data->refresh);
    lemma_u32_read_back(buf, q + 8, data->retry);
    lemma_u32_read_back(buf, q + 12, data->expire);
    lemma_u32_read_back(buf, q + 16, data->minimum);
}

/// An address of eight segments that stands in a buffer in wire form is
/// read back as it is.
pub proof fn lemma_aaaa_roundtrip(buf: Seq<u8>, pos: int, data: RecordDataView)
    requires
        data is AAAA,
        0 <= pos,
        pos + data.wire().len() <= buf.len(),
        buf.subrange(pos, pos + data.wire().len()) == data.wire(),
    ensures
        data.wire().len() == 16,
        data_at(buf, pos, 28, 16) == Ok::<(RecordDataView, int), PacketError>((data, pos + 16)),
{
    let address = data->AAAA_address;
    let a = u16_to_be(address.a);
    let b = u16_to_be(address.b);
    let c = u16_to_be(address.c);
    let d = u16_to_be(address.d);
    let e = u16_to_be(address.e);
    let f = u16_to_be(address.f);
    let g = u16_to_be(address.g);
    let h = u16_to_be(address.h);
    lemma_split_range(buf, pos, a + b + c + d + e + f + g, h);
    lemma_split_range(buf, pos, a + b + c + d + e + f, g);
    lemma_split_range(buf, pos, a + b + c + d + e, f);
    lemma_split_range(buf, pos, a + b + c + d, e);
    lemma_split_range(buf, pos, a + b + c, d);
    lemma_split_range(buf, pos, a + b, c);
    lemma_split_range(buf, pos, a, b);
    lemma_u16_read_back(buf, pos, address.a);
    lemma_u16_read_back(buf, pos + 2, address.b);
    lemma_u16_read_back(buf, pos + 4, address.c);
    lemma_u16_read_back(buf, pos + 6, address.d);
    lemma_u16_read_back(buf, pos + 8, address.e);
    lemma_u16_read_back(buf, pos + 10, address.f);
    lemma_u16_read_back(buf, pos + 12, address.g);
    lemma_u16_read_back(buf, pos + 14, address.h);
}

impl RecordView {
    /// A record that reads back as it was written: its names are plain.
    pub open spec fn is_plain(self) -> bool {
        plain_name(self.name) && self.data.is_plain()
    }
}

/// The names in `known` stand in `buf` before `limit`: each one that a
/// pointer can reach is plain and stands in wire form at its offset.
#[verifier::opaque]
pub open spec fn known_names_stand(buf: Seq<u8>, known: Seq<(Seq<char>, u16)>, limit: int) -> bool {
    forall|i: int|
        0 <= i < known.len() && pointable((#[trigger] known[i]).1) ==> plain_name(known[i].0)
            && known[i].1 + name_bytes(known[i].0).len() <= limit && buf.subrange(
            known[i].1 as int,
            known[i].1 + name_bytes(known[i].0).len(),
        ) == name_bytes(known[i].0)
}

/// Names that stand before a limit stand before every later limit.
pub proof fn lemma_known_names_stand_later(
    buf: Seq<u8>,
    known: Seq<(Seq<char>, u16)>,
    limit: int,
    later: int,
)
    requires
        known_names_stand(buf, known, limit),
        limit <= later,
    ensures
        known_names_stand(buf, known, later),
{
    reveal(known_names_stand);
}

/// A known offset of a name is the offset of an entry with that name.
pub proof fn lemma_known_offset_found(
    known: Seq<(Seq<char>, u16)>,
    name: Seq<char>,
    from: int,
) -> (i: int)
    requires
        0 <= from,
        known_offset(known, name, from) is Some,
    ensures
        from <= i < known.len(),
        known[i].0 == name,
        pointable(known[i].1),
        known_offset(known, name, from) == Some(known[i].1),
    decreases known.len() - from,
{
    if known[from].0 == name && pointable(known[from].1) {
        from
    } else {
        lemma_known_offset_found(known, name, from + 1)
    }
}

/// The two bytes of a pointer are read as a pointer to its offset.
pub proof fn lemma_pointer_bytes(offset: u16)
    requires
        pointable(offset),
    ensures
        pointer_wire(offset).len() == 2,
        is_pointer(pointer_wire(offset)[0]),
        pointer_wire(offset)[0] != 0,
        pointer_target(pointer_wire(offset)[0], pointer_wire(offset)[1]) == offset,
{
    let hi = (0xC0u16 | (offset >> 8)) as u8;
    let lo = (offset & 0xff) as u8;
    assert(hi & 0xC0 == 0xC0 && hi != 0 && ((((hi as u16) << 8) | (lo as u16)) & 0x3FFF)
        == offset) by (bit_vector)
        requires
            offset < 0x4000,
            hi == (0xC0u16 | (offset >> 8)) as u8,
            lo == (offset & 0xff) as u8,
    ;
}

/// A pointer to a plain name that stands in the buffer before it is read
/// as that name, and the cursor ends behind the pointer.
pub proof fn lemma_pointer_roundtrip(buf: Seq<u8>, pos: int, name: Seq<char>, offset: u16)
    requires
        pointable(offset),
        plain_name(name),
        offset + name_bytes(name).len() <= pos,
        pos + 2 <= buf.len(),
        buf.subrange(pos, pos + 2) == pointer_wire(offset),
        buf.subrange(offset as int, offset + name_bytes(name).len()) == name_bytes(name),
    ensures
        name_at(buf, pos) == Ok::<(Seq<char>, int), PacketError>((name, pos + 2)),
{
    lemma_pointer_bytes(offset);
    assert(buf[pos] == pointer_wire(offset)[0]) by {
        assert(buf.subrange(pos, pos + 2)[0] == buf[pos]);
    }
    assert(buf[pos + 1] == pointer_wire(offset)[1]) by {
        assert(buf.subrange(pos, pos + 2)[1] == buf[pos + 1]);
    }
    lemma_name_bytes_len(name);
    lemma_name_roundtrip(buf, offset as int, name, 1);
}

/// A plain record that stands in a buffer in wire form is read back as it
/// is, also where a pointer to one of the names in `known` stands for its
/// name, if those names stand in the buffer before the record.
pub proof fn lemma_record_roundtrip(
    buf: Seq<u8>,
    pos: int,
    record: RecordView,
    known: Seq<(Seq<char>, u16)>,
)
    requires
        record.is_plain(),
        known_names_stand(buf, known, pos),
        0 <= pos,
        pos + record.wire_among(known).len() <= buf.len(),
        record.data.wire().len() <= u16::MAX,
        buf.subrange(pos, pos + record.wire_among(known).len()) == record.wire_among(known),
    ensures
        record_at(buf, pos) == Ok::<(RecordView, int), PacketError>(
            (record, pos + record.wire_among(known).len()),
        ),
{
    let n = record.name_wire_among(known);
    let t = u16_to_be(record.data.type_code());
    let c = u16_to_be(record.class.spec_code());
    let l = u32_to_be(record.ttl);
    let len = u16_to_be(record.data.wire().len() as u16);
    let d = record.data.wire();
    assert(record.wire_among(known) =~= n + t + c + l + len + d);
    lemma_split_range(buf, pos, n + t + c + l + len, d);
    lemma_split_range(buf, pos, n + t + c + l, len);
    lemma_split_range(buf, pos, n + t + c, l);
    lemma_split_range(buf, pos, n + t, c);
    lemma_split_range(buf, pos, n, t);
    match known_offset(known, record.name, 0) {
        Some(offset) => {
            reveal(known_names_stand);
            let i = lemma_known_offset_found(known, record.name, 0);
            lemma_pointer_bytes(offset);
            lemma_pointer_roundtrip(buf, pos, record.name, offset);
        },
        None => {
            lemma_name_at_roundtrip(buf, pos, record.name);
        },
    }
    let p = pos + n.len();
    lemma_u16_read_back(buf, p, record.data.type_code());
    lemma_u16_read_back(buf, p + 2, record.class.spec_code());
    lemma_u32_read_back(buf, p + 4, record.ttl);
    lemma_u16_read_back(buf, p + 8, record.data.wire().len() as u16);
    lemma_data_roundtrip(buf, p + 10, record.data);
}

/// Records that read back as they were written.
pub open spec fn plain_records(records: Seq<RecordView>) -> bool {
    forall|i: int|
        0 <= i < records.len() ==> (#[trigger] records[i]).is_plain()
            && records[i].data.wire().len() <= u16::MAX
}

/// Plain records that stand in a buffer in wire form, one behind the
/// other, are read back as they are, also where pointers to the names in
/// `known` stand for their names, if those names stand in the buffer
/// before the records.
pub proof fn lemma_records_roundtrip(
    buf: Seq<u8>,
    pos: int,
    records: Seq<RecordView>,
    known: Seq<(Seq<char>, u16)>,
)
    requires
        plain_records(records),
        known_names_stand(buf, known, pos),
        0 <= pos,
        pos + records_wire(records, known).len() <= buf.len(),
        buf.subrange(pos, pos + records_wire(records, known).len()) == records_wire(
            records,
            known,
        ),
    ensures
        records_at(buf, pos, records.len()) == Ok::<(Seq<RecordView>, int), PacketError>(
            (records, pos + records_wire(records, known).len()),
        ),
        readable_records_at(buf, pos, records.len()) == (
            records,
            pos + records_wire(records, known).len(),
            false,
        ),
    decreases records.len(),
{
    if records.len() == 0 {
        assert(records =~= Seq::<RecordView>::empty());
    } else {
        let init = records.drop_last();
        let last = records.last();
        lemma_split_range(buf, pos, records_wire(init, known), last.wire_among(known));
        assert forall|i: int| 0 <= i < init.len() implies (#[trigger] init[i]).is_plain()
            && init[i].data.wire().len() <= u16::MAX by {
            assert(init[i] == records[i]);
        }
        lemma_records_roundtrip(buf, pos, init, known);
        lemma_known_names_stand_later(buf, known, pos, pos + records_wire(init, known).len());
        lemma_record_roundtrip(buf, pos + records_wire(init, known).len(), last, known);
        assert(init.push(last) =~= records);
    }
}

/// The names of a question that stands in wire form behind a header at the
/// start of a buffer stand in the buffer at the offsets that are known for
/// them.
pub proof fn lemma_question_names_stand(buf: Seq<u8>, names: Seq<Seq<char>>)
    requires
        names_are_plain(names),
        HEADER_SIZE + names_wire(names).len() <= buf.len(),
        HEADER_SIZE + names_wire(names).len() <= 0x4000,
        buf.subrange(HEADER_SIZE as int, HEADER_SIZE + names_wire(names).len()) == names_wire(
            names,
        ),
    ensures
        known_names_stand(buf, question_names(names), HEADER_SIZE + names_wire(names).len()),
    decreases names.len(),
{
    reveal(known_names_stand);
    if names.len() > 0 {
        let init = names.drop_last();
        let last = names.last();
        lemma_split_range(buf, HEADER_SIZE as int, names_wire(init), name_bytes(last));
        assert forall|i: int| 0 <= i < init.len() implies is_ascii_chars(#[trigger] init[i])
            && name_is_plain(encode_utf8(init[i])) by {
            assert(init[i] == names[i]);
        }
        lemma_question_names_stand(buf, init);
        let known = question_names(names);
        let limit = HEADER_SIZE + names_wire(names).len();
        assert forall|i: int|
            0 <= i < known.len() && pointable((#[trigger] known[i]).1) implies plain_name(
            known[i].0,
        ) && known[i].1 + name_bytes(known[i].0).len() <= limit && buf.subrange(
            known[i].1 as int,
            known[i].1 + name_bytes(known[i].0).len(),
        ) == name_bytes(known[i].0) by {
            lemma_names_wire_grows(names, i);
            if i < init.len() {
                assert(names.subrange(0, i) =~= init.subrange(0, i));
                assert(known[i] == question_names(init)[i]);
            } else {
                assert(names.subrange(0, i) =~= init);
            }
        }
    }
}

impl PacketView {
    /// A message that reads back as it was written: the fields of its
    /// header fit their bits, its counts are the numbers of names and of
    /// records that it holds, and its names are plain.
    pub open spec fn is_plain(self) -> bool {
        &&& header_is_plain(self.header)
        &&& self.counts_match()
        &&& names_are_plain(self.questions.domain_names)
        &&& plain_records(self.answers)
        &&& plain_records(self.authority)
        &&& plain_records(self.additional)
    }
}

impl PacketView {
    /// Where the answer section starts on the wire.
    pub open spec fn answers_at(self) -> int {
        HEADER_SIZE + query_wire(self.questions).len()
    }

    /// Where the authority section starts on the wire.
    pub open spec fn authority_at(self) -> int {
        self.answers_at() + records_wire(self.answers, self.known_names()).len()
    }

    /// Where the additional section starts on the wire.
    pub open spec fn additional_at(self) -> int {
        self.authority_at() + records_wire(self.authority, self.known_names()).len()
    }
}

/// Where a message stands in wire form at the start of a buffer, each of
/// its parts stands in the buffer in wire form at its place.
pub proof fn lemma_packet_parts_stand(buf: Seq<u8>, packet: PacketView)
    requires
        packet.wire().len() <= buf.len(),
        buf.subrange(0, packet.wire().len() as int) == packet.wire(),
    ensures
        buf.subrange(0, 12) == header_wire(packet.header),
        buf.subrange(12, packet.answers_at()) == query_wire(packet.questions),
        buf.subrange(packet.answers_at(), packet.authority_at()) == records_wire(
            packet.answers,
            packet.known_names(),
        ),
        buf.subrange(packet.authority_at(), packet.additional_at()) == records_wire(
            packet.authority,
            packet.known_names(),
        ),
        buf.subrange(packet.additional_at(), packet.wire().len() as int) == records_wire(
            packet.additional,
            packet.known_names(),
        ),
        packet.wire().len() == packet.additional_at() + records_wire(
            packet.additional,
            packet.known_names(),
        ).len(),
        header_wire(packet.header).len() == 12,
{
    let known = packet.known_names();
    let h = header_wire(packet.header);
    let q = query_wire(packet.questions);
    let a = records_wire(packet.answers, known);
    let n = records_wire(packet.authority, known);
    let x = records_wire(packet.additional, known);
    lemma_split_range(buf, 0, h + q + a + n, x);
    lemma_split_range(buf, 0, h + q + a, n);
    lemma_split_range(buf, 0, h + q, a);
    lemma_split_range(buf, 0, h, q);
}

/// Where a plain question stands in wire form behind a header at the start
/// of a buffer, its names stand in the buffer at the offsets that are
/// known for them.
pub proof fn lemma_packet_names_stand(buf: Seq<u8>, packet: PacketView)
    requires
        names_are_plain(packet.questions.domain_names),
        packet.answers_at() <= buf.len(),
        packet.answers_at() <= 0x4000,
        buf.subrange(12, packet.answers_at()) == query_wire(packet.questions),
    ensures
        known_names_stand(buf, packet.known_names(), packet.answers_at()),
{
    let names = names_wire(packet.questions.domain_names);
    let rest = u16_to_be(packet.questions.qtype) + u16_to_be(packet.questions.qclass.spec_code());
    assert(query_wire(packet.questions) =~= names + rest);
    lemma_split_range(buf, 12, names, rest);
    lemma_question_names_stand(buf, packet.questions.domain_names);
    lemma_known_names_stand_later(
        buf,
        packet.known_names(),
        12int + names.len(),
        packet.answers_at(),
    );
}

/// A plain message that stands in wire form at the start of a buffer is
/// read back part by part.
pub proof fn lemma_packet_parts_roundtrip(buf: Seq<u8>, packet: PacketView)
    requires
        packet.is_plain(),
        packet.wire().len() <= buf.len(),
        packet.wire().len() <= 0x4000,
        buf.subrange(0, packet.wire().len() as int) == packet.wire(),
    ensures
        header_at(buf, 0) == Ok::<DnsHeader, PacketError>(packet.header),
        query_at(buf, 12, packet.questions.domain_names.len()) == Ok::<
            (DnsQueryView, int),
            PacketError,
        >((packet.questions, packet.answers_at())),
        records_at(buf, packet.answers_at(), packet.answers.len()) == Ok::<
            (Seq<RecordView>, int),
            PacketError,
        >((packet.answers, packet.authority_at())),
        records_at(buf, packet.authority_at(), packet.authority.len()) == Ok::<
            (Seq<RecordView>, int),
            PacketError,
        >((packet.authority, packet.additional_at())),
        readable_records_at(buf, packet.additional_at(), packet.additional.len()) == (
            packet.additional,
            packet.wire().len() as int,
            false,
        ),
{
    let known = packet.known_names();
    lemma_packet_parts_stand(buf, packet);
    lemma_header_roundtrip(buf, 0, packet.header);
    lemma_query_roundtrip(buf, 12, packet.questions);
    lemma_packet_names_stand(buf, packet);
    lemma_known_names_stand_later(buf, known, packet.answers_at(), packet.authority_at());
    lemma_known_names_stand_later(buf, known, packet.answers_at(), packet.additional_at());
    lemma_records_roundtrip(buf, packet.answers_at(), packet.answers, known);
    lemma_records_roundtrip(buf, packet.authority_at(), packet.authority, known);
    lemma_records_roundtrip(buf, packet.additional_at(), packet.additional, known);
}

/// A message whose parts are read one behind the other, and whose counts
/// are the numbers of its names and records, is read as a whole.
pub proof fn lemma_packet_from_parts(
    buf: Seq<u8>,
    packet: PacketView,
    after_question: int,
    after_answers: int,
    after_authority: int,
    end: int,
)
    requires
        packet.counts_match(),
        header_at(buf, 0) == Ok::<DnsHeader, PacketError>(packet.header),
        query_at(buf, 12, packet.questions.domain_names.len()) == Ok::<
            (DnsQueryView, int),
            PacketError,
        >((packet.questions, after_question)),
        records_at(buf, after_question, packet.answers.len()) == Ok::<
            (Seq<RecordView>, int),
            PacketError,
        >((packet.answers, after_answers)),
        records_at(buf, after_answers, packet.authority.len()) == Ok::<
            (Seq<RecordView>, int),
            PacketError,
        >((packet.authority, after_authority)),
        readable_records_at(buf, after_authority, packet.additional.len()) == (
            packet.additional,
            end,
            false,
        ),
    ensures
        packet_at(buf, 0) == Ok::<(PacketView, int), DeserializeError>((packet, end)),
{
}

/// A plain message that stands in wire form at the start of a buffer is
/// read back as it is.
pub proof fn lemma_packet_roundtrip(buf: Seq<u8>, packet: PacketView)
    requires
        packet.is_plain(),
        packet.wire().len() <= buf.len(),
        packet.wire().len() <= 0x4000,
        buf.subrange(0, packet.wire().len() as int) == packet.wire(),
    ensures
        packet_at(buf, 0) == Ok::<(PacketView, int), DeserializeError>(
            (packet, packet.wire().len() as int),
        ),
{
    lemma_packet_parts_roundtrip(buf, packet);
    lemma_packet_from_parts(
        buf,
        packet,
        packet.answers_at(),
        packet.authority_at(),
        packet.additional_at(),
        packet.wire().len() as int,
    );
}

/// A plain message that was written at the start of a buffer is read back
/// from it as it was, whatever the buffer held before.
pub proof fn lemma_written_packet_reads_back(buf: Seq<u8>, packet: PacketView)
    requires
        packet.is_plain(),
        packet.wire().len() <= buf.len(),
        packet.wire().len() <= 0x4000,
    ensures
        packet_at(written(buf, 0, packet.wire()), 0) == Ok::<(PacketView, int), DeserializeError>(
            (packet, packet.wire().len() as int),
        ),
{
    lemma_written_there(buf, 0, packet.wire());
    lemma_packet_roundtrip(written(buf, 0, packet.wire()), packet);
}

} // verus!
