//! What is read lies within the buffer: a reader that succeeds has ended
//! at or before the end of the buffer, so a field that the end of the
//! buffer cuts short makes its reader fail. And a pointer that does not
//! point back makes the reader of a name fail.

use vstd::prelude::*;

use crate::errors::PacketError;
use crate::protocol::dns_header::{header_at, HEADER_SIZE};
use crate::protocol::dns_packet::packet_at;
use crate::protocol::dns_query::{names_at, query_at};
use crate::protocol::dns_record::{readable_records_at, record_at, record_end, records_at};
use crate::protocol::dns_record_type::data_at;
use crate::protocol::name_codec::{is_pointer, name_end, name_labels, pointer_target, MAX_JUMPS};

verus! {

/// A name whose first byte is a pointer that names its own position or a
/// later one is not read, however many pointers were followed before.
pub proof fn lemma_pointer_has_to_point_back(buf: Seq<u8>, pos: int, jumps: int)
    requires
        0 <= pos < buf.len(),
        is_pointer(buf[pos]),
        pos + 1 < buf.len() ==> pointer_target(buf[pos], buf[pos + 1]) >= pos,
    ensures
        name_labels(buf, pos, jumps) is Err,
        pos + 1 < buf.len() && pointer_target(buf[pos], buf[pos + 1]) < buf.len() ==> name_labels(
            buf,
            pos,
            jumps,
        ) == Err::<Seq<Seq<u8>>, PacketError>(PacketError::PointerCycle),
{
    assert(buf[pos] != 0) by {
        let b = buf[pos];
        assert(b & 0xC0 == 0xC0 ==> b != 0) by (bit_vector);
    }
}

/// A name that is reached after as many pointers as a name may follow
/// must not start with another pointer.
pub proof fn lemma_pointers_are_counted(buf: Seq<u8>, pos: int)
    requires
        0 <= pos < buf.len(),
        is_pointer(buf[pos]),
    ensures
        name_labels(buf, pos, MAX_JUMPS as int) is Err,
{
    assert(buf[pos] != 0) by {
        let b = buf[pos];
        assert(b & 0xC0 == 0xC0 ==> b != 0) by (bit_vector);
    }
}

/// A name that is read starts within the buffer, and what follows it
/// starts at or before the end of the buffer.
pub proof fn lemma_name_in_bounds(buf: Seq<u8>, pos: int, jumps: int)
    requires
        name_labels(buf, pos, jumps) is Ok,
    ensures
        0 <= pos < name_end(buf, pos) <= buf.len(),
    decreases buf.len() - pos,
{
    if buf[pos] != 0 && !is_pointer(buf[pos]) {
        lemma_name_in_bounds(buf, pos + 1 + buf[pos], jumps);
    }
}

/// Data that is read lies within the buffer.
pub proof fn lemma_data_in_bounds(buf: Seq<u8>, pos: int, type_id: u16, rdlength: u16)
    requires
        data_at(buf, pos, type_id, rdlength) is Ok,
    ensures
        0 <= pos <= data_at(buf, pos, type_id, rdlength)->Ok_0.1 <= buf.len(),
{
    if type_id == 2 || type_id == 5 {
        lemma_name_in_bounds(buf, pos, 0);
    } else if type_id == 6 {
        lemma_name_in_bounds(buf, pos, 0);
        lemma_name_in_bounds(buf, name_end(buf, pos), 0);
    } else if type_id == 15 {
        lemma_name_in_bounds(buf, pos + 2, 0);
    }
}

/// A record that is read lies within the buffer.
pub proof fn lemma_record_in_bounds(buf: Seq<u8>, pos: int)
    requires
        record_at(buf, pos) is Ok,
    ensures
        0 <= pos < record_at(buf, pos)->Ok_0.1 <= buf.len(),
{
    lemma_name_in_bounds(buf, pos, 0);
    let p = name_end(buf, pos);
    lemma_data_in_bounds(
        buf,
        p + 10,
        crate::protocol::packet_buffer::u16_at(buf, p),
        crate::protocol::packet_buffer::u16_at(buf, p + 8),
    );
}

/// Records that are read lie within the buffer.
pub proof fn lemma_records_in_bounds(buf: Seq<u8>, pos: int, count: nat)
    requires
        0 <= pos <= buf.len(),
        records_at(buf, pos, count) is Ok,
    ensures
        pos <= records_at(buf, pos, count)->Ok_0.1 <= buf.len(),
    decreases count,
{
    if count > 0 {
        lemma_records_in_bounds(buf, pos, (count - 1) as nat);
        lemma_record_in_bounds(buf, records_at(buf, pos, (count - 1) as nat)->Ok_0.1);
    }
}

/// Records that are read or passed over lie within the buffer.
pub proof fn lemma_readable_records_in_bounds(buf: Seq<u8>, pos: int, count: nat)
    requires
        0 <= pos <= buf.len(),
    ensures
        pos <= readable_records_at(buf, pos, count).1 <= buf.len(),
    decreases count,
{
    if count > 0 {
        lemma_readable_records_in_bounds(buf, pos, (count - 1) as nat);
        let (records, p, stopped) = readable_records_at(buf, pos, (count - 1) as nat);
        if !stopped {
            if record_at(buf, p) is Ok {
                lemma_record_in_bounds(buf, p);
            } else if record_end(buf, p) is Ok {
                lemma_name_in_bounds(buf, p, 0);
            }
        }
    }
}

/// Names that are read lie within the buffer.
pub proof fn lemma_names_in_bounds(buf: Seq<u8>, pos: int, count: nat)
    requires
        0 <= pos <= buf.len(),
        names_at(buf, pos, count) is Ok,
    ensures
        pos <= names_at(buf, pos, count)->Ok_0.1 <= buf.len(),
    decreases count,
{
    if count > 0 {
        lemma_names_in_bounds(buf, pos, (count - 1) as nat);
        lemma_name_in_bounds(buf, names_at(buf, pos, (count - 1) as nat)->Ok_0.1, 0);
    }
}

/// A message that is read lies within the buffer: a message whose header,
/// question, answers or authority records the end of the buffer cuts short
/// is not read.
pub proof fn lemma_packet_in_bounds(buf: Seq<u8>, pos: int)
    requires
        packet_at(buf, pos) is Ok,
    ensures
        0 <= pos,
        pos + HEADER_SIZE <= packet_at(buf, pos)->Ok_0.1 <= buf.len(),
{
    let header = header_at(buf, pos)->Ok_0;
    lemma_names_in_bounds(buf, pos + HEADER_SIZE, header.question_count as nat);
    let after_question = query_at(buf, pos + HEADER_SIZE, header.question_count as nat)->Ok_0.1;
    lemma_records_in_bounds(buf, after_question, header.answer_count as nat);
    let after_answers = records_at(buf, after_question, header.answer_count as nat)->Ok_0.1;
    lemma_records_in_bounds(buf, after_answers, header.nscount as nat);
    let after_authority = records_at(buf, after_answers, header.nscount as nat)->Ok_0.1;
    lemma_readable_records_in_bounds(buf, after_authority, header.arcount as nat);
}

} // verus!
