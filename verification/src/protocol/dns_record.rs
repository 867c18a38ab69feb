use vstd::prelude::*;

use crate::errors::PacketError;
pub use crate::protocol::dns_record_type::Class;
use crate::protocol::dns_record_type::{
    data_at, name_at, name_bytes, name_fits, push_name, push_u16, push_u32, write_with_length,
    DnsRecordType, RecordDataView,
};
use crate::protocol::packet_buffer::{
    lemma_written_concat, u16_at, u16_to_be, u32_at, u32_to_be, written, PacketBuffer, BUFFER_SIZE,
};

verus! {

/// A resource record: the name it belongs to, its class, how long it may
/// be kept, and its data. The type code on the wire is that of the data.
#[derive(Debug, Clone, PartialEq, Eq)]
pub struct DnsRecord {
    pub name: String,
    pub class: Class,
    pub ttl: u32,
    pub data: DnsRecordType,
}

/// What a resource record holds.
pub struct RecordView {
    pub name: Seq<char>,
    pub class: Class,
    pub ttl: u32,
    pub data: RecordDataView,
}

impl View for DnsRecord {
    type V = RecordView;

    open spec fn view(&self) -> RecordView {
        RecordView { name: self.name@, class: self.class, ttl: self.ttl, data: self.data@ }
    }
}

/// The two bytes of a compression pointer to the byte offset `offset`,
/// which has to be below 16384: two set bits and the offset in 14 bits.
pub open spec fn pointer_wire(offset: u16) -> Seq<u8> {
    seq![(0xC0u16 | (offset >> 8)) as u8, (offset & 0xff) as u8]
}

/// The offsets that a compression pointer can hold.
pub open spec fn pointable(offset: u16) -> bool {
    offset < 0x4000
}

/// Where in the message `name` stands already, by a list of the names
/// that do, each with its byte offset: the offset of the first entry from
/// the index `from` on that holds the name and an offset that a pointer
/// can hold.
pub open spec fn known_offset(known: Seq<(Seq<char>, u16)>, name: Seq<char>, from: int) -> Option<
    u16,
>
    decreases known.len() - from,
{
    if from < 0 || from >= known.len() {
        None
    } else if known[from].0 == name && pointable(known[from].1) {
        Some(known[from].1)
    } else {
        known_offset(known, name, from + 1)
    }
}

/// What a list of names with their offsets holds.
pub open spec fn known_view(known: Seq<(String, u16)>) -> Seq<(Seq<char>, u16)> {
    Seq::new(known.len(), |i: int| (known[i].0@, known[i].1))
}

impl RecordView {
    /// No label of a name in the record is longer than the wire format allows.
    pub open spec fn fits(self) -> bool {
        name_fits(self.name) && self.data.fits()
    }

    /// No label of a name that is written out is longer than the wire
    /// format allows, where the names in `known` are written as pointers.
    pub open spec fn fits_among(self, known: Seq<(Seq<char>, u16)>) -> bool {
        (known_offset(known, self.name, 0) is Some || name_fits(self.name)) && self.data.fits()
    }

    /// The name of the record on the wire where the names in `known` stand
    /// in the message already: a pointer to the name where it is one of
    /// them, and else the name written out.
    pub open spec fn name_wire_among(self, known: Seq<(Seq<char>, u16)>) -> Seq<u8> {
        match known_offset(known, self.name, 0) {
            Some(offset) => pointer_wire(offset),
            None => name_bytes(self.name),
        }
    }

    /// The bytes of the record on the wire where the names in `known` stand
    /// in the message already: as `wire`, but with a pointer for the name
    /// of the record where it is one of them.
    pub open spec fn wire_among(self, known: Seq<(Seq<char>, u16)>) -> Seq<u8> {
        self.name_wire_among(known) + u16_to_be(self.data.type_code()) + u16_to_be(
            self.class.spec_code(),
        ) + u32_to_be(self.ttl) + self.data.wire_with_length()
    }

    /// The bytes of the record up to its data: name, type, class, time to live.
    pub open spec fn head_wire(self) -> Seq<u8> {
        name_bytes(self.name) + u16_to_be(self.data.type_code()) + u16_to_be(
            self.class.spec_code(),
        ) + u32_to_be(self.ttl)
    }

    /// The bytes of the record on the wire: name, type, class, time to
    /// live, the length of the data, and the data.
    pub open spec fn wire(self) -> Seq<u8> {
        self.head_wire() + self.data.wire_with_length()
    }
}

/// The record that stands in `buf` at `pos`, and the position behind it,
/// or the reason why there is none.
pub open spec fn record_at(buf: Seq<u8>, pos: int) -> Result<(RecordView, int), PacketError> {
    match name_at(buf, pos) {
        Err(e) => Err(e),
        Ok((name, p)) => if p < 0 || p + 10 > buf.len() {
            Err(PacketError::BufferUnderrun)
        } else {
            match Class::spec_from_u16(u16_at(buf, p + 2)) {
                Err(e) => Err(e),
                Ok(class) => match data_at(buf, p + 10, u16_at(buf, p), u16_at(buf, p + 8)) {
                    Err(e) => Err(e),
                    Ok((data, end)) => Ok(
                        (RecordView { name, class, ttl: u32_at(buf, p + 4), data }, end),
                    ),
                },
            }
        },
    }
}

/// The position behind the record that stands in `buf` at `pos`, whatever
/// its type and class: behind its name, the ten bytes of type, class, time
/// to live and length, and as many bytes as the length announces; or the
/// reason why there is no such position.
pub open spec fn record_end(buf: Seq<u8>, pos: int) -> Result<int, PacketError> {
    match name_at(buf, pos) {
        Err(e) => Err(e),
        Ok((name, p)) => if p < 0 || p + 10 + u16_at(buf, p + 8) > buf.len() {
            Err(PacketError::BufferUnderrun)
        } else {
            Ok(p + 10 + u16_at(buf, p + 8))
        },
    }
}

/// The `count` records that stand in `buf` one behind the other from `pos`
/// on, with the position behind the last, or the reason why the first
/// record that cannot be read cannot be read.
pub open spec fn records_at(buf: Seq<u8>, pos: int, count: nat) -> Result<
    (Seq<RecordView>, int),
    PacketError,
>
    decreases count,
{
    if count == 0 {
        Ok((Seq::empty(), pos))
    } else {
        match records_at(buf, pos, (count - 1) as nat) {
            Err(e) => Err(e),
            Ok((records, p)) => match record_at(buf, p) {
                Err(e) => Err(e),
                Ok((record, end)) => Ok((records.push(record), end)),
            },
        }
    }
}

/// Of `count` records that are announced from `pos` on, those that can be
/// read, with the position behind the last record that was read or passed
/// over, and whether reading had to stop. A record that cannot be read is
/// passed over by its announced length; where not even that can be done,
/// reading stops and what follows is left alone.
pub open spec fn readable_records_at(buf: Seq<u8>, pos: int, count: nat) -> (
    Seq<RecordView>,
    int,
    bool,
)
    decreases count,
{
    if count == 0 {
        (Seq::empty(), pos, false)
    } else {
        let (records, p, stopped) = readable_records_at(buf, pos, (count - 1) as nat);
        if stopped {
            (records, p, true)
        } else {
            match record_at(buf, p) {
                Ok((record, end)) => (records.push(record), end, false),
                Err(_) => match record_end(buf, p) {
                    Ok(end) => (records, end, false),
                    Err(_) => (records, p, true),
                },
            }
        }
    }
}

/// What a list of records holds.
pub open spec fn records_view(records: Seq<DnsRecord>) -> Seq<RecordView> {
    Seq::new(records.len(), |i: int| records[i]@)
}

/// The wire forms of the records, one behind the other, where the names
/// in `known` stand in the message already.
pub open spec fn records_wire(records: Seq<RecordView>, known: Seq<(Seq<char>, u16)>) -> Seq<u8>
    decreases records.len(),
{
    if records.len() == 0 {
        Seq::empty()
    } else {
        records_wire(records.drop_last(), known) + records.last().wire_among(known)
    }
}

/// No label of any name that is written out is longer than the wire format
/// allows, where the names in `known` are written as pointers.
pub open spec fn records_fit(records: Seq<RecordView>, known: Seq<(Seq<char>, u16)>) -> bool {
    forall|i: int| 0 <= i < records.len() ==> (#[trigger] records[i]).fits_among(known)
}

/// Once a record cannot be read, no longer list of records can be read.
pub proof fn lemma_records_at_error(buf: Seq<u8>, pos: int, count: nat, more: nat)
    requires
        records_at(buf, pos, count) is Err,
        count <= more,
    ensures
        records_at(buf, pos, more) == records_at(buf, pos, count),
    decreases more,
{
    if count < more {
        lemma_records_at_error(buf, pos, count, (more - 1) as nat);
    }
}

/// Once reading has stopped, announcing more records changes nothing.
pub proof fn lemma_readable_records_stopped(buf: Seq<u8>, pos: int, count: nat, more: nat)
    requires
        readable_records_at(buf, pos, count).2,
        count <= more,
    ensures
        readable_records_at(buf, pos, more) == readable_records_at(buf, pos, count),
    decreases more,
{
    if count < more {
        lemma_readable_records_stopped(buf, pos, count, (more - 1) as nat);
    }
}

impl DnsRecord {
    /// The type code that stands for the record's data on the wire.
    pub fn get_type(&self) -> (r: u16)
        ensures
            r == self@.data.type_code(),
    {
        self.data.get_type()
    }

    /// Reads a record. On failure the cursor is left where reading stopped.
    fn read(packet_buffer: &mut PacketBuffer) -> (r: Result<Self, PacketError>)
        ensures
            final(packet_buffer).buffer == old(packet_buffer).buffer,
            match record_at(old(packet_buffer).bytes(), old(packet_buffer).pos as int) {
                Ok((record, end)) => r is Ok && r->Ok_0@ == record && final(packet_buffer).pos
                    == end,
                Err(e) => r == Err::<Self, PacketError>(e),
            },
    {
        let name = packet_buffer.read_qname()?;
        if packet_buffer.pos > BUFFER_SIZE - 10 {
            return Err(PacketError::BufferUnderrun);
        }
        let type_id = packet_buffer.read_u16()?;
        let class = Class::deserialize(packet_buffer)?;
        let ttl = packet_buffer.read_u32()?;
        let rdlength = packet_buffer.read_u16()?;
        let data = DnsRecordType::deserialize(packet_buffer, type_id, rdlength)?;
        Ok(DnsRecord { name, class, ttl, data })
    }

    /// Reads a record: name, type, class, time to live, length of the
    /// data, and the data that the type announces. On failure the cursor
    /// stays where it was.
    pub fn deserialize(packet_buffer: &mut PacketBuffer) -> (r: Result<Self, PacketError>)
        ensures
            final(packet_buffer).buffer == old(packet_buffer).buffer,
            match record_at(old(packet_buffer).bytes(), old(packet_buffer).pos as int) {
                Ok((record, end)) => r is Ok && r->Ok_0@ == record && final(packet_buffer).pos
                    == end,
                Err(e) => r == Err::<Self, PacketError>(e) && final(packet_buffer).pos
                    == old(packet_buffer).pos,
            },
    {
        let start = packet_buffer.pos;
        match Self::read(packet_buffer) {
            Ok(record) => Ok(record),
            Err(e) => {
                packet_buffer.seek(start);
                Err(e)
            },
        }
    }

    /// Moves the cursor behind the record under it, whatever its type and
    /// class: by its name, ten bytes, and the length that they announce.
    /// On failure the cursor stays where it was.
    pub fn skip(packet_buffer: &mut PacketBuffer) -> (r: Result<(), PacketError>)
        ensures
            final(packet_buffer).buffer == old(packet_buffer).buffer,
            match record_end(old(packet_buffer).bytes(), old(packet_buffer).pos as int) {
                Ok(end) => r is Ok && final(packet_buffer).pos == end,
                Err(e) => r == Err::<(), PacketError>(e) && final(packet_buffer).pos
                    == old(packet_buffer).pos,
            },
    {
        let start = packet_buffer.pos;
        let name = packet_buffer.read_qname()?;
        let after_name = packet_buffer.pos;
        if after_name > BUFFER_SIZE - 10 {
            packet_buffer.seek(start);
            return Err(PacketError::BufferUnderrun);
        }
        packet_buffer.seek(after_name + 8);
        let rdlength = packet_buffer.read_u16()?;
        if rdlength as usize > BUFFER_SIZE - 10 - after_name {
            packet_buffer.seek(start);
            return Err(PacketError::BufferUnderrun);
        }
        packet_buffer.seek(after_name + 10 + rdlength as usize);
        Ok(())
    }

    /// Whether no label of a name that is written out is longer than the
    /// wire format allows, where the names in `known` are written as
    /// pointers.
    pub fn fits_among(&self, known: &Vec<(String, u16)>) -> (r: bool)
        ensures
            r == self@.fits_among(known_view(known@)),
    {
        self.head(known).is_ok() && self.data.rdata().is_ok()
    }

    /// Whether no label of a name in the record is longer than the wire
    /// format allows.
    pub fn fits(&self) -> (r: bool)
        ensures
            r == self@.fits(),
    {
        let known: Vec<(String, u16)> = Vec::new();
        proof {
            assert(known_view(known@) =~= Seq::empty());
        }
        self.head(&known).is_ok() && self.data.rdata().is_ok()
    }

    /// Where in the message the name of the record stands already, by a
    /// list of the names that do.
    fn find_known(&self, known: &Vec<(String, u16)>) -> (r: Option<u16>)
        ensures
            r == known_offset(known_view(known@), self@.name, 0),
    {
        let mut i: usize = 0;
        while i < known.len()
            invariant
                i <= known.len(),
                known_offset(known_view(known@), self@.name, 0) == known_offset(
                    known_view(known@),
                    self@.name,
                    i as int,
                ),
            decreases known.len() - i,
        {
            if known[i].0 == self.name && known[i].1 < 0x4000 {
                return Some(known[i].1);
            }
            i += 1;
        }
        None
    }

    /// The bytes of the record up to its data, unless a label of its name
    /// is too long. The name is written as a pointer where it is known.
    fn head(&self, known: &Vec<(String, u16)>) -> (r: Result<Vec<u8>, PacketError>)
        ensures
            known_offset(known_view(known@), self@.name, 0) is Some || name_fits(self@.name) ==> r
                is Ok && r->Ok_0@ == self@.name_wire_among(known_view(known@)) + u16_to_be(
                self@.data.type_code(),
            ) + u16_to_be(self@.class.spec_code()) + u32_to_be(self@.ttl),
            !(known_offset(known_view(known@), self@.name, 0) is Some || name_fits(self@.name))
                ==> r == Err::<Vec<u8>, PacketError>(PacketError::LabelTooLong),
    {
        let mut out: Vec<u8> = Vec::new();
        match self.find_known(known) {
            Some(offset) => {
                out.push((0xC0u16 | (offset >> 8)) as u8);
                out.push((offset & 0xff) as u8);
                proof {
                    assert(out@ =~= pointer_wire(offset));
                }
            },
            None => {
                push_name(&mut out, self.name.as_str())?;
                proof {
                    assert(out@ =~= name_bytes(self@.name));
                }
            },
        }
        push_u16(&mut out, self.data.get_type());
        push_u16(&mut out, self.class.code());
        push_u32(&mut out, self.ttl);
        Ok(out)
    }

    /// Writes the record: name, type, class, time to live, then the length
    /// of the data and the data, the length being written as zero first
    /// and again once the data stands in the buffer. A label of more than
    /// 63 bytes is refused; where the record is refused or does not fit,
    /// nothing is written.
    pub fn serialize(&self, packet_buffer: &mut PacketBuffer) -> (r: Result<(), PacketError>)
        ensures
            !self@.fits() ==> r == Err::<(), PacketError>(PacketError::LabelTooLong)
                && *final(packet_buffer) == *old(packet_buffer),
            self@.fits() && old(packet_buffer).pos + self@.wire().len() > BUFFER_SIZE ==> r
                == Err::<(), PacketError>(PacketError::BufferOverrun) && *final(packet_buffer)
                == *old(packet_buffer),
            self@.fits() && old(packet_buffer).pos + self@.wire().len() <= BUFFER_SIZE ==> r is Ok
                && final(packet_buffer).bytes() == written(
                old(packet_buffer).bytes(),
                old(packet_buffer).pos as int,
                self@.wire(),
            ) && final(packet_buffer).pos == old(packet_buffer).pos + self@.wire().len(),
    {
        let known: Vec<(String, u16)> = Vec::new();
        proof {
            assert(known_view(known@) =~= Seq::empty());
            assert(self@.wire_among(Seq::empty()) =~= self@.wire());
        }
        self.serialize_among(packet_buffer, &known)
    }

    /// Writes the record as `serialize` does, but for its name: where the
    /// name is one of those in `known`, which stand in the message already
    /// at the offsets given with them, a pointer to it is written in its
    /// place.
    pub fn serialize_among(
        &self,
        packet_buffer: &mut PacketBuffer,
        known: &Vec<(String, u16)>,
    ) -> (r: Result<(), PacketError>)
        ensures
            !self@.fits_among(known_view(known@)) ==> r == Err::<(), PacketError>(
                PacketError::LabelTooLong,
            ) && *final(packet_buffer) == *old(packet_buffer),
            self@.fits_among(known_view(known@)) && old(packet_buffer).pos + self@.wire_among(
                known_view(known@),
            ).len() > BUFFER_SIZE ==> r == Err::<(), PacketError>(PacketError::BufferOverrun)
                && *final(packet_buffer) == *old(packet_buffer),
            self@.fits_among(known_view(known@)) && old(packet_buffer).pos + self@.wire_among(
                known_view(known@),
            ).len() <= BUFFER_SIZE ==> r is Ok && final(packet_buffer).bytes() == written(
                old(packet_buffer).bytes(),
                old(packet_buffer).pos as int,
                self@.wire_among(known_view(known@)),
            ) && final(packet_buffer).pos == old(packet_buffer).pos + self@.wire_among(
                known_view(known@),
            ).len(),
    {
        let head = self.head(known)?;
        let data = self.data.rdata()?;
        if packet_buffer.pos > BUFFER_SIZE || head.len() > BUFFER_SIZE - packet_buffer.pos {
            return Err(PacketError::BufferOverrun);
        }
        let room = BUFFER_SIZE - packet_buffer.pos - head.len();
        if room < 2 || data.len() > room - 2 {
            return Err(PacketError::BufferOverrun);
        }
        let ghost before = packet_buffer.bytes();
        let ghost pos = packet_buffer.pos as int;
        packet_buffer.write_bytes(head)?;
        write_with_length(packet_buffer, data)?;
        proof {
            lemma_written_concat(
                before,
                pos,
                self@.name_wire_among(known_view(known@)) + u16_to_be(self@.data.type_code())
                    + u16_to_be(self@.class.spec_code()) + u32_to_be(self@.ttl),
                self@.data.wire_with_length(),
            );
        }
        Ok(())
    }
}

/// The first records of a list take no more bytes than the whole list.
pub proof fn lemma_records_wire_grows(
    records: Seq<RecordView>,
    known: Seq<(Seq<char>, u16)>,
    i: int,
)
    requires
        0 <= i <= records.len(),
    ensures
        records_wire(records.subrange(0, i), known).len() <= records_wire(records, known).len(),
    decreases records.len() - i,
{
    if i < records.len() {
        lemma_records_wire_grows(records, known, i + 1);
        assert(records.subrange(0, i + 1).drop_last() =~= records.subrange(0, i));
    } else {
        assert(records.subrange(0, i) =~= records);
    }
}

/// Where `count` records can be read, `count` records are read.
pub proof fn lemma_records_at_count(buf: Seq<u8>, pos: int, count: nat)
    ensures
        records_at(buf, pos, count) is Ok ==> records_at(buf, pos, count)->Ok_0.0.len() == count,
    decreases count,
{
    if count > 0 {
        lemma_records_at_count(buf, pos, (count - 1) as nat);
    }
}

/// Reads `count` records. On failure the cursor stays where it was.
pub fn read_records(packet_buffer: &mut PacketBuffer, count: u16) -> (r: Result<
    Vec<DnsRecord>,
    PacketError,
>)
    ensures
        final(packet_buffer).buffer == old(packet_buffer).buffer,
        match records_at(old(packet_buffer).bytes(), old(packet_buffer).pos as int, count as nat) {
            Ok((records, end)) => r is Ok && records_view(r->Ok_0@) == records
                && final(packet_buffer).pos == end,
            Err(e) => r == Err::<Vec<DnsRecord>, PacketError>(e) && final(packet_buffer).pos
                == old(packet_buffer).pos,
        },
{
    let ghost buf = packet_buffer.bytes();
    let first = packet_buffer.pos;
    let ghost start = packet_buffer.pos as int;
    let mut records: Vec<DnsRecord> = Vec::new();
    let mut i: u16 = 0;
    proof {
        assert(records_view(records@) =~= Seq::<RecordView>::empty());
    }
    while i < count
        invariant
            i <= count,
            packet_buffer.buffer == old(packet_buffer).buffer,
            buf == packet_buffer.bytes(),
            start == old(packet_buffer).pos,
            first == old(packet_buffer).pos,
            records_at(buf, start, i as nat) == Ok::<(Seq<RecordView>, int), PacketError>(
                (records_view(records@), packet_buffer.pos as int),
            ),
        decreases count - i,
    {
        let ghost before = records_view(records@);
        match DnsRecord::deserialize(packet_buffer) {
            Ok(record) => {
                records.push(record);
                proof {
                    assert(records_view(records@) =~= before.push(record@));
                }
            },
            Err(e) => {
                proof {
                    lemma_records_at_error(buf, start, (i + 1) as nat, count as nat);
                }
                packet_buffer.seek(first);
                return Err(e);
            },
        }
        i += 1;
    }
    Ok(records)
}

/// Reads those of `count` announced records that can be read. A record
/// that cannot be read is passed over by its announced length; where not
/// even that can be done, reading stops.
pub fn read_readable_records(packet_buffer: &mut PacketBuffer, count: u16) -> (r: Vec<DnsRecord>)
    ensures
        final(packet_buffer).buffer == old(packet_buffer).buffer,
        records_view(r@) == readable_records_at(
            old(packet_buffer).bytes(),
            old(packet_buffer).pos as int,
            count as nat,
        ).0,
        final(packet_buffer).pos == readable_records_at(
            old(packet_buffer).bytes(),
            old(packet_buffer).pos as int,
            count as nat,
        ).1,
        r@.len() <= count,
{
    let ghost buf = packet_buffer.bytes();
    let ghost start = packet_buffer.pos as int;
    let mut records: Vec<DnsRecord> = Vec::new();
    let mut i: u16 = 0;
    proof {
        assert(records_view(records@) =~= Seq::<RecordView>::empty());
    }
    while i < count
        invariant
            i <= count,
            records@.len() <= i,
            packet_buffer.buffer == old(packet_buffer).buffer,
            buf == packet_buffer.bytes(),
            start == old(packet_buffer).pos,
            readable_records_at(buf, start, i as nat) == (
                records_view(records@),
                packet_buffer.pos as int,
                false,
            ),
        decreases count - i,
    {
        let ghost before = records_view(records@);
        match DnsRecord::deserialize(packet_buffer) {
            Ok(record) => {
                records.push(record);
                proof {
                    assert(records_view(records@) =~= before.push(record@));
                }
            },
            Err(_) => {
                match DnsRecord::skip(packet_buffer) {
                    Ok(()) => {},
                    Err(_) => {
                        proof {
                            lemma_readable_records_stopped(
                                buf,
                                start,
                                (i + 1) as nat,
                                count as nat,
                            );
                        }
                        return records;
                    },
                }
            },
        }
        i += 1;
    }
    records
}

/// Whether the records can be written into a buffer at `pos`, and why not
/// where they cannot: no label of a name that is written out may be longer
/// than 63 bytes, and the records have to fit.
pub open spec fn records_write_result(
    records: Seq<RecordView>,
    known: Seq<(Seq<char>, u16)>,
    pos: int,
) -> Result<(), PacketError> {
    if !records_fit(records, known) {
        Err(PacketError::LabelTooLong)
    } else if pos + records_wire(records, known).len() > BUFFER_SIZE {
        Err(PacketError::BufferOverrun)
    } else {
        Ok(())
    }
}

/// Whether no label of a name that is written out is longer than the wire
/// format allows, where the names in `known` are written as pointers.
pub fn records_fit_among(records: &Vec<DnsRecord>, known: &Vec<(String, u16)>) -> (r: bool)
    ensures
        r == records_fit(records_view(records@), known_view(known@)),
{
    let ghost all = records_view(records@);
    let ghost names = known_view(known@);
    let mut i: usize = 0;
    while i < records.len()
        invariant
            i <= records.len(),
            all == records_view(records@),
            names == known_view(known@),
            records_fit(all.subrange(0, i as int), names),
        decreases records.len() - i,
    {
        if !records[i].fits_among(known) {
            proof {
                assert(!all[i as int].fits_among(names));
            }
            return false;
        }
        proof {
            let done = all.subrange(0, i as int);
            let upto = all.subrange(0, i + 1);
            assert forall|k: int| 0 <= k < upto.len() implies (#[trigger] upto[k]).fits_among(
                names,
            ) by {
                if k < i {
                    assert(upto[k] == done[k]);
                }
            }
        }
        i += 1;
    }
    proof {
        assert(all.subrange(0, all.len() as int) =~= all);
    }
    true
}

/// Writes the records one behind the other, with pointers for those of
/// their names that are in `known`. A label of more than 63 bytes in a name
/// that is written out is refused; where the records are refused or do not
/// fit, nothing is written.
pub fn write_records(
    packet_buffer: &mut PacketBuffer,
    records: &Vec<DnsRecord>,
    known: &Vec<(String, u16)>,
) -> (r: Result<(), PacketError>)
    ensures
        r == records_write_result(
            records_view(records@),
            known_view(known@),
            old(packet_buffer).pos as int,
        ),
        r is Err ==> *final(packet_buffer) == *old(packet_buffer),
        r is Ok ==> final(packet_buffer).bytes() == written(
            old(packet_buffer).bytes(),
            old(packet_buffer).pos as int,
            records_wire(records_view(records@), known_view(known@)),
        ) && final(packet_buffer).pos == old(packet_buffer).pos + records_wire(
            records_view(records@),
            known_view(known@),
        ).len(),
{
    if !records_fit_among(records, known) {
        return Err(PacketError::LabelTooLong);
    }
    if packet_buffer.pos > BUFFER_SIZE {
        return Err(PacketError::BufferOverrun);
    }
    let first = packet_buffer.pos;
    let saved = packet_buffer.buffer;
    let ghost before = packet_buffer.bytes();
    let ghost start = packet_buffer.pos as int;
    let ghost all = records_view(records@);
    let ghost names = known_view(known@);
    let mut i: usize = 0;
    proof {
        assert(all.subrange(0, 0) =~= Seq::<RecordView>::empty());
        assert(written(before, start, Seq::<u8>::empty()) =~= before);
    }
    while i < records.len()
        invariant
            i <= records.len(),
            all == records_view(records@),
            names == known_view(known@),
            records_fit(all, names),
            start == old(packet_buffer).pos,
            first == old(packet_buffer).pos,
            saved == old(packet_buffer).buffer,
            before == old(packet_buffer).bytes(),
            before.len() == BUFFER_SIZE,
            packet_buffer.pos == start + records_wire(all.subrange(0, i as int), names).len(),
            packet_buffer.pos <= BUFFER_SIZE,
            packet_buffer.bytes() == written(
                before,
                start,
                records_wire(all.subrange(0, i as int), names),
            ),
        decreases records.len() - i,
    {
        let ghost done = all.subrange(0, i as int);
        let ghost upto = all.subrange(0, i + 1);
        proof {
            assert(upto.drop_last() =~= done);
            assert(upto.last() == all[i as int]);
            lemma_records_wire_grows(all, names, i + 1);
        }
        match records[i].serialize_among(packet_buffer, known) {
            Ok(()) => {
                proof {
                    lemma_written_concat(
                        before,
                        start,
                        records_wire(done, names),
                        all[i as int].wire_among(names),
                    );
                }
            },
            Err(e) => {
                packet_buffer.buffer = saved;
                packet_buffer.pos = first;
                return Err(e);
            },
        }
        i += 1;
    }
    proof {
        assert(all.subrange(0, all.len() as int) =~= all);
    }
    Ok(())
}

impl crate::parsing::deserialize::Deserialize<DnsRecord> for DnsRecord {
    /// Reads a record, as `DnsRecord::deserialize` does.
    fn deserialize(packet_buffer: &mut PacketBuffer) -> (r: Result<DnsRecord, PacketError>)
        ensures
            final(packet_buffer).buffer == old(packet_buffer).buffer,
            match record_at(old(packet_buffer).bytes(), old(packet_buffer).pos as int) {
                Ok((record, end)) => r is Ok && r->Ok_0@ == record && final(packet_buffer).pos
                    == end,
                Err(e) => r == Err::<DnsRecord, PacketError>(e) && final(packet_buffer).pos
                    == old(packet_buffer).pos,
            },
    {
        DnsRecord::deserialize(packet_buffer)
    }
}

} // verus!
