use vstd::prelude::*;
use vstd::utf8::{decode_utf8, encode_utf8, valid_utf8};

use crate::address::{Ipv4Addr, Ipv6Addr};
use crate::errors::PacketError;
use crate::protocol::name_codec::{
    dotted, encode_qname, labels_fit, name_end, name_labels, name_wire, split_labels,
};
use crate::protocol::packet_buffer::{
    u16_at, u16_to_be, u32_at, u32_to_be, written, PacketBuffer, BUFFER_SIZE,
};

verus! {

/// The class of a question or of a record.
#[derive(Debug, Clone, Copy, PartialEq, Eq)]
pub enum Class {
    IN,
    CS,
    CH,
    HS,
}

impl Class {
    /// The number that stands for the class on the wire.
    pub open spec fn spec_code(self) -> u16 {
        match self {
            Class::IN => 1,
            Class::CS => 2,
            Class::CH => 3,
            Class::HS => 4,
        }
    }

    /// The class that `value` stands for, if it stands for one.
    pub open spec fn spec_from_u16(value: u16) -> Result<Class, PacketError> {
        if value == 1 {
            Ok(Class::IN)
        } else if value == 2 {
            Ok(Class::CS)
        } else if value == 3 {
            Ok(Class::CH)
        } else if value == 4 {
            Ok(Class::HS)
        } else {
            Err(PacketError::UnknownClass)
        }
    }

    /// The class that `value` stands for: 1 to 4 stand for one.
    pub fn from_u16(value: u16) -> (r: Result<Self, PacketError>)
        ensures
            r == Self::spec_from_u16(value),
            1 <= value <= 4 <==> r is Ok,
            r is Ok ==> r->Ok_0.spec_code() == value,
    {
        match value {
            1 => Ok(Class::IN),
            2 => Ok(Class::CS),
            3 => Ok(Class::CH),
            4 => Ok(Class::HS),
            _ => Err(PacketError::UnknownClass),
        }
    }

    /// The number that stands for the class on the wire.
    pub fn code(self) -> (r: u16)
        ensures
            r == self.spec_code(),
            Self::spec_from_u16(r) == Ok::<Class, PacketError>(self),
    {
        match self {
            Class::IN => 1,
            Class::CS => 2,
            Class::CH => 3,
            Class::HS => 4,
        }
    }

    /// The class that stands in `buf` at `pos`, or the reason why there is none.
    pub open spec fn class_at(buf: Seq<u8>, pos: int) -> Result<Class, PacketError> {
        if pos < 0 || pos + 2 > buf.len() {
            Err(PacketError::BufferUnderrun)
        } else {
            Self::spec_from_u16(u16_at(buf, pos))
        }
    }

    /// Reads a class. On failure the cursor stays where it was.
    pub fn deserialize(packet_buffer: &mut PacketBuffer) -> (r: Result<Self, PacketError>)
        ensures
            final(packet_buffer).buffer == old(packet_buffer).buffer,
            r == Self::class_at(old(packet_buffer).bytes(), old(packet_buffer).pos as int),
            r is Ok ==> final(packet_buffer).pos == old(packet_buffer).pos + 2,
            r is Err ==> final(packet_buffer).pos == old(packet_buffer).pos,
    {
        let start = packet_buffer.pos;
        let class = packet_buffer.read_u16()?;
        match Class::from_u16(class) {
            Ok(c) => Ok(c),
            Err(e) => {
                packet_buffer.seek(start);
                Err(e)
            },
        }
    }
}

impl From<Class> for u16 {
    /// The number that stands for the class on the wire.
    fn from(class: Class) -> (r: u16) {
        class.code()
    }
}

impl vstd::std_specs::convert::FromSpecImpl<Class> for u16 {
    open spec fn obeys_from_spec() -> bool {
        true
    }

    open spec fn from_spec(class: Class) -> u16 {
        class.spec_code()
    }
}

impl crate::parsing::deserialize::Deserialize<Class> for Class {
    /// Reads a class, as `Class::deserialize` does.
    fn deserialize(packet_buffer: &mut PacketBuffer) -> (r: Result<Class, PacketError>)
        ensures
            final(packet_buffer).buffer == old(packet_buffer).buffer,
            r == Self::class_at(old(packet_buffer).bytes(), old(packet_buffer).pos as int),
            r is Ok ==> final(packet_buffer).pos == old(packet_buffer).pos + 2,
            r is Err ==> final(packet_buffer).pos == old(packet_buffer).pos,
    {
        Class::deserialize(packet_buffer)
    }
}

/// The data of a record: what its type says it holds.
#[derive(Debug, Clone, PartialEq, Eq)]
pub enum DnsRecordType {
    A { address: Ipv4Addr },
    NS { name_server: String },
    CNAME { canonical_name: String },
    SOA {
        mname: String,
        rname: String,
        serial: u32,
        refresh: u32,
        retry: u32,
        expire: u32,
        minimum: u32,
    },
    MX { priority: u16, exchange: String },
    TXT { text: String },
    AAAA { address: Ipv6Addr },
}

/// What the data of a record holds.
pub enum RecordDataView {
    A { address: Ipv4Addr },
    NS { name_server: Seq<char> },
    CNAME { canonical_name: Seq<char> },
    SOA {
        mname: Seq<char>,
        rname: Seq<char>,
        serial: u32,
        refresh: u32,
        retry: u32,
        expire: u32,
        minimum: u32,
    },
    MX { priority: u16, exchange: Seq<char> },
    TXT { text: Seq<char> },
    AAAA { address: Ipv6Addr },
}

impl View for DnsRecordType {
    type V = RecordDataView;

    open spec fn view(&self) -> RecordDataView {
        match self {
            DnsRecordType::A { address } => RecordDataView::A { address: *address },
            DnsRecordType::NS { name_server } => RecordDataView::NS { name_server: name_server@ },
            DnsRecordType::CNAME { canonical_name } => RecordDataView::CNAME {
                canonical_name: canonical_name@,
            },
            DnsRecordType::SOA { mname, rname, serial, refresh, retry, expire, minimum } => {
                RecordDataView::SOA {
                    mname: mname@,
                    rname: rname@,
                    serial: *serial,
                    refresh: *refresh,
                    retry: *retry,
                    expire: *expire,
                    minimum: *minimum,
                }
            },
            DnsRecordType::MX { priority, exchange } => RecordDataView::MX {
                priority: *priority,
                exchange: exchange@,
            },
            DnsRecordType::TXT { text } => RecordDataView::TXT { text: text@ },
            DnsRecordType::AAAA { address } => RecordDataView::AAAA { address: *address },
        }
    }
}

/// The wire form of a name given by its characters.
pub open spec fn name_bytes(name: Seq<char>) -> Seq<u8> {
    name_wire(encode_utf8(name))
}

/// No label of the name is longer than the wire format allows.
pub open spec fn name_fits(name: Seq<char>) -> bool {
    labels_fit(split_labels(encode_utf8(name)))
}

impl RecordDataView {
    /// The type code that stands for this kind of data on the wire.
    pub open spec fn type_code(self) -> u16 {
        match self {
            RecordDataView::A { .. } => 1,
            RecordDataView::NS { .. } => 2,
            RecordDataView::CNAME { .. } => 5,
            RecordDataView::SOA { .. } => 6,
            RecordDataView::MX { .. } => 15,
            RecordDataView::TXT { .. } => 16,
            RecordDataView::AAAA { .. } => 28,
        }
    }

    /// No label of a name in the data is longer than the wire format allows.
    pub open spec fn fits(self) -> bool {
        match self {
            RecordDataView::NS { name_server } => name_fits(name_server),
            RecordDataView::CNAME { canonical_name } => name_fits(canonical_name),
            RecordDataView::SOA { mname, rname, .. } => name_fits(mname) && name_fits(rname),
            RecordDataView::MX { exchange, .. } => name_fits(exchange),
            _ => true,
        }
    }

    /// The bytes of the data on the wire, without the length in front.
    pub open spec fn wire(self) -> Seq<u8> {
        match self {
            RecordDataView::A { address } => address.spec_octets(),
            RecordDataView::NS { name_server } => name_bytes(name_server),
            RecordDataView::CNAME { canonical_name } => name_bytes(canonical_name),
            RecordDataView::SOA { mname, rname, serial, refresh, retry, expire, minimum } => {
                name_bytes(mname) + name_bytes(rname) + u32_to_be(serial) + u32_to_be(refresh)
                    + u32_to_be(retry) + u32_to_be(expire) + u32_to_be(minimum)
            },
            RecordDataView::MX { priority, exchange } => u16_to_be(priority) + name_bytes(exchange),
            RecordDataView::TXT { text } => encode_utf8(text),
            RecordDataView::AAAA { address } => u16_to_be(address.a) + u16_to_be(address.b)
                + u16_to_be(address.c) + u16_to_be(address.d) + u16_to_be(address.e) + u16_to_be(
                address.f,
            ) + u16_to_be(address.g) + u16_to_be(address.h),
        }
    }

    /// The bytes of the data on the wire with their number in front, as a
    /// 16-bit value.
    pub open spec fn wire_with_length(self) -> Seq<u8> {
        u16_to_be(self.wire().len() as u16) + self.wire()
    }
}

/// The name that stands in `buf` at `pos` in dotted form, and the position
/// behind it, or the reason why there is none.
pub open spec fn name_at(buf: Seq<u8>, pos: int) -> Result<(Seq<char>, int), PacketError> {
    match name_labels(buf, pos, 0) {
        Ok(labels) => Ok((dotted(labels), name_end(buf, pos))),
        Err(e) => Err(e),
    }
}

/// The data of a record of type `type_id` that stands in `buf` at `pos`,
/// and the position behind it, or the reason why there is none. An address
/// has to be announced with its own length, 4 or 16 bytes; a text has the
/// length that is announced; for data that holds names the announced length
/// stands for nothing.
pub open spec fn data_at(buf: Seq<u8>, pos: int, type_id: u16, rdlength: u16) -> Result<
    (RecordDataView, int),
    PacketError,
> {
    if type_id == 1 {
        if rdlength != 4 {
            Err(PacketError::InvalidRecord)
        } else if pos < 0 || pos + 4 > buf.len() {
            Err(PacketError::BufferUnderrun)
        } else {
            Ok(
                (
                    RecordDataView::A {
                        address: Ipv4Addr {
                            a: buf[pos],
                            b: buf[pos + 1],
                            c: buf[pos + 2],
                            d: buf[pos + 3],
                        },
                    },
                    pos + 4,
                ),
            )
        }
    } else if type_id == 2 {
        match name_at(buf, pos) {
            Ok((name, end)) => Ok((RecordDataView::NS { name_server: name }, end)),
            Err(e) => Err(e),
        }
    } else if type_id == 5 {
        match name_at(buf, pos) {
            Ok((name, end)) => Ok((RecordDataView::CNAME { canonical_name: name }, end)),
            Err(e) => Err(e),
        }
    } else if type_id == 6 {
        match name_at(buf, pos) {
            Err(e) => Err(e),
            Ok((mname, p)) => match name_at(buf, p) {
                Err(e) => Err(e),
                Ok((rname, q)) => if q < 0 || q + 20 > buf.len() {
                    Err(PacketError::BufferUnderrun)
                } else {
                    Ok(
                        (
                            RecordDataView::SOA {
                                mname,
                                rname,
                                serial: u32_at(buf, q),
                                refresh: u32_at(buf, q + 4),
                                retry: u32_at(buf, q + 8),
                                expire: u32_at(buf, q + 12),
                                minimum: u32_at(buf, q + 16),
                            },
                            q + 20,
                        ),
                    )
                },
            },
        }
    } else if type_id == 15 {
        if pos < 0 || pos + 2 > buf.len() {
            Err(PacketError::BufferUnderrun)
        } else {
            match name_at(buf, pos + 2) {
                Ok((name, end)) => Ok(
                    (RecordDataView::MX { priority: u16_at(buf, pos), exchange: name }, end),
                ),
                Err(e) => Err(e),
            }
        }
    } else if type_id == 16 {
        if pos < 0 || pos + rdlength > buf.len() {
            Err(PacketError::BufferUnderrun)
        } else if !valid_utf8(buf.subrange(pos, pos + rdlength)) {
            Err(PacketError::InvalidText)
        } else {
            Ok(
                (
                    RecordDataView::TXT { text: decode_utf8(buf.subrange(pos, pos + rdlength)) },
                    pos + rdlength,
                ),
            )
        }
    } else if type_id == 28 {
        if rdlength != 16 {
            Err(PacketError::InvalidRecord)
        } else if pos < 0 || pos + 16 > buf.len() {
            Err(PacketError::BufferUnderrun)
        } else {
            Ok(
                (
                    RecordDataView::AAAA {
                        address: Ipv6Addr {
                            a: u16_at(buf, pos),
                            b: u16_at(buf, pos + 2),
                            c: u16_at(buf, pos + 4),
                            d: u16_at(buf, pos + 6),
                            e: u16_at(buf, pos + 8),
                            f: u16_at(buf, pos + 10),
                            g: u16_at(buf, pos + 12),
                            h: u16_at(buf, pos + 14),
                        },
                    },
                    pos + 16,
                ),
            )
        }
    } else {
        Err(PacketError::UnknownRecordType)
    }
}

/// Appends the two big-endian bytes of `v`.
pub(crate) fn push_u16(out: &mut Vec<u8>, v: u16)
    ensures
        final(out)@ == old(out)@ + u16_to_be(v),
{
    out.push((v >> 8) as u8);
    out.push((v & 0xff) as u8);
    assert(out@ =~= old(out)@ + u16_to_be(v));
}

/// Appends the four big-endian bytes of `v`.
pub(crate) fn push_u32(out: &mut Vec<u8>, v: u32)
    ensures
        final(out)@ == old(out)@ + u32_to_be(v),
{
    out.push((v >> 24) as u8);
    out.push(((v >> 16) & 0xff) as u8);
    out.push(((v >> 8) & 0xff) as u8);
    out.push((v & 0xff) as u8);
    assert(out@ =~= old(out)@ + u32_to_be(v));
}

/// Appends the wire form of a dotted name, unless one of its labels is too long.
pub(crate) fn push_name(out: &mut Vec<u8>, name: &str) -> (r: Result<(), PacketError>)
    ensures
        name_fits(name@) ==> r is Ok && final(out)@ == old(out)@ + name_bytes(name@),
        !name_fits(name@) ==> r == Err::<(), PacketError>(PacketError::LabelTooLong),
{
    match encode_qname(name) {
        Ok(mut wire) => {
            out.append(&mut wire);
            Ok(())
        },
        Err(e) => Err(e),
    }
}

impl DnsRecordType {
    /// A copy of the data.
    pub fn duplicate(&self) -> (r: DnsRecordType)
        ensures
            r@ == self@,
    {
        match self {
            DnsRecordType::A { address } => DnsRecordType::A { address: *address },
            DnsRecordType::NS { name_server } => DnsRecordType::NS {
                name_server: name_server.clone(),
            },
            DnsRecordType::CNAME { canonical_name } => DnsRecordType::CNAME {
                canonical_name: canonical_name.clone(),
            },
            DnsRecordType::SOA { mname, rname, serial, refresh, retry, expire, minimum } => {
                DnsRecordType::SOA {
                    mname: mname.clone(),
                    rname: rname.clone(),
                    serial: *serial,
                    refresh: *refresh,
                    retry: *retry,
                    expire: *expire,
                    minimum: *minimum,
                }
            },
            DnsRecordType::MX { priority, exchange } => DnsRecordType::MX {
                priority: *priority,
                exchange: exchange.clone(),
            },
            DnsRecordType::TXT { text } => DnsRecordType::TXT { text: text.clone() },
            DnsRecordType::AAAA { address } => DnsRecordType::AAAA { address: *address },
        }
    }

    /// The type code that stands for this kind of data on the wire.
    pub fn get_type(&self) -> (r: u16)
        ensures
            r == self@.type_code(),
    {
        match self {
            DnsRecordType::A { .. } => 1,
            DnsRecordType::NS { .. } => 2,
            DnsRecordType::CNAME { .. } => 5,
            DnsRecordType::SOA { .. } => 6,
            DnsRecordType::MX { .. } => 15,
            DnsRecordType::TXT { .. } => 16,
            DnsRecordType::AAAA { .. } => 28,
        }
    }

    /// The bytes of the data on the wire, without the length in front,
    /// unless a label of one of its names is too long.
    pub fn rdata(&self) -> (r: Result<Vec<u8>, PacketError>)
        ensures
            self@.fits() ==> r is Ok && r->Ok_0@ == self@.wire(),
            !self@.fits() ==> r == Err::<Vec<u8>, PacketError>(PacketError::LabelTooLong),
    {
        let mut out: Vec<u8> = Vec::new();
        match self {
            DnsRecordType::A { address } => {
                out.push(address.a);
                out.push(address.b);
                out.push(address.c);
                out.push(address.d);
                proof {
                    assert(out@ =~= address.spec_octets());
                }
            },
            DnsRecordType::NS { name_server } => {
                push_name(&mut out, name_server.as_str())?;
                proof {
                    assert(out@ =~= name_bytes(name_server@));
                }
            },
            DnsRecordType::CNAME { canonical_name } => {
                push_name(&mut out, canonical_name.as_str())?;
                proof {
                    assert(out@ =~= name_bytes(canonical_name@));
                }
            },
            DnsRecordType::SOA { mname, rname, serial, refresh, retry, expire, minimum } => {
                push_name(&mut out, mname.as_str())?;
                push_name(&mut out, rname.as_str())?;
                push_u32(&mut out, *serial);
                push_u32(&mut out, *refresh);
                push_u32(&mut out, *retry);
                push_u32(&mut out, *expire);
                push_u32(&mut out, *minimum);
                proof {
                    assert(out@ =~= self@.wire());
                }
            },
            DnsRecordType::MX { priority, exchange } => {
                push_u16(&mut out, *priority);
                push_name(&mut out, exchange.as_str())?;
                proof {
                    assert(out@ =~= self@.wire());
                }
            },
            DnsRecordType::TXT { text } => {
                let bytes = text.as_str().as_bytes();
                let mut k: usize = 0;
                while k < bytes.len()
                    invariant
                        k <= bytes.len(),
                        out@ == bytes@.subrange(0, k as int),
                    decreases bytes.len() - k,
                {
                    out.push(bytes[k]);
                    k += 1;
                }
                proof {
                    assert(bytes@.subrange(0, bytes.len() as int) =~= bytes@);
                }
            },
            DnsRecordType::AAAA { address } => {
                push_u16(&mut out, address.a);
                push_u16(&mut out, address.b);
                push_u16(&mut out, address.c);
                push_u16(&mut out, address.d);
                push_u16(&mut out, address.e);
                push_u16(&mut out, address.f);
                push_u16(&mut out, address.g);
                push_u16(&mut out, address.h);
                proof {
                    assert(out@ =~= self@.wire());
                }
            },
        }
        Ok(out)
    }

    /// The number of bytes of the data on the wire, without the length in
    /// front, unless a label of one of its names is too long.
    pub fn get_length(&self) -> (r: Result<usize, PacketError>)
        ensures
            self@.fits() ==> r == Ok::<usize, PacketError>(self@.wire().len() as usize),
            !self@.fits() ==> r == Err::<usize, PacketError>(PacketError::LabelTooLong),
    {
        match self.rdata() {
            Ok(data) => Ok(data.len()),
            Err(e) => Err(e),
        }
    }

    /// Reads the data of a record of type `type_id` whose length was
    /// announced as `rdlength`. On failure the cursor is left where reading
    /// stopped.
    fn read(packet_buffer: &mut PacketBuffer, type_id: u16, rdlength: u16) -> (r: Result<
        Self,
        PacketError,
    >)
        ensures
            final(packet_buffer).buffer == old(packet_buffer).buffer,
            match data_at(
                old(packet_buffer).bytes(),
                old(packet_buffer).pos as int,
                type_id,
                rdlength,
            ) {
                Ok((data, end)) => r is Ok && r->Ok_0@ == data && final(packet_buffer).pos == end,
                Err(e) => r == Err::<Self, PacketError>(e),
            },
    {
        match type_id {
            1 => {
                if rdlength != 4 {
                    return Err(PacketError::InvalidRecord);
                }
                if packet_buffer.pos > BUFFER_SIZE - 4 {
                    return Err(PacketError::BufferUnderrun);
                }
                let a = packet_buffer.read()?;
                let b = packet_buffer.read()?;
                let c = packet_buffer.read()?;
                let d = packet_buffer.read()?;
                Ok(DnsRecordType::A { address: Ipv4Addr::new(a, b, c, d) })
            },
            2 => {
                let name_server = packet_buffer.read_qname()?;
                Ok(DnsRecordType::NS { name_server })
            },
            5 => {
                let canonical_name = packet_buffer.read_qname()?;
                Ok(DnsRecordType::CNAME { canonical_name })
            },
            6 => {
                let mname = packet_buffer.read_qname()?;
                let rname = packet_buffer.read_qname()?;
                if packet_buffer.pos > BUFFER_SIZE - 20 {
                    return Err(PacketError::BufferUnderrun);
                }
                let serial = packet_buffer.read_u32()?;
                let refresh = packet_buffer.read_u32()?;
                let retry = packet_buffer.read_u32()?;
                let expire = packet_buffer.read_u32()?;
                let minimum = packet_buffer.read_u32()?;
                Ok(DnsRecordType::SOA { mname, rname, serial, refresh, retry, expire, minimum })
            },
            15 => {
                let priority = packet_buffer.read_u16()?;
                let exchange = packet_buffer.read_qname()?;
                Ok(DnsRecordType::MX { priority, exchange })
            },
            16 => {
                let text = packet_buffer.read_bytes(rdlength as usize)?;
                match String::from_utf8(text) {
                    Ok(text) => Ok(DnsRecordType::TXT { text }),
                    Err(_) => Err(PacketError::InvalidText),
                }
            },
            28 => {
                if rdlength != 16 {
                    return Err(PacketError::InvalidRecord);
                }
                if packet_buffer.pos > BUFFER_SIZE - 16 {
                    return Err(PacketError::BufferUnderrun);
                }
                let a = packet_buffer.read_u16()?;
                let b = packet_buffer.read_u16()?;
                let c = packet_buffer.read_u16()?;
                let d = packet_buffer.read_u16()?;
                let e = packet_buffer.read_u16()?;
                let f = packet_buffer.read_u16()?;
                let g = packet_buffer.read_u16()?;
                let h = packet_buffer.read_u16()?;
                Ok(DnsRecordType::AAAA { address: Ipv6Addr::new(a, b, c, d, e, f, g, h) })
            },
            _ => Err(PacketError::UnknownRecordType),
        }
    }

    /// Reads the data of a record of type `type_id` whose length was
    /// announced as `rdlength`. An address has to be announced with its own
    /// length; a text has the announced length and has to be UTF-8; an
    /// unknown type is refused. On failure the cursor stays where it was.
    pub fn deserialize(packet_buffer: &mut PacketBuffer, type_id: u16, rdlength: u16) -> (r:
        Result<Self, PacketError>)
        ensures
            final(packet_buffer).buffer == old(packet_buffer).buffer,
            match data_at(
                old(packet_buffer).bytes(),
                old(packet_buffer).pos as int,
                type_id,
                rdlength,
            ) {
                Ok((data, end)) => r is Ok && r->Ok_0@ == data && final(packet_buffer).pos == end,
                Err(e) => r == Err::<Self, PacketError>(e) && final(packet_buffer).pos
                    == old(packet_buffer).pos,
            },
    {
        let start = packet_buffer.pos;
        match Self::read(packet_buffer, type_id, rdlength) {
            Ok(data) => Ok(data),
            Err(e) => {
                packet_buffer.seek(start);
                Err(e)
            },
        }
    }

    /// Writes the length of the data and the data. The length is first
    /// written as zero and, once the data stands in the buffer, written
    /// again as the distance that the cursor has covered; then the cursor
    /// goes back behind the data. A label of more than 63 bytes is refused;
    /// where the data is refused or does not fit, nothing is written.
    pub fn serialize(&self, packet_buffer: &mut PacketBuffer) -> (r: Result<(), PacketError>)
        ensures
            !self@.fits() ==> r == Err::<(), PacketError>(PacketError::LabelTooLong)
                && *final(packet_buffer) == *old(packet_buffer),
            self@.fits() && old(packet_buffer).pos + 2 + self@.wire().len() > BUFFER_SIZE ==> r
                == Err::<(), PacketError>(PacketError::BufferOverrun) && *final(packet_buffer)
                == *old(packet_buffer),
            self@.fits() && old(packet_buffer).pos + 2 + self@.wire().len() <= BUFFER_SIZE ==> r
                is Ok && final(packet_buffer).bytes() == written(
                old(packet_buffer).bytes(),
                old(packet_buffer).pos as int,
                self@.wire_with_length(),
            ) && final(packet_buffer).pos == old(packet_buffer).pos + 2 + self@.wire().len(),
    {
        let data = self.rdata()?;
        write_with_length(packet_buffer, data)
    }
}

/// Writes a 16-bit length and `data` behind it. The length is first written
/// as zero and, once the data stands in the buffer, written again as the
/// distance that the cursor has covered, less the two bytes of the length
/// itself; then the cursor goes back behind the data. Where the length and
/// the data do not fit, nothing is written.
pub fn write_with_length(packet_buffer: &mut PacketBuffer, data: Vec<u8>) -> (r: Result<
    (),
    PacketError,
>)
    ensures
        old(packet_buffer).pos + 2 + data.len() > BUFFER_SIZE ==> r == Err::<(), PacketError>(
            PacketError::BufferOverrun,
        ) && *final(packet_buffer) == *old(packet_buffer),
        old(packet_buffer).pos + 2 + data.len() <= BUFFER_SIZE ==> r is Ok
            && final(packet_buffer).bytes() == written(
            old(packet_buffer).bytes(),
            old(packet_buffer).pos as int,
            u16_to_be(data.len() as u16) + data@,
        ) && final(packet_buffer).pos == old(packet_buffer).pos + 2 + data.len(),
{
    if packet_buffer.pos > BUFFER_SIZE - 2 || data.len() > BUFFER_SIZE - 2 - packet_buffer.pos {
        return Err(PacketError::BufferOverrun);
    }
    let ghost before = packet_buffer.bytes();
    let ghost bytes = data@;
    let start_pos = packet_buffer.pos;
    packet_buffer.write_u16(0)?;
    packet_buffer.write_bytes(data)?;
    let end_pos = packet_buffer.pos;
    let length = end_pos - start_pos - 2;
    packet_buffer.seek(start_pos);
    packet_buffer.write_u16(length as u16)?;
    packet_buffer.seek(end_pos);
    proof {
        assert(packet_buffer.bytes() =~= written(
            before,
            start_pos as int,
            u16_to_be(length as u16) + bytes,
        ));
    }
    Ok(())
}

} // verus!
