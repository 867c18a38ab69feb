use vstd::prelude::*;

use crate::errors::PacketError;
use crate::protocol::packet_buffer::{
    lemma_u16_be_roundtrip, lemma_written_concat, u16_at, u16_to_be, written, PacketBuffer,
    BUFFER_SIZE,
};

verus! {

/// Number of bytes of a header on the wire.
pub const HEADER_SIZE: usize = 12;

/// The response code of a header.
#[derive(Debug, Clone, Copy, PartialEq, Eq)]
pub enum ResponseCode {
    NoError,
    FormatError,
    ServerFailure,
    NXDomain,
    NotImplemented,
    Refused,
}

impl ResponseCode {
    /// The number that stands for the code on the wire.
    pub open spec fn spec_code(self) -> u8 {
        match self {
            ResponseCode::NoError => 0,
            ResponseCode::FormatError => 1,
            ResponseCode::ServerFailure => 2,
            ResponseCode::NXDomain => 3,
            ResponseCode::NotImplemented => 4,
            ResponseCode::Refused => 5,
        }
    }

    /// The code that `value` stands for, if it stands for one.
    pub open spec fn spec_from_u8(value: u8) -> Result<ResponseCode, PacketError> {
        if value == 0 {
            Ok(ResponseCode::NoError)
        } else if value == 1 {
            Ok(ResponseCode::FormatError)
        } else if value == 2 {
            Ok(ResponseCode::ServerFailure)
        } else if value == 3 {
            Ok(ResponseCode::NXDomain)
        } else if value == 4 {
            Ok(ResponseCode::NotImplemented)
        } else if value == 5 {
            Ok(ResponseCode::Refused)
        } else {
            Err(PacketError::InvalidResponseCode)
        }
    }

    /// The code that `value` stands for; values above 5 stand for none.
    pub fn from_u8(value: u8) -> (r: Result<Self, PacketError>)
        ensures
            r == Self::spec_from_u8(value),
            value <= 5 <==> r is Ok,
            r is Ok ==> r->Ok_0.spec_code() == value,
    {
        match value {
            0 => Ok(ResponseCode::NoError),
            1 => Ok(ResponseCode::FormatError),
            2 => Ok(ResponseCode::ServerFailure),
            3 => Ok(ResponseCode::NXDomain),
            4 => Ok(ResponseCode::NotImplemented),
            5 => Ok(ResponseCode::Refused),
            _ => Err(PacketError::InvalidResponseCode),
        }
    }

    /// The number that stands for the code on the wire.
    pub fn code(self) -> (r: u8)
        ensures
            r == self.spec_code(),
            r <= 5,
    {
        match self {
            ResponseCode::NoError => 0,
            ResponseCode::FormatError => 1,
            ResponseCode::ServerFailure => 2,
            ResponseCode::NXDomain => 3,
            ResponseCode::NotImplemented => 4,
            ResponseCode::Refused => 5,
        }
    }
}

/// The fixed header of a message.
#[derive(Debug, Clone, Copy, PartialEq, Eq)]
pub struct DnsHeader {
    pub id: u16,
    pub is_response: bool,
    /// 4 bits on the wire.
    pub opcode: u8,
    pub authoritative_answer: bool,
    pub truncated_message: bool,
    pub recursion_desired: bool,
    pub recursion_available: bool,
    /// 3 bits on the wire.
    pub z: u8,
    pub rcode: ResponseCode,
    pub question_count: u16,
    pub answer_count: u16,
    pub nscount: u16,
    pub arcount: u16,
}

/// One bit of a flag word.
pub open spec fn bit(b: bool) -> u16 {
    if b {
        1
    } else {
        0
    }
}

/// The flag word of a header. From the most to the least significant bit:
/// response (1), opcode (4), authoritative (1), truncated (1), recursion
/// desired (1), recursion available (1), reserved (3), response code (4).
/// Of `opcode` and `z` only the bits that the word has room for are kept.
pub open spec fn flags_word(h: DnsHeader) -> u16 {
    (bit(h.is_response) << 15) | (((h.opcode as u16) & 0xF) << 11) | (bit(h.authoritative_answer)
        << 10) | (bit(h.truncated_message) << 9) | (bit(h.recursion_desired) << 8) | (bit(
        h.recursion_available,
    ) << 7) | (((h.z as u16) & 0x7) << 4) | (h.rcode.spec_code() as u16)
}

/// The header that an id, a flag word and four counts stand for, if the
/// response code of the word is known.
pub open spec fn header_of(
    id: u16,
    flags: u16,
    question_count: u16,
    answer_count: u16,
    nscount: u16,
    arcount: u16,
) -> Result<DnsHeader, PacketError> {
    match ResponseCode::spec_from_u8((flags & 0x0F) as u8) {
        Ok(rcode) => Ok(
            DnsHeader {
                id,
                is_response: (flags >> 15) & 1 == 1,
                opcode: ((flags >> 11) & 0x0F) as u8,
                authoritative_answer: (flags >> 10) & 1 == 1,
                truncated_message: (flags >> 9) & 1 == 1,
                recursion_desired: (flags >> 8) & 1 == 1,
                recursion_available: (flags >> 7) & 1 == 1,
                z: ((flags >> 4) & 0x07) as u8,
                rcode,
                question_count,
                answer_count,
                nscount,
                arcount,
            },
        ),
        Err(e) => Err(e),
    }
}

/// The header that stands in `buf` at `pos`, or the reason why there is none.
pub open spec fn header_at(buf: Seq<u8>, pos: int) -> Result<DnsHeader, PacketError> {
    if pos < 0 || pos + HEADER_SIZE > buf.len() {
        Err(PacketError::BufferUnderrun)
    } else {
        header_of(
            u16_at(buf, pos),
            u16_at(buf, pos + 2),
            u16_at(buf, pos + 4),
            u16_at(buf, pos + 6),
            u16_at(buf, pos + 8),
            u16_at(buf, pos + 10),
        )
    }
}

/// The twelve bytes of a header on the wire.
pub open spec fn header_wire(h: DnsHeader) -> Seq<u8> {
    u16_to_be(h.id) + u16_to_be(flags_word(h)) + u16_to_be(h.question_count) + u16_to_be(
        h.answer_count,
    ) + u16_to_be(h.nscount) + u16_to_be(h.arcount)
}

/// A header whose fields fit the bits that the wire gives them.
pub open spec fn header_is_plain(h: DnsHeader) -> bool {
    h.opcode < 16 && h.z < 8
}

/// Unpacking a flag word and packing the fields again gives the word, for
/// each of the 65536 words whose response code is known.
pub proof fn lemma_flags_unpack_pack(flags: u16)
    requires
        (flags & 0x0F) <= 5,
    ensures
        header_of(0, flags, 0, 0, 0, 0) is Ok,
        flags_word(header_of(0, flags, 0, 0, 0, 0)->Ok_0) == flags,
{
    let code = (flags & 0x0F) as u8;
    let h = header_of(0, flags, 0, 0, 0, 0)->Ok_0;
    assert(code <= 5 && code as u16 == flags & 0x0F) by (bit_vector)
        requires
            code == (flags & 0x0F) as u8,
            (flags & 0x0F) <= 5,
    ;
    assert(h.rcode.spec_code() == code);
    let b15 = (flags >> 15) & 1;
    let b10 = (flags >> 10) & 1;
    let b9 = (flags >> 9) & 1;
    let b8 = (flags >> 8) & 1;
    let b7 = (flags >> 7) & 1;
    assert(b15 <= 1 && b10 <= 1 && b9 <= 1 && b8 <= 1 && b7 <= 1) by (bit_vector)
        requires
            b15 == (flags >> 15) & 1,
            b10 == (flags >> 10) & 1,
            b9 == (flags >> 9) & 1,
            b8 == (flags >> 8) & 1,
            b7 == (flags >> 7) & 1,
    ;
    assert(bit(h.is_response) == b15);
    assert(bit(h.authoritative_answer) == b10);
    assert(bit(h.truncated_message) == b9);
    assert(bit(h.recursion_desired) == b8);
    assert(bit(h.recursion_available) == b7);
    let op = ((flags >> 11) & 0x0F) as u8;
    let z = ((flags >> 4) & 0x07) as u8;
    assert((b15 << 15) | (((op as u16) & 0xF) << 11) | (b10 << 10) | (b9 << 9) | (b8 << 8) | (b7
        << 7) | (((z as u16) & 0x7) << 4) | (code as u16) == flags) by (bit_vector)
        requires
            b15 == (flags >> 15) & 1,
            b10 == (flags >> 10) & 1,
            b9 == (flags >> 9) & 1,
            b8 == (flags >> 8) & 1,
            b7 == (flags >> 7) & 1,
            op == ((flags >> 11) & 0x0F) as u8,
            z == ((flags >> 4) & 0x07) as u8,
            code as u16 == flags & 0x0F,
    ;
}

/// Packing the flags of a plain header and unpacking the word gives the
/// fields back.
pub proof fn lemma_flags_pack_unpack(h: DnsHeader)
    requires
        header_is_plain(h),
    ensures
        header_of(
            h.id,
            flags_word(h),
            h.question_count,
            h.answer_count,
            h.nscount,
            h.arcount,
        ) == Ok::<DnsHeader, PacketError>(h),
{
    let b15 = bit(h.is_response);
    let b10 = bit(h.authoritative_answer);
    let b9 = bit(h.truncated_message);
    let b8 = bit(h.recursion_desired);
    let b7 = bit(h.recursion_available);
    let op = h.opcode;
    let z = h.z;
    let code = h.rcode.spec_code();
    let w = flags_word(h);
    assert(((w >> 15) & 1 == b15) && ((w >> 10) & 1 == b10) && ((w >> 9) & 1 == b9) && ((w >> 8)
        & 1 == b8) && ((w >> 7) & 1 == b7) && (((w >> 11) & 0x0F) as u8 == op) && (((w >> 4)
        & 0x07) as u8 == z) && ((w & 0x0F) as u8 == code)) by (bit_vector)
        requires
            w == (b15 << 15) | (((op as u16) & 0xF) << 11) | (b10 << 10) | (b9 << 9) | (b8 << 8)
                | (b7 << 7) | (((z as u16) & 0x7) << 4) | (code as u16),
            b15 <= 1,
            b10 <= 1,
            b9 <= 1,
            b8 <= 1,
            b7 <= 1,
            op < 16,
            z < 8,
            code <= 5,
    ;
}

/// A plain header that stands in a buffer in wire form is read back as it is.
pub proof fn lemma_header_roundtrip(buf: Seq<u8>, pos: int, h: DnsHeader)
    requires
        header_is_plain(h),
        0 <= pos,
        pos + HEADER_SIZE <= buf.len(),
        buf.subrange(pos, pos + HEADER_SIZE) == header_wire(h),
    ensures
        header_at(buf, pos) == Ok::<DnsHeader, PacketError>(h),
{
    let wire = header_wire(h);
    assert forall|k: int| 0 <= k < 12 implies buf[pos + k] == wire[k] by {
        assert(buf.subrange(pos, pos + HEADER_SIZE)[k] == buf[pos + k]);
    }
    lemma_u16_be_roundtrip(h.id);
    lemma_u16_be_roundtrip(flags_word(h));
    lemma_u16_be_roundtrip(h.question_count);
    lemma_u16_be_roundtrip(h.answer_count);
    lemma_u16_be_roundtrip(h.nscount);
    lemma_u16_be_roundtrip(h.arcount);
    assert(wire[0] == u16_to_be(h.id)[0] && wire[1] == u16_to_be(h.id)[1]);
    assert(wire[2] == u16_to_be(flags_word(h))[0] && wire[3] == u16_to_be(flags_word(h))[1]);
    assert(wire[4] == u16_to_be(h.question_count)[0] && wire[5] == u16_to_be(
        h.question_count,
    )[1]);
    assert(wire[6] == u16_to_be(h.answer_count)[0] && wire[7] == u16_to_be(h.answer_count)[1]);
    assert(wire[8] == u16_to_be(h.nscount)[0] && wire[9] == u16_to_be(h.nscount)[1]);
    assert(wire[10] == u16_to_be(h.arcount)[0] && wire[11] == u16_to_be(h.arcount)[1]);
    assert(u16_at(buf, pos) == h.id);
    assert(u16_at(buf, pos + 2) == flags_word(h));
    assert(u16_at(buf, pos + 4) == h.question_count);
    assert(u16_at(buf, pos + 6) == h.answer_count);
    assert(u16_at(buf, pos + 8) == h.nscount);
    assert(u16_at(buf, pos + 10) == h.arcount);
    lemma_flags_pack_unpack(h);
}

impl DnsHeader {
    /// Reads a header: the id, the flag word, and the four counts. A
    /// response code above 5 is refused. On failure the cursor stays where
    /// it was.
    pub fn deserialize(packet_buffer: &mut PacketBuffer) -> (r: Result<Self, PacketError>)
        ensures
            final(packet_buffer).buffer == old(packet_buffer).buffer,
            r == header_at(old(packet_buffer).bytes(), old(packet_buffer).pos as int),
            r is Ok ==> final(packet_buffer).pos == old(packet_buffer).pos + HEADER_SIZE,
            r is Err ==> final(packet_buffer).pos == old(packet_buffer).pos,
    {
        let start = packet_buffer.pos;
        if start > BUFFER_SIZE - HEADER_SIZE {
            return Err(PacketError::BufferUnderrun);
        }
        let id = packet_buffer.read_u16()?;
        let flags = packet_buffer.read_u16()?;
        let is_response = (flags >> 15) & 1 == 1;
        let opcode = ((flags >> 11) & 0x0F) as u8;
        let authoritative_answer = (flags >> 10) & 1 == 1;
        let truncated_message = (flags >> 9) & 1 == 1;
        let recursion_desired = (flags >> 8) & 1 == 1;
        let recursion_available = (flags >> 7) & 1 == 1;
        let z = ((flags >> 4) & 0x07) as u8;
        let rcode = match ResponseCode::from_u8((flags & 0x0F) as u8) {
            Ok(code) => code,
            Err(e) => {
                packet_buffer.seek(start);
                return Err(e);
            },
        };
        let question_count = packet_buffer.read_u16()?;
        let answer_count = packet_buffer.read_u16()?;
        let nscount = packet_buffer.read_u16()?;
        let arcount = packet_buffer.read_u16()?;
        Ok(
            DnsHeader {
                id,
                is_response,
                opcode,
                authoritative_answer,
                truncated_message,
                recursion_desired,
                recursion_available,
                z,
                rcode,
                question_count,
                answer_count,
                nscount,
                arcount,
            },
        )
    }

    /// The flag word of the header.
    pub fn flags(&self) -> (r: u16)
        ensures
            r == flags_word(*self),
    {
        let mut flags: u16 = if self.is_response {
            1 << 15
        } else {
            0
        };
        flags = flags | (((self.opcode as u16) & 0xF) << 11);
        if self.authoritative_answer {
            flags = flags | (1 << 10);
        }
        if self.truncated_message {
            flags = flags | (1 << 9);
        }
        if self.recursion_desired {
            flags = flags | (1 << 8);
        }
        if self.recursion_available {
            flags = flags | (1 << 7);
        }
        flags = flags | (((self.z as u16) & 0x7) << 4);
        flags = flags | (self.rcode.code() as u16);
        proof {
            assert((0u16 << 15) == 0 && (0u16 << 10) == 0 && (0u16 << 9) == 0 && (0u16 << 8) == 0
                && (0u16 << 7) == 0) by (bit_vector);
            assert(forall|x: u16| #[trigger] (x | 0) == x) by (bit_vector);
        }
        flags
    }

    /// Writes the header: the id, the flag word, and the four counts. Where
    /// the twelve bytes do not fit, nothing is written.
    pub fn serialize(&self, packet_buffer: &mut PacketBuffer) -> (r: Result<(), PacketError>)
        ensures
            old(packet_buffer).pos + HEADER_SIZE <= BUFFER_SIZE ==> r is Ok
                && final(packet_buffer).bytes() == written(
                old(packet_buffer).bytes(),
                old(packet_buffer).pos as int,
                header_wire(*self),
            ) && final(packet_buffer).pos == old(packet_buffer).pos + HEADER_SIZE,
            old(packet_buffer).pos + HEADER_SIZE > BUFFER_SIZE ==> r == Err::<(), PacketError>(
                PacketError::BufferOverrun,
            ) && *final(packet_buffer) == *old(packet_buffer),
    {
        if packet_buffer.pos > BUFFER_SIZE - HEADER_SIZE {
            return Err(PacketError::BufferOverrun);
        }
        let ghost buf = packet_buffer.bytes();
        let ghost pos = packet_buffer.pos as int;
        packet_buffer.write_u16(self.id)?;
        packet_buffer.write_u16(self.flags())?;
        packet_buffer.write_u16(self.question_count)?;
        packet_buffer.write_u16(self.answer_count)?;
        packet_buffer.write_u16(self.nscount)?;
        packet_buffer.write_u16(self.arcount)?;
        proof {
            let a = u16_to_be(self.id);
            let b = u16_to_be(flags_word(*self));
            let c = u16_to_be(self.question_count);
            let d = u16_to_be(self.answer_count);
            let e = u16_to_be(self.nscount);
            let f = u16_to_be(self.arcount);
            lemma_written_concat(buf, pos, a, b);
            lemma_written_concat(buf, pos, a + b, c);
            lemma_written_concat(buf, pos, a + b + c, d);
            lemma_written_concat(buf, pos, a + b + c + d, e);
            lemma_written_concat(buf, pos, a + b + c + d + e, f);
        }
        Ok(())
    }
}

impl crate::parsing::deserialize::Deserialize<DnsHeader> for DnsHeader {
    /// Reads a header, as `DnsHeader::deserialize` does.
    fn deserialize(packet_buffer: &mut PacketBuffer) -> (r: Result<DnsHeader, PacketError>)
        ensures
            final(packet_buffer).buffer == old(packet_buffer).buffer,
            r == header_at(old(packet_buffer).bytes(), old(packet_buffer).pos as int),
            r is Ok ==> final(packet_buffer).pos == old(packet_buffer).pos + HEADER_SIZE,
            r is Err ==> final(packet_buffer).pos == old(packet_buffer).pos,
    {
        DnsHeader::deserialize(packet_buffer)
    }
}

} // verus!
