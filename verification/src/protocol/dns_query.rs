use vstd::prelude::*;
use vstd::utf8::{encode_utf8, is_ascii_chars};

use crate::errors::PacketError;
use crate::protocol::dns_record_type::Class;
use crate::protocol::name_codec::{
    dotted, encode_qname, labels_fit, lemma_name_roundtrip, name_end, name_is_plain, name_labels,
    name_wire, split_labels,
};
use crate::protocol::packet_buffer::{
    lemma_split_range, lemma_u16_read_back, u16_at, u16_to_be, written, PacketBuffer, BUFFER_SIZE,
};

verus! {

/// The question of a message: names, and the type and class asked for.
#[derive(Debug, Clone)]
pub struct DnsQuery {
    pub domain_names: Vec<String>,
    pub qtype: u16,
    pub qclass: Class,
}

/// What a question holds.
pub struct DnsQueryView {
    pub domain_names: Seq<Seq<char>>,
    pub qtype: u16,
    pub qclass: Class,
}

/// The character sequences of a list of strings.
pub open spec fn names_view(names: Seq<String>) -> Seq<Seq<char>> {
    Seq::new(names.len(), |i: int| names[i]@)
}

impl View for DnsQuery {
    type V = DnsQueryView;

    open spec fn view(&self) -> DnsQueryView {
        DnsQueryView {
            domain_names: names_view(self.domain_names@),
            qtype: self.qtype,
            qclass: self.qclass,
        }
    }
}

/// The `count` names that stand in `buf` one behind the other from `pos`
/// on, with the position behind the last, or the reason why the first name
/// that cannot be read cannot be read.
pub open spec fn names_at(buf: Seq<u8>, pos: int, count: nat) -> Result<
    (Seq<Seq<char>>, int),
    PacketError,
>
    decreases count,
{
    if count == 0 {
        Ok((Seq::empty(), pos))
    } else {
        match names_at(buf, pos, (count - 1) as nat) {
            Err(e) => Err(e),
            Ok((names, p)) => match name_labels(buf, p, 0) {
                Err(e) => Err(e),
                Ok(labels) => Ok((names.push(dotted(labels)), name_end(buf, p))),
            },
        }
    }
}

/// The question that stands in `buf` at `pos` with `count` names, and the
/// position behind it, or the reason why there is none.
pub open spec fn query_at(buf: Seq<u8>, pos: int, count: nat) -> Result<
    (DnsQueryView, int),
    PacketError,
> {
    match names_at(buf, pos, count) {
        Err(e) => Err(e),
        Ok((names, p)) => if p < 0 || p + 4 > buf.len() {
            Err(PacketError::BufferUnderrun)
        } else {
            match Class::spec_from_u16(u16_at(buf, p + 2)) {
                Err(e) => Err(e),
                Ok(qclass) => Ok(
                    (DnsQueryView { domain_names: names, qtype: u16_at(buf, p), qclass }, p + 4),
                ),
            }
        },
    }
}

/// The wire forms of the names, one behind the other.
pub open spec fn names_wire(names: Seq<Seq<char>>) -> Seq<u8>
    decreases names.len(),
{
    if names.len() == 0 {
        Seq::empty()
    } else {
        names_wire(names.drop_last()) + name_wire(encode_utf8(names.last()))
    }
}

/// No label of any of the names is longer than the wire format allows.
pub open spec fn names_fit(names: Seq<Seq<char>>) -> bool {
    forall|i: int|
        0 <= i < names.len() ==> labels_fit(split_labels(encode_utf8(#[trigger] names[i])))
}

/// The names are in ASCII and each of their labels has between 1 and 63 bytes.
pub open spec fn names_are_plain(names: Seq<Seq<char>>) -> bool {
    forall|i: int|
        0 <= i < names.len() ==> is_ascii_chars(#[trigger] names[i]) && name_is_plain(
            encode_utf8(names[i]),
        )
}

/// The wire form of a question: its names, its type and its class.
pub open spec fn query_wire(q: DnsQueryView) -> Seq<u8> {
    names_wire(q.domain_names) + u16_to_be(q.qtype) + u16_to_be(q.qclass.spec_code())
}

/// Once a name cannot be read, no longer list of names can be read.
pub proof fn lemma_names_at_error(buf: Seq<u8>, pos: int, count: nat, more: nat)
    requires
        names_at(buf, pos, count) is Err,
        count <= more,
    ensures
        names_at(buf, pos, more) == names_at(buf, pos, count),
    decreases more,
{
    if count < more {
        lemma_names_at_error(buf, pos, count, (more - 1) as nat);
    }
}

/// Where `count` names can be read, `count` names are read.
pub proof fn lemma_names_at_count(buf: Seq<u8>, pos: int, count: nat)
    ensures
        names_at(buf, pos, count) is Ok ==> names_at(buf, pos, count)->Ok_0.0.len() == count,
    decreases count,
{
    if count > 0 {
        lemma_names_at_count(buf, pos, (count - 1) as nat);
    }
}

/// Plain names that stand in a buffer in wire form are read back as they are.
pub proof fn lemma_names_roundtrip(buf: Seq<u8>, pos: int, names: Seq<Seq<char>>)
    requires
        names_are_plain(names),
        0 <= pos,
        pos + names_wire(names).len() <= buf.len(),
        buf.subrange(pos, pos + names_wire(names).len()) == names_wire(names),
    ensures
        names_at(buf, pos, names.len()) == Ok::<(Seq<Seq<char>>, int), PacketError>(
            (names, pos + names_wire(names).len()),
        ),
    decreases names.len(),
{
    if names.len() == 0 {
        assert(names =~= Seq::<Seq<char>>::empty());
    } else {
        let init = names.drop_last();
        let last = names.last();
        let a = names_wire(init);
        let b = name_wire(encode_utf8(last));
        lemma_split_range(buf, pos, a, b);
        assert forall|i: int| 0 <= i < init.len() implies is_ascii_chars(#[trigger] init[i])
            && name_is_plain(encode_utf8(init[i])) by {
            assert(init[i] == names[i]);
        }
        lemma_names_roundtrip(buf, pos, init);
        crate::protocol::name_codec::lemma_ascii_chars_of_bytes(last);
        crate::protocol::name_codec::lemma_encode_labels_len(encode_utf8(last), 0);
        lemma_name_roundtrip(buf, pos + a.len(), last, 0);
        assert(init.push(last) =~= names);
    }
}

/// A question with plain names that stands in a buffer in wire form is
/// read back as it is.
pub proof fn lemma_query_roundtrip(buf: Seq<u8>, pos: int, q: DnsQueryView)
    requires
        names_are_plain(q.domain_names),
        0 <= pos,
        pos + query_wire(q).len() <= buf.len(),
        buf.subrange(pos, pos + query_wire(q).len()) == query_wire(q),
    ensures
        query_at(buf, pos, q.domain_names.len()) == Ok::<(DnsQueryView, int), PacketError>(
            (q, pos + query_wire(q).len()),
        ),
{
    let a = names_wire(q.domain_names);
    let b = u16_to_be(q.qtype);
    let c = u16_to_be(q.qclass.spec_code());
    lemma_split_range(buf, pos, a + b, c);
    lemma_split_range(buf, pos, a, b);
    lemma_names_roundtrip(buf, pos, q.domain_names);
    lemma_u16_read_back(buf, pos + a.len(), q.qtype);
    lemma_u16_read_back(buf, pos + a.len() + 2, q.qclass.spec_code());
}

impl DnsQuery {
    /// A copy of the question.
    pub fn duplicate(&self) -> (r: DnsQuery)
        ensures
            r@ == self@,
    {
        let mut names: Vec<String> = Vec::new();
        let mut i: usize = 0;
        while i < self.domain_names.len()
            invariant
                i <= self.domain_names.len(),
                names_view(names@) == self@.domain_names.subrange(
                    0,
                    i as int,
                ),
            decreases self.domain_names.len() - i,
        {
            let ghost before = names_view(names@);
            names.push(self.domain_names[i].clone());
            proof {
                assert(names_view(names@) =~= before.push(
                    self@.domain_names[i as int],
                ));
                assert(self@.domain_names.subrange(0, i + 1) =~= self@.domain_names.subrange(
                    0,
                    i as int,
                ).push(self@.domain_names[i as int]));
            }
            i += 1;
        }
        proof {
            assert(self@.domain_names.subrange(0, self@.domain_names.len() as int)
                =~= self@.domain_names);
        }
        DnsQuery { domain_names: names, qtype: self.qtype, qclass: self.qclass }
    }

    /// Reads `query_count` names, then the type and the class. On failure
    /// the cursor stays where it was.
    pub fn deserialize(packet_buffer: &mut PacketBuffer, query_count: u16) -> (r: Result<
        Self,
        PacketError,
    >)
        ensures
            final(packet_buffer).buffer == old(packet_buffer).buffer,
            match query_at(
                old(packet_buffer).bytes(),
                old(packet_buffer).pos as int,
                query_count as nat,
            ) {
                Ok((q, end)) => r is Ok && r->Ok_0@ == q && final(packet_buffer).pos == end,
                Err(e) => r == Err::<Self, PacketError>(e) && final(packet_buffer).pos
                    == old(packet_buffer).pos,
            },
    {
        let ghost buf = packet_buffer.bytes();
        let start = packet_buffer.pos;
        let mut domain_names: Vec<String> = Vec::new();
        let mut i: u16 = 0;
        proof {
            assert(names_view(domain_names@) =~= Seq::<Seq<char>>::empty());
        }
        while i < query_count
            invariant
                i <= query_count,
                packet_buffer.buffer == old(packet_buffer).buffer,
                buf == packet_buffer.bytes(),
                start == old(packet_buffer).pos,
                names_at(buf, start as int, i as nat) == Ok::<(Seq<Seq<char>>, int), PacketError>(
                    (names_view(domain_names@), packet_buffer.pos as int),
                ),
            decreases query_count - i,
        {
            let ghost before = names_view(domain_names@);
            match packet_buffer.read_qname() {
                Ok(name) => {
                    domain_names.push(name);
                    proof {
                        assert(names_view(domain_names@) =~= before.push(name@));
                    }
                },
                Err(e) => {
                    proof {
                        lemma_names_at_error(
                            buf,
                            start as int,
                            (i + 1) as nat,
                            query_count as nat,
                        );
                    }
                    packet_buffer.seek(start);
                    return Err(e);
                },
            }
            i += 1;
        }
        if packet_buffer.pos > BUFFER_SIZE - 4 {
            packet_buffer.seek(start);
            return Err(PacketError::BufferUnderrun);
        }
        let qtype = packet_buffer.read_u16()?;
        let qclass = match Class::deserialize(packet_buffer) {
            Ok(c) => c,
            Err(e) => {
                packet_buffer.seek(start);
                return Err(e);
            },
        };
        Ok(DnsQuery { domain_names, qtype, qclass })
    }

    /// The wire form of the question, unless one of its labels is too long.
    pub fn wire(&self) -> (r: Result<Vec<u8>, PacketError>)
        ensures
            names_fit(self@.domain_names) ==> r is Ok && r->Ok_0@ == query_wire(self@),
            !names_fit(self@.domain_names) ==> r == Err::<Vec<u8>, PacketError>(
                PacketError::LabelTooLong,
            ),
    {
        let mut out: Vec<u8> = Vec::new();
        let ghost names = self@.domain_names;
        let mut i: usize = 0;
        while i < self.domain_names.len()
            invariant
                i <= self.domain_names.len(),
                names == names_view(self.domain_names@),
                out@ == names_wire(names.subrange(0, i as int)),
                names_fit(names.subrange(0, i as int)),
            decreases self.domain_names.len() - i,
        {
            let ghost before = names.subrange(0, i as int);
            let ghost upto = names.subrange(0, i + 1);
            proof {
                assert(upto.drop_last() =~= before);
                assert(upto.last() == names[i as int]);
            }
            match encode_qname(self.domain_names[i].as_str()) {
                Ok(mut wire) => {
                    out.append(&mut wire);
                    proof {
                        assert forall|k: int| 0 <= k < upto.len() implies labels_fit(
                            split_labels(encode_utf8(#[trigger] upto[k])),
                        ) by {
                            if k < i {
                                assert(upto[k] == before[k]);
                            }
                        }
                    }
                },
                Err(e) => {
                    return Err(e);
                },
            }
            i += 1;
        }
        proof {
            assert(names.subrange(0, names.len() as int) =~= names);
        }
        out.push((self.qtype >> 8) as u8);
        out.push((self.qtype & 0xff) as u8);
        let class = self.qclass.code();
        out.push((class >> 8) as u8);
        out.push((class & 0xff) as u8);
        proof {
            assert(out@ =~= names_wire(names) + u16_to_be(self.qtype) + u16_to_be(
                self.qclass.spec_code(),
            ));
        }
        Ok(out)
    }

    /// Writes the names, the type and the class. A label of more than 63
    /// bytes is refused; where the question is refused or does not fit,
    /// nothing is written.
    pub fn serialize(&self, packet_buffer: &mut PacketBuffer) -> (r: Result<(), PacketError>)
        ensures
            !names_fit(self@.domain_names) ==> r == Err::<(), PacketError>(
                PacketError::LabelTooLong,
            ) && *final(packet_buffer) == *old(packet_buffer),
            names_fit(self@.domain_names) && old(packet_buffer).pos + query_wire(self@).len()
                > BUFFER_SIZE ==> r == Err::<(), PacketError>(PacketError::BufferOverrun)
                && *final(packet_buffer) == *old(packet_buffer),
            names_fit(self@.domain_names) && old(packet_buffer).pos + query_wire(self@).len()
                <= BUFFER_SIZE ==> r is Ok && final(packet_buffer).bytes() == written(
                old(packet_buffer).bytes(),
                old(packet_buffer).pos as int,
                query_wire(self@),
            ) && final(packet_buffer).pos == old(packet_buffer).pos + query_wire(self@).len(),
    {
        match self.wire() {
            Ok(wire) => packet_buffer.write_bytes(wire),
            Err(e) => Err(e),
        }
    }
}

} // verus!
