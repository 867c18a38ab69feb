use vstd::prelude::*;

use crate::errors::PacketError;
use crate::parsing::deserialize::{
    bits_value, bytes_left, has_bits, lemma_bits_value_bound, lemma_bits_value_left,
    lemma_bytes_left_twice, readable, take_16bits, BitInput,
};
use crate::parsing::serialize::{
    bits_append, lemma_low_bits_len, number_bits, serialize_n_bits, BitString, Serialize,
};
use crate::protocol::dns_record_type::Class;
use crate::protocol::domain_names::{parts_at_bits, parts_bits, DomainNames, PartView};

verus! {

/// A question in the form of its parts: the names part by part, and the
/// type and class asked for.
#[derive(Debug, Clone)]
pub struct DnsQuestion {
    pub domain_names: DomainNames,
    pub qtype: u16,
    pub qclass: Class,
}

/// What a question in parts holds.
pub struct QuestionView {
    pub domain_names: Seq<PartView>,
    pub qtype: u16,
    pub qclass: Class,
}

impl View for DnsQuestion {
    type V = QuestionView;

    open spec fn view(&self) -> QuestionView {
        QuestionView { domain_names: self.domain_names@, qtype: self.qtype, qclass: self.qclass }
    }
}

/// The question with `count` names that starts at the bit of index `at`,
/// and the index of the bit behind it, or the reason why there is none.
pub open spec fn question_at_bits(bytes: Seq<u8>, at: int, count: nat) -> Result<
    (QuestionView, int),
    PacketError,
> {
    match parts_at_bits(bytes, at, count, at) {
        Err(e) => Err(e),
        Ok((parts, end)) => if !has_bits(bytes.len() as int, end, 32) {
            Err(PacketError::BufferUnderrun)
        } else {
            match Class::spec_from_u16(bits_value(bytes, end + 16, 16) as u16) {
                Err(e) => Err(e),
                Ok(qclass) => Ok(
                    (
                        QuestionView {
                            domain_names: parts,
                            qtype: bits_value(bytes, end, 16) as u16,
                            qclass,
                        },
                        end + 32,
                    ),
                ),
            }
        },
    }
}

/// The parts of names end within the bytes, at a bit that is as far into
/// its byte as the bit at which they start.
pub proof fn lemma_parts_end(bytes: Seq<u8>, at: int, count: nat, start: int)
    requires
        0 <= at <= 8 * bytes.len() || (bytes.len() == 0 && 0 <= at < 8),
        parts_at_bits(bytes, at, count, start) is Ok,
    ensures
        at <= parts_at_bits(bytes, at, count, start)->Ok_0.1,
        parts_at_bits(bytes, at, count, start)->Ok_0.1 <= 8 * bytes.len() || count == 0,
        parts_at_bits(bytes, at, count, start)->Ok_0.1 % 8 == at % 8,
    decreases 8 * bytes.len() - at,
{
    if count > 0 {
        crate::protocol::domain_names::lemma_part_size(bytes, at);
        let (part, bits) = crate::protocol::domain_names::part_at_bits(bytes, at)->Ok_0;
        let next = if part is Label {
            count
        } else {
            (count - 1) as nat
        };
        lemma_parts_end(bytes, at + bits, next, start);
    }
}

impl DnsQuestion {
    /// Reads a question: the parts of `question_count` names, then the
    /// type and the class.
    pub fn deserialize<'a>(input: BitInput<'a>, question_count: u16) -> (r: Result<
        (BitInput<'a>, DnsQuestion),
        PacketError,
    >)
        requires
            readable(input),
        ensures
            match question_at_bits(input.0@, input.1 as int, question_count as nat) {
                Ok((question, end)) => r is Ok && r->Ok_0.1@ == question && r->Ok_0.0.0@
                    == bytes_left(input.0@, end) && r->Ok_0.0.1 == input.1,
                Err(e) => r == Err::<(BitInput<'a>, DnsQuestion), PacketError>(e),
            },
    {
        let ghost bytes = input.0@;
        let ghost at = input.1 as int;
        let (after_names, domain_names) = DomainNames::deserialize(input, question_count)?;
        let ghost end = parts_at_bits(bytes, at, question_count as nat, at)->Ok_0.1;
        proof {
            lemma_parts_end(bytes, at, question_count as nat, at);
            if end + 32 <= 8 * bytes.len() {
                lemma_bits_value_left(bytes, end, end % 8, 16);
                lemma_bits_value_left(bytes, end + 16, end % 8, 16);
                lemma_bytes_left_twice(bytes, end, 16);
                lemma_bytes_left_twice(bytes, end + 16, 16);
            }
            if end <= 8 * bytes.len() {
                lemma_bytes_left_twice(bytes, end, 0);
            }
            if end + 16 <= 8 * bytes.len() {
                lemma_bytes_left_twice(bytes, end, 16);
            }
            lemma_bits_value_bound(bytes, end, 16);
            lemma_bits_value_bound(bytes, end + 16, 16);
            vstd::arithmetic::power2::lemma2_to64();
        }
        let (after_type, qtype) = take_16bits(after_names)?;
        let (rest, class) = take_16bits(after_type)?;
        let qclass = Class::from_u16(class)?;
        Ok((rest, DnsQuestion { domain_names, qtype, qclass }))
    }
}

impl Serialize for DnsQuestion {
    open spec fn wire_bits(&self) -> Seq<bool> {
        parts_bits(self@.domain_names) + number_bits(self.qtype as nat, 16) + number_bits(
            self.qclass.spec_code() as nat,
            16,
        )
    }

    /// The question as bits: the parts of its names, its type, its class.
    fn serialize(&self) -> (r: BitString) {
        proof {
            lemma_low_bits_len(self.qtype as nat, 16);
            lemma_low_bits_len(self.qclass.spec_code() as nat, 16);
        }
        let mut vec = self.domain_names.serialize();
        let mut qtype = serialize_n_bits(16, self.qtype as u64);
        bits_append(&mut vec, &mut qtype);
        let mut qclass = serialize_n_bits(16, self.qclass.code() as u64);
        bits_append(&mut vec, &mut qclass);
        vec
    }
}

} // verus!
