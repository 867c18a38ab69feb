//! Names that are written part by part are read back part by part, with
//! their pointers: the law that ties `DomainNames::serialize` to
//! `DomainNames::deserialize`.

use vstd::arithmetic::power2::lemma2_to64;
use vstd::prelude::*;
use vstd::utf8::{encode_utf8, is_ascii_chars};

use crate::errors::PacketError;
use crate::parsing::bit_values::{
    bits_number, holds_bits, lemma_bits_number_bound, lemma_bits_of_byte, lemma_bytes_bits_len,
    lemma_number_bits_of_small, lemma_number_of_joined_bits, lemma_value_of_held_bits,
};
use crate::parsing::deserialize::{bits_value, octets_at};
use crate::parsing::serialize::{bytes_bits, lemma_low_bits_len, number_bits};
use crate::protocol::domain_names::{
    domains_of, lemma_offsets_grow, offset_of, part_at_bits, part_bits, parts_at_bits, parts_bits,
    total_size, PartView,
};
use crate::protocol::name_codec::lemma_ascii_chars_of_bytes;

verus! {

/// A part that reads back as it was written: a label has as many bytes as
/// its length says, between 1 and 63, all of them ASCII; a pointer holds
/// an offset of at most 14 bits.
pub open spec fn plain_part(part: PartView) -> bool {
    match part {
        PartView::Label { len, string } => 1 <= len <= 63 && is_ascii_chars(string) && string.len()
            == len,
        PartView::Pointer { pos } => pos < 0x4000,
        PartView::End => true,
    }
}

/// Names that read back as they were written: each part is plain, each
/// pointer points to a byte offset before its own, and the last part ends
/// a name.
pub open spec fn plain_parts(parts: Seq<PartView>) -> bool {
    &&& forall|i: int| 0 <= i < parts.len() ==> plain_part(#[trigger] parts[i])
    &&& forall|i: int|
        0 <= i < parts.len() && (#[trigger] parts[i]) is Pointer ==> parts[i]->pos < offset_of(
            parts,
            i,
        )
    &&& parts.len() > 0 ==> !(parts.last() is Label)
}

/// The number of names that end at or behind the part of index `i`.
pub open spec fn names_from(parts: Seq<PartView>, i: int) -> nat
    decreases parts.len() - i,
{
    if i < 0 || i >= parts.len() {
        0
    } else if parts[i] is Label {
        names_from(parts, i + 1)
    } else {
        1 + names_from(parts, i + 1)
    }
}

/// The number of names that the parts hold.
pub open spec fn names_in(parts: Seq<PartView>) -> nat {
    names_from(parts, 0)
}

/// A plain part has eight bits for each of its bytes.
pub proof fn lemma_part_bits_len(part: PartView)
    requires
        plain_part(part),
    ensures
        part_bits(part).len() == 8 * part.size(),
{
    lemma_low_bits_len(3, 2);
    lemma_low_bits_len(0, 8);
    match part {
        PartView::Label { len, string } => {
            lemma_low_bits_len(len as nat, 8);
            lemma_ascii_chars_of_bytes(string);
            lemma_bytes_bits_len(encode_utf8(string));
        },
        PartView::Pointer { pos } => {
            lemma_low_bits_len(pos as nat, 14);
        },
        PartView::End => {},
    }
}

/// The offsets of the first parts do not depend on the last part.
pub proof fn lemma_offset_without_last(parts: Seq<PartView>, i: int)
    requires
        parts.len() > 0,
        0 <= i < parts.len(),
    ensures
        offset_of(parts.drop_last(), i) == offset_of(parts, i),
    decreases i,
{
    if i > 0 {
        lemma_offset_without_last(parts, i - 1);
    }
}

/// The bits of plain parts are eight for each byte, and the bits of the
/// part of index `i` stand where the part starts.
pub proof fn lemma_bits_of_part(parts: Seq<PartView>, i: int)
    requires
        forall|k: int| 0 <= k < parts.len() ==> plain_part(#[trigger] parts[k]),
        0 <= i < parts.len(),
    ensures
        parts_bits(parts).len() == 8 * total_size(parts),
        parts_bits(parts).subrange(
            8 * offset_of(parts, i),
            8 * offset_of(parts, i) + 8 * parts[i].size(),
        ) == part_bits(parts[i]),
    decreases parts.len(),
{
    let init = parts.drop_last();
    let last = parts.last();
    lemma_part_bits_len(last);
    lemma_offsets_grow(parts, i, parts.len() - 1);
    assert(offset_of(parts, parts.len() as int) == offset_of(parts, parts.len() - 1) + last.size());
    lemma_offset_without_last(parts, parts.len() - 1);
    if init.len() > 0 {
        assert forall|k: int| 0 <= k < init.len() implies plain_part(#[trigger] init[k]) by {
            assert(init[k] == parts[k]);
        }
        lemma_bits_of_part(init, 0);
    }
    assert(parts_bits(init).len() == 8 * offset_of(parts, parts.len() - 1));
    if i == parts.len() - 1 {
        assert((parts_bits(init) + part_bits(last)).subrange(
            8 * offset_of(parts, i),
            8 * offset_of(parts, i) + 8 * last.size(),
        ) =~= part_bits(last));
    } else {
        lemma_bits_of_part(init, i);
        lemma_offset_without_last(parts, i);
        lemma_offsets_grow(parts, i + 1, parts.len() - 1);
        assert(offset_of(parts, i + 1) == offset_of(parts, i) + parts[i].size());
        assert((parts_bits(init) + part_bits(last)).subrange(
            8 * offset_of(parts, i),
            8 * offset_of(parts, i) + 8 * parts[i].size(),
        ) =~= parts_bits(init).subrange(
            8 * offset_of(init, i),
            8 * offset_of(init, i) + 8 * init[i].size(),
        ));
    }
}

/// Where the bytes hold the bits of plain parts, the part of index `i` is
/// read where it starts.
pub proof fn lemma_part_reads_back(parts: Seq<PartView>, bytes: Seq<u8>, i: int)
    requires
        forall|k: int| 0 <= k < parts.len() ==> plain_part(#[trigger] parts[k]),
        holds_bits(bytes, parts_bits(parts)),
        0 <= i < parts.len(),
    ensures
        part_at_bits(bytes, 8 * offset_of(parts, i)) == Ok::<(PartView, int), PacketError>(
            (parts[i], 8 * parts[i].size()),
        ),
{
    reveal(part_at_bits);
    let bits = parts_bits(parts);
    let part = parts[i];
    let at = 8 * offset_of(parts, i);
    let own = part_bits(part);
    lemma_bits_of_part(parts, i);
    lemma_part_bits_len(part);
    lemma_offsets_grow(parts, 0, i);
    lemma_offsets_grow(parts, i, i + 1);
    lemma_offsets_grow(parts, i + 1, parts.len() as int);
    assert(offset_of(parts, i + 1) == offset_of(parts, i) + part.size());
    let size = part.size();
    assert(at + 8 * size <= bits.len());
    assert(bits.subrange(at, at + 8) =~= own.subrange(0, 8));
    assert(bits.subrange(at, at + 2) =~= own.subrange(0, 2));
    lemma_value_of_held_bits(bytes, bits, at, 8);
    lemma_value_of_held_bits(bytes, bits, at, 2);
    lemma2_to64();
    match part {
        PartView::End => {
            lemma_low_bits_len(0, 8);
            assert(own.subrange(0, 8) =~= number_bits(0, 8));
            lemma_number_bits_of_small(0, 8);
        },
        PartView::Pointer { pos } => {
            let mark = number_bits(3, 2);
            let offset = number_bits(pos as nat, 14);
            lemma_low_bits_len(3, 2);
            lemma_low_bits_len(pos as nat, 14);
            lemma_number_bits_of_small(3, 2);
            lemma_number_bits_of_small(pos as nat, 14);
            assert(own.subrange(0, 2) =~= mark);
            assert(own.subrange(0, 8) =~= mark + offset.subrange(0, 6));
            lemma_number_of_joined_bits(mark, offset.subrange(0, 6));
            assert(own.subrange(2, 16) =~= offset);
            assert(bits.subrange(at + 2, at + 16) =~= bits.subrange(at, at + 8 * size).subrange(
                2,
                16,
            ));
            lemma_value_of_held_bits(bytes, bits, at + 2, 14);
        },
        PartView::Label { len, string } => {
            let length = number_bits(len as nat, 8);
            let text = encode_utf8(string);
            lemma_low_bits_len(len as nat, 8);
            lemma_ascii_chars_of_bytes(string);
            lemma_bytes_bits_len(text);
            lemma_number_bits_of_small(len as nat, 8);
            assert(own.subrange(0, 8) =~= length);
            lemma_label_length_starts_with_zeros(len);
            assert(own.subrange(0, 2) =~= length.subrange(0, 2));
            assert forall|k: int| 0 <= k < len implies #[trigger] bits_value(
                bytes,
                at + 8 + 8 * k,
                8,
            ) == text[k] by {
                lemma_value_of_held_bits(bytes, bits, at + 8 + 8 * k, 8);
                lemma_bits_of_byte(text, k);
                assert(own.subrange(8 + 8 * k, 16 + 8 * k) =~= bytes_bits(text).subrange(
                    8 * k,
                    8 * k + 8,
                ));
                assert(bits.subrange(at + 8 + 8 * k, at + 8 + 8 * k + 8) =~= bits.subrange(
                    at,
                    at + 8 * size,
                ).subrange(8 + 8 * k, 16 + 8 * k));
                lemma_number_bits_of_small(text[k] as nat, 8);
            }
            assert(octets_at(bytes, at + 8, len as nat) =~= text);
        },
    }
}

/// The first two bits of the length of a plain label are zero.
pub proof fn lemma_label_length_starts_with_zeros(len: u8)
    requires
        len <= 63,
    ensures
        bits_number(number_bits(len as nat, 8).subrange(0, 2)) == 0,
{
    let bits = number_bits(len as nat, 8);
    let head = bits.subrange(0, 2);
    let tail = bits.subrange(2, 8);
    lemma_low_bits_len(len as nat, 8);
    lemma2_to64();
    lemma_number_bits_of_small(len as nat, 8);
    assert(bits =~= head + tail);
    lemma_number_of_joined_bits(head, tail);
    lemma_bits_number_bound(tail);
    assert(bits_number(head) * 64 + bits_number(tail) == len);
}

/// Where plain parts run up to the end of a name, there is a name from any
/// part on.
pub proof fn lemma_names_from_positive(parts: Seq<PartView>, i: int)
    requires
        0 <= i < parts.len(),
        !(parts.last() is Label),
    ensures
        names_from(parts, i) > 0,
    decreases parts.len() - i,
{
    if i < parts.len() - 1 {
        lemma_names_from_positive(parts, i + 1);
    }
}

/// Where the bytes hold the bits of plain parts, the parts from the part
/// of index `i` on are read back from where that part starts.
pub proof fn lemma_parts_read_back_from(parts: Seq<PartView>, bytes: Seq<u8>, i: int)
    requires
        plain_parts(parts),
        holds_bits(bytes, parts_bits(parts)),
        0 <= i <= parts.len(),
    ensures
        parts_at_bits(bytes, 8 * offset_of(parts, i), names_from(parts, i), 0) == Ok::<
            (Seq<PartView>, int),
            PacketError,
        >((parts.subrange(i, parts.len() as int), 8 * (bytes.len() as int))),
    decreases parts.len() - i,
{
    if parts.len() > 0 {
        lemma_bits_of_part(parts, 0);
    } else {
        assert(parts_bits(parts).len() == 0);
    }
    if i == parts.len() {
        assert(parts.subrange(i, parts.len() as int) =~= Seq::<PartView>::empty());
    } else {
        let at = 8 * offset_of(parts, i);
        lemma_offsets_grow(parts, 0, i);
        lemma_offsets_grow(parts, i, i + 1);
        assert(offset_of(parts, i + 1) == offset_of(parts, i) + parts[i].size());
        lemma_part_reads_back(parts, bytes, i);
        lemma_names_from_positive(parts, i);
        lemma_parts_read_back_from(parts, bytes, i + 1);
        assert(seq![parts[i]] + parts.subrange(i + 1, parts.len() as int) =~= parts.subrange(
            i,
            parts.len() as int,
        ));
    }
}

/// Names that are written part by part are read back part by part: where
/// the bytes hold the bits of plain parts, reading as many names as the
/// parts hold gives the parts, and with them the names and their offsets,
/// and ends at the end of the bytes.
pub proof fn lemma_parts_roundtrip(parts: Seq<PartView>, bytes: Seq<u8>)
    requires
        plain_parts(parts),
        holds_bits(bytes, parts_bits(parts)),
    ensures
        parts_at_bits(bytes, 0, names_in(parts), 0) == Ok::<(Seq<PartView>, int), PacketError>(
            (parts, 8 * (bytes.len() as int)),
        ),
        domains_of(parts_at_bits(bytes, 0, names_in(parts), 0)->Ok_0.0) == domains_of(parts),
{
    lemma_parts_read_back_from(parts, bytes, 0);
    assert(parts.subrange(0, parts.len() as int) =~= parts);
}

} // verus!
