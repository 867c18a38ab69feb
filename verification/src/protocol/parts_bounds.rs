//! Names that are read part by part from bytes that were cut short are not
//! read: what is read lies within the bytes. And a pointer that does not
//! point back ends the reading.

use vstd::prelude::*;

use crate::errors::PacketError;
use crate::parsing::deserialize::{bits_value, octets_at};
use crate::protocol::domain_names::{
    lemma_part_size, lemma_parts_step, part_at_bits, parts_at_bits, PartView,
};

verus! {

/// Whether `short` holds the first bytes of `bytes`.
pub open spec fn cut_from(short: Seq<u8>, bytes: Seq<u8>) -> bool {
    short.len() <= bytes.len() && short == bytes.subrange(0, short.len() as int)
}

/// Bits that stand before the cut are the same in the bytes that were cut.
pub proof fn lemma_bits_before_cut(short: Seq<u8>, bytes: Seq<u8>, start: int, count: nat)
    requires
        cut_from(short, bytes),
        0 <= start,
        start + count <= 8 * short.len(),
    ensures
        bits_value(short, start, count) == bits_value(bytes, start, count),
    decreases count,
{
    if count > 0 {
        lemma_bits_before_cut(short, bytes, start, (count - 1) as nat);
        let i = start + count - 1;
        assert(short[i / 8] == bytes[i / 8]);
    }
}

/// A part that stands before the cut is read as it was; a part that the
/// cut runs through is not read.
pub proof fn lemma_part_cut(short: Seq<u8>, bytes: Seq<u8>, at: int)
    requires
        cut_from(short, bytes),
        0 <= at,
        part_at_bits(bytes, at) is Ok,
    ensures
        at + part_at_bits(bytes, at)->Ok_0.1 <= 8 * short.len() ==> part_at_bits(short, at)
            == part_at_bits(bytes, at),
        at + part_at_bits(bytes, at)->Ok_0.1 > 8 * short.len() ==> part_at_bits(short, at)
            == Err::<(PartView, int), PacketError>(PacketError::BufferUnderrun),
{
    reveal(part_at_bits);
    lemma_part_size(bytes, at);
    if at + 8 <= 8 * short.len() {
        lemma_bits_before_cut(short, bytes, at, 8);
        lemma_bits_before_cut(short, bytes, at, 2);
        if at + 16 <= 8 * short.len() {
            lemma_bits_before_cut(short, bytes, at + 2, 14);
        }
        let n = bits_value(bytes, at, 8);
        if at + 8 + 8 * n <= 8 * short.len() {
            assert forall|k: int| 0 <= k < n implies #[trigger] bits_value(short, at + 8 + 8 * k, 8)
                == bits_value(bytes, at + 8 + 8 * k, 8) by {
                lemma_bits_before_cut(short, bytes, at + 8 + 8 * k, 8);
            }
            assert(octets_at(short, at + 8, n) =~= octets_at(bytes, at + 8, n));
        }
    }
}

/// Names that are read from bytes are not read from the same bytes cut
/// short within what was read: reading fails with a buffer underrun.
pub proof fn lemma_cut_names_are_not_read(
    short: Seq<u8>,
    bytes: Seq<u8>,
    at: int,
    count: nat,
    start: int,
)
    requires
        cut_from(short, bytes),
        0 <= at,
        parts_at_bits(bytes, at, count, start) is Ok,
        8 * short.len() < parts_at_bits(bytes, at, count, start)->Ok_0.1,
        at <= 8 * short.len(),
    ensures
        parts_at_bits(short, at, count, start) == Err::<(Seq<PartView>, int), PacketError>(
            PacketError::BufferUnderrun,
        ),
    decreases 8 * bytes.len() - at,
{
    if count > 0 {
        lemma_parts_step(bytes, at, count, start);
        lemma_parts_step(short, at, count, start);
        lemma_part_size(bytes, at);
        lemma_part_cut(short, bytes, at);
        let (part, bits) = part_at_bits(bytes, at)->Ok_0;
        if at + bits <= 8 * short.len() {
            let next = if part is Label {
                count
            } else {
                (count - 1) as nat
            };
            lemma_cut_names_are_not_read(short, bytes, at + bits, next, start);
        }
    }
}

/// Where a pointer names its own byte offset or a later one, counted from
/// the bit at which reading started, the names are not read.
pub proof fn lemma_part_pointer_has_to_point_back(bytes: Seq<u8>, at: int, count: nat, start: int)
    requires
        0 <= at,
        count > 0,
        part_at_bits(bytes, at) is Ok,
        part_at_bits(bytes, at)->Ok_0.0 is Pointer,
        8 * part_at_bits(bytes, at)->Ok_0.0->pos >= at - start,
    ensures
        parts_at_bits(bytes, at, count, start) == Err::<(Seq<PartView>, int), PacketError>(
            PacketError::PointerCycle,
        ),
{
    lemma_parts_step(bytes, at, count, start);
}

} // verus!
