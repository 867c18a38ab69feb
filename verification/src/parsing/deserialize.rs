use vstd::arithmetic::power2::{lemma2_to64, lemma_pow2_unfold, pow2};
use vstd::prelude::*;

use crate::errors::PacketError;
use crate::parsing::serialize::bit_at;
use crate::protocol::packet_buffer::PacketBuffer;

verus! {

/// Bytes that are read bit by bit: the bytes that are left, and the number
/// of bits of the first byte that have been read already.
pub type BitInput<'a> = (&'a [u8], usize);

/// `nom::Err`, the error of a nom parser. Nothing is known of what it holds.
#[verifier::external_type_specification]
#[verifier::external_body]
#[verifier::reject_recursive_types(E)]
pub struct ExNomErr<E>(nom::Err<E>);

/// `nom::error::Error`, the input and the kind of an error of a nom parser.
/// Nothing is known of what it holds.
#[verifier::external_type_specification]
#[verifier::external_body]
#[verifier::reject_recursive_types(I)]
pub struct ExNomError<I>(nom::error::Error<I>);

/// The number that the `count` bits from the bit of index `start` on stand
/// for, the first of them being the most significant.
pub open spec fn bits_value(bytes: Seq<u8>, start: int, count: nat) -> nat
    decreases count,
{
    if count == 0 {
        0
    } else {
        2 * bits_value(bytes, start, (count - 1) as nat) + if bit_at(bytes, start + count - 1) {
            1nat
        } else {
            0nat
        }
    }
}

/// Whether `count` bits can be taken from an input of `len` bytes of which
/// `offset` bits have been read.
pub open spec fn has_bits(len: int, offset: int, count: int) -> bool {
    count == 0 || offset + count <= 8 * len
}

/// The bytes that are left of `bytes` once `bits` bits have been read.
pub open spec fn bytes_left(bytes: Seq<u8>, bits: int) -> Seq<u8> {
    bytes.subrange(bits / 8, bytes.len() as int)
}

/// `nom::bits::complete::take` with a count reads that many bits, the
/// first of them being the most significant bit of the number it gives, and
/// hands back the input behind them. It fails where the input has fewer
/// bits, and only there. It shifts by up to the count and by the bit
/// offset, and multiplies the input's length by 8: the requirements keep
/// these within what the machine's numbers hold.
#[verifier::external_body]
fn nom_take_bits<'a>(input: (&'a [u8], usize), count: usize) -> (r: Result<
    ((&'a [u8], usize), u64),
    nom::Err<nom::error::Error<(&'a [u8], usize)>>,
>)
    requires
        input.1 < 8,
        count <= 64,
        input.0@.len() * 8 <= usize::MAX,
    ensures
        r is Ok <==> has_bits(input.0@.len() as int, input.1 as int, count as int),
        r is Ok ==> r->Ok_0.0.0@ == bytes_left(input.0@, input.1 + count) && r->Ok_0.0.1 == (
        input.1 + count) % 8 && r->Ok_0.1 == bits_value(input.0@, input.1 as int, count as nat),
{
    nom::bits::complete::take(count)(input)
}

/// Whether an input can be read bit by bit: fewer than 8 bits of its first
/// byte have been read, and the number of its bits fits a `usize`.
pub open spec fn readable(input: BitInput) -> bool {
    input.1 < 8 && input.0@.len() * 8 <= usize::MAX
}

/// What taking `count` bits from the bytes gives, `offset` bits of the
/// first byte having been read: what is left of the bytes, the number of
/// bits of its first byte that have been read, and the number that the bits
/// stand for; or a buffer underrun where there are fewer bits.
pub open spec fn taken(bytes: Seq<u8>, offset: int, count: nat) -> Result<
    (Seq<u8>, int, nat),
    PacketError,
> {
    if has_bits(bytes.len() as int, offset, count as int) {
        Ok(
            (
                bytes_left(bytes, offset + count),
                (offset + count) % 8,
                bits_value(bytes, offset, count),
            ),
        )
    } else {
        Err(PacketError::BufferUnderrun)
    }
}

/// Takes `num_bits` bits, at most 64, and gives the number they stand for.
pub fn take_n_bits<'a>(input: BitInput<'a>, num_bits: usize) -> (r: Result<
    (BitInput<'a>, u64),
    PacketError,
>)
    requires
        readable(input),
        num_bits <= 64,
    ensures
        match taken(input.0@, input.1 as int, num_bits as nat) {
            Ok((rest, offset, value)) => r is Ok && r->Ok_0.0.0@ == rest && r->Ok_0.0.1 == offset
                && r->Ok_0.1 == value && readable(r->Ok_0.0),
            Err(e) => r == Err::<(BitInput<'a>, u64), PacketError>(e),
        },
{
    match nom_take_bits(input, num_bits) {
        Ok((rest, value)) => Ok((rest, value)),
        Err(_) => Err(PacketError::BufferUnderrun),
    }
}

/// `count` bits stand for a number below 2 to the power of `count`.
pub proof fn lemma_bits_value_bound(bytes: Seq<u8>, start: int, count: nat)
    ensures
        bits_value(bytes, start, count) < pow2(count),
    decreases count,
{
    if count == 0 {
        lemma2_to64();
    } else {
        lemma_bits_value_bound(bytes, start, (count - 1) as nat);
        lemma_pow2_unfold(count);
    }
}

/// Takes 32 bits.
pub fn take_32bits<'a>(input: BitInput<'a>) -> (r: Result<(BitInput<'a>, u32), PacketError>)
    requires
        readable(input),
    ensures
        match taken(input.0@, input.1 as int, 32) {
            Ok((rest, offset, value)) => r is Ok && r->Ok_0.0.0@ == rest && r->Ok_0.0.1 == offset
                && r->Ok_0.1 == value && readable(r->Ok_0.0),
            Err(e) => r == Err::<(BitInput<'a>, u32), PacketError>(e),
        },
{
    proof {
        lemma_bits_value_bound(input.0@, input.1 as int, 32);
        lemma2_to64();
    }
    match take_n_bits(input, 32) {
        Ok((rest, num)) => Ok((rest, num as u32)),
        Err(e) => Err(e),
    }
}

/// Takes 16 bits.
pub fn take_16bits<'a>(input: BitInput<'a>) -> (r: Result<(BitInput<'a>, u16), PacketError>)
    requires
        readable(input),
    ensures
        match taken(input.0@, input.1 as int, 16) {
            Ok((rest, offset, value)) => r is Ok && r->Ok_0.0.0@ == rest && r->Ok_0.0.1 == offset
                && r->Ok_0.1 == value && readable(r->Ok_0.0),
            Err(e) => r == Err::<(BitInput<'a>, u16), PacketError>(e),
        },
{
    proof {
        lemma_bits_value_bound(input.0@, input.1 as int, 16);
        lemma2_to64();
    }
    match take_n_bits(input, 16) {
        Ok((rest, num)) => Ok((rest, num as u16)),
        Err(e) => Err(e),
    }
}

/// Takes 8 bits.
pub fn take_8bits<'a>(input: BitInput<'a>) -> (r: Result<(BitInput<'a>, u8), PacketError>)
    requires
        readable(input),
    ensures
        match taken(input.0@, input.1 as int, 8) {
            Ok((rest, offset, value)) => r is Ok && r->Ok_0.0.0@ == rest && r->Ok_0.0.1 == offset
                && r->Ok_0.1 == value && readable(r->Ok_0.0),
            Err(e) => r == Err::<(BitInput<'a>, u8), PacketError>(e),
        },
{
    proof {
        lemma_bits_value_bound(input.0@, input.1 as int, 8);
        lemma2_to64();
    }
    match take_n_bits(input, 8) {
        Ok((rest, num)) => Ok((rest, num as u8)),
        Err(e) => Err(e),
    }
}

/// Takes 4 bits.
pub fn take_4bits<'a>(input: BitInput<'a>) -> (r: Result<(BitInput<'a>, u8), PacketError>)
    requires
        readable(input),
    ensures
        match taken(input.0@, input.1 as int, 4) {
            Ok((rest, offset, value)) => r is Ok && r->Ok_0.0.0@ == rest && r->Ok_0.0.1 == offset
                && r->Ok_0.1 == value && readable(r->Ok_0.0),
            Err(e) => r == Err::<(BitInput<'a>, u8), PacketError>(e),
        },
{
    proof {
        lemma_bits_value_bound(input.0@, input.1 as int, 4);
        lemma2_to64();
    }
    match take_n_bits(input, 4) {
        Ok((rest, num)) => Ok((rest, num as u8)),
        Err(e) => Err(e),
    }
}

/// Takes 3 bits.
pub fn take_3bits<'a>(input: BitInput<'a>) -> (r: Result<(BitInput<'a>, u8), PacketError>)
    requires
        readable(input),
    ensures
        match taken(input.0@, input.1 as int, 3) {
            Ok((rest, offset, value)) => r is Ok && r->Ok_0.0.0@ == rest && r->Ok_0.0.1 == offset
                && r->Ok_0.1 == value && readable(r->Ok_0.0),
            Err(e) => r == Err::<(BitInput<'a>, u8), PacketError>(e),
        },
{
    proof {
        lemma_bits_value_bound(input.0@, input.1 as int, 3);
        lemma2_to64();
    }
    match take_n_bits(input, 3) {
        Ok((rest, num)) => Ok((rest, num as u8)),
        Err(e) => Err(e),
    }
}

/// Takes one bit and says whether it is set.
pub fn take_1bit_bool<'a>(input: BitInput<'a>) -> (r: Result<(BitInput<'a>, bool), PacketError>)
    requires
        readable(input),
    ensures
        match taken(input.0@, input.1 as int, 1) {
            Ok((rest, offset, value)) => r is Ok && r->Ok_0.0.0@ == rest && r->Ok_0.0.1 == offset
                && r->Ok_0.1 == (value == 1) && readable(r->Ok_0.0),
            Err(e) => r == Err::<(BitInput<'a>, bool), PacketError>(e),
        },
{
    match take_n_bits(input, 1) {
        Ok((rest, num)) => Ok((rest, num == 1)),
        Err(e) => Err(e),
    }
}

/// The numbers that `count` groups of 8 bits stand for, from the bit of
/// index `start` on.
pub open spec fn octets_at(bytes: Seq<u8>, start: int, count: nat) -> Seq<u8> {
    Seq::new(count, |i: int| bits_value(bytes, start + 8 * i, 8) as u8)
}

/// Bits that are left behind bits that are left are bits that are left.
pub proof fn lemma_bits_value_left(bytes: Seq<u8>, skipped: int, start: int, count: nat)
    requires
        0 <= skipped,
        0 <= start,
        skipped / 8 * 8 + start + count <= 8 * bytes.len(),
    ensures
        bits_value(bytes_left(bytes, skipped), start, count) == bits_value(
            bytes,
            skipped / 8 * 8 + start,
            count,
        ),
    decreases count,
{
    if count > 0 {
        lemma_bits_value_left(bytes, skipped, start, (count - 1) as nat);
        let i = start + count - 1;
        let k = skipped / 8;
        assert((k * 8 + i) / 8 == k + i / 8 && (k * 8 + i) % 8 == i % 8) by (nonlinear_arith)
            requires
                0 <= i,
                0 <= k,
        ;
    }
}

/// Groups of 8 bits that are left behind bits that are left.
pub proof fn lemma_octets_left(bytes: Seq<u8>, skipped: int, start: int, count: nat)
    requires
        0 <= skipped,
        0 <= start,
        skipped / 8 * 8 + start + 8 * count <= 8 * bytes.len(),
    ensures
        octets_at(bytes_left(bytes, skipped), start, count) == octets_at(
            bytes,
            skipped / 8 * 8 + start,
            count,
        ),
{
    assert forall|i: int| 0 <= i < count implies #[trigger] bits_value(
        bytes_left(bytes, skipped),
        start + 8 * i,
        8,
    ) == bits_value(bytes, skipped / 8 * 8 + start + 8 * i, 8) by {
        lemma_bits_value_left(bytes, skipped, start + 8 * i, 8);
    }
    assert(octets_at(bytes_left(bytes, skipped), start, count) =~= octets_at(
        bytes,
        skipped / 8 * 8 + start,
        count,
    ));
}

/// What is left behind `b` bits of what is left behind `a` bits is what is
/// left behind `a + b` bits.
pub proof fn lemma_bytes_left_twice(bytes: Seq<u8>, a: int, b: int)
    requires
        0 <= a,
        0 <= b,
        a + b <= 8 * bytes.len(),
    ensures
        bytes_left(bytes_left(bytes, a), a % 8 + b) == bytes_left(bytes, a + b),
        (a % 8 + b) % 8 == (a + b) % 8,
        bytes_left(bytes, a).len() == bytes.len() - a / 8,
{
    assert(a / 8 + (a % 8 + b) / 8 == (a + b) / 8);
    assert(bytes_left(bytes_left(bytes, a), a % 8 + b) =~= bytes_left(bytes, a + b));
}

/// Takes `num_bytes` groups of 8 bits.
pub fn take_vec_of_n_bytes<'a>(input: BitInput<'a>, num_bytes: u16) -> (r: Result<
    (BitInput<'a>, Vec<u8>),
    PacketError,
>)
    requires
        readable(input),
    ensures
        has_bits(input.0@.len() as int, input.1 as int, 8 * num_bytes) ==> r is Ok
            && r->Ok_0.0.0@ == bytes_left(input.0@, input.1 + 8 * num_bytes) && r->Ok_0.0.1
            == input.1 && r->Ok_0.1@ == octets_at(input.0@, input.1 as int, num_bytes as nat)
            && readable(r->Ok_0.0),
        !has_bits(input.0@.len() as int, input.1 as int, 8 * num_bytes) ==> r == Err::<
            (BitInput<'a>, Vec<u8>),
            PacketError,
        >(PacketError::BufferUnderrun),
{
    let ghost bytes = input.0@;
    let ghost offset = input.1 as int;
    let mut rest = input;
    let mut out: Vec<u8> = Vec::new();
    let mut i: u16 = 0;
    proof {
        assert(bytes_left(bytes, offset) =~= bytes);
    }
    while i < num_bytes
        invariant
            i <= num_bytes,
            bytes == input.0@,
            offset == input.1,
            0 <= offset < 8,
            bytes.len() * 8 <= usize::MAX,
            readable(rest),
            has_bits(bytes.len() as int, offset, 8 * i),
            rest.0@ == bytes_left(bytes, offset + 8 * i),
            rest.1 == offset,
            out@ == octets_at(bytes, offset, i as nat),
        decreases num_bytes - i,
    {
        proof {
            if has_bits(rest.0@.len() as int, offset, 8) {
                lemma_bits_value_left(bytes, offset + 8 * i, offset, 8);
            }
            assert((offset + 8 * i) / 8 == i && (offset + 8 * i) / 8 * 8 == 8 * i);
        }
        match take_8bits(rest) {
            Ok((next, byte)) => {
                proof {
                    assert((offset + 8) / 8 == 1 && (offset + 8) % 8 == offset);
                    assert((offset + 8 * (i + 1)) / 8 == i + 1);
                    assert(next.0@ =~= bytes_left(bytes, offset + 8 * (i + 1)));
                }
                out.push(byte);
                rest = next;
                proof {
                    assert(out@ =~= octets_at(bytes, offset, (i + 1) as nat));
                }
            },
            Err(e) => {
                proof {
                    assert(rest.0@.len() == bytes.len() - i);
                }
                return Err(e);
            },
        }
        i += 1;
    }
    Ok((rest, out))
}

/// What can be read from a message buffer.
pub trait Deserialize<T> {
    /// Reads a value from the buffer, from the cursor on.
    fn deserialize(packet_buffer: &mut PacketBuffer) -> Result<T, PacketError> where Self: Sized;
}

} // verus!
