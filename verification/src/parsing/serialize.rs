use bitvec::order::Msb0;
use bitvec::vec::BitVec;
use vstd::arithmetic::power2::pow2;
use vstd::prelude::*;

verus! {

/// A growable sequence of bits: a `BitVec` of bytes whose first bit is the
/// most significant bit of the first byte.
#[verifier::external_body]
pub struct BitString {
    bits: BitVec<u8, Msb0>,
}

/// The bits that a bit string holds, the first one first.
pub uninterp spec fn bits_of(v: BitString) -> Seq<bool>;

/// The most bits that a bit vector can hold: an eighth of what a `usize` counts.
pub open spec fn max_bits() -> int {
    usize::MAX as int / 8
}

/// `BitVec::new` gives a bit vector without bits.
#[verifier::external_body]
fn bits_new() -> (r: BitString)
    ensures
        bits_of(r) == Seq::<bool>::empty(),
{
    BitString { bits: BitVec::new() }
}

/// `BitVec::push` puts one bit behind the others. It panics where the
/// vector holds as many bits as it can.
#[verifier::external_body]
fn bits_push(v: &mut BitString, value: bool)
    requires
        bits_of(*old(v)).len() < max_bits(),
    ensures
        bits_of(*final(v)) == bits_of(*old(v)).push(value),
{
    v.bits.push(value)
}

/// `BitSlice::reverse` turns the order of the bits round.
#[verifier::external_body]
fn bits_reverse(v: &mut BitString)
    ensures
        bits_of(*final(v)) == bits_of(*old(v)).reverse(),
{
    v.bits.reverse()
}

/// `BitVec::append` moves the bits of `other` behind those of `v` and
/// leaves `other` without bits. It panics where the bits of both are more
/// than a vector can hold.
#[verifier::external_body]
pub(crate) fn bits_append(v: &mut BitString, other: &mut BitString)
    requires
        bits_of(*old(v)).len() + bits_of(*old(other)).len() <= max_bits(),
    ensures
        bits_of(*final(v)) == bits_of(*old(v)) + bits_of(*old(other)),
        bits_of(*final(other)) == Seq::<bool>::empty(),
{
    v.bits.append(&mut other.bits)
}

/// The bit of index `i` of a sequence of bytes, counted from the most
/// significant bit of the first byte.
pub open spec fn bit_at(bytes: Seq<u8>, i: int) -> bool {
    (bytes[i / 8] as nat / pow2((7 - i % 8) as nat)) % 2 == 1
}

/// `BitVec::into_vec` gives the bytes that hold the bits: as many as it
/// takes to hold them, with the first bit in the most significant bit of
/// the first byte. What the last byte holds behind the last bit is open.
#[verifier::external_body]
fn bits_into_vec(v: BitString) -> (r: Vec<u8>)
    ensures
        r@.len() == (bits_of(v).len() + 7) / 8,
        forall|i: int| 0 <= i < bits_of(v).len() ==> bit_at(r@, i) == #[trigger] bits_of(v)[i],
{
    v.bits.into_vec()
}

/// The `count` low binary digits of `number`, the lowest first.
pub open spec fn low_bits(number: nat, count: nat) -> Seq<bool>
    decreases count,
{
    if count == 0 {
        Seq::empty()
    } else {
        seq![number % 2 == 1] + low_bits(number / 2, (count - 1) as nat)
    }
}

/// The `count` low binary digits of `number`, the highest first.
pub open spec fn number_bits(number: nat, count: nat) -> Seq<bool> {
    low_bits(number, count).reverse()
}

/// The eight bits of each byte, the highest first, byte after byte.
pub open spec fn bytes_bits(bytes: Seq<u8>) -> Seq<bool>
    decreases bytes.len(),
{
    if bytes.len() == 0 {
        Seq::empty()
    } else {
        bytes_bits(bytes.drop_last()) + number_bits(bytes.last() as nat, 8)
    }
}

/// There are as many digits as were asked for.
pub proof fn lemma_low_bits_len(number: nat, count: nat)
    ensures
        low_bits(number, count).len() == count,
    decreases count,
{
    if count > 0 {
        lemma_low_bits_len(number / 2, (count - 1) as nat);
    }
}

/// The `n_bits` low bits of `number`, the most significant first.
pub fn serialize_n_bits(n_bits: u8, number: u64) -> (r: BitString)
    ensures
        bits_of(r) == number_bits(number as nat, n_bits as nat),
        bits_of(r).len() == n_bits,
{
    let mut vec = BitString::new();
    let mut rest = number;
    let mut i: u8 = 0;
    while i < n_bits
        invariant
            i <= n_bits,
            bits_of(vec).len() == i,
            low_bits(number as nat, n_bits as nat) == bits_of(vec) + low_bits(
                rest as nat,
                (n_bits - i) as nat,
            ),
        decreases n_bits - i,
    {
        let ghost before = bits_of(vec);
        proof {
            assert(rest & 1 == rest % 2 && rest >> 1 == rest / 2) by (bit_vector);
        }
        bits_push(&mut vec, rest & 1 == 1);
        proof {
            let left = (n_bits - i - 1) as nat;
            assert(before + (seq![rest as nat % 2 == 1] + low_bits(rest as nat / 2, left))
                =~= before.push(rest & 1 == 1) + low_bits((rest >> 1) as nat, left));
        }
        rest = rest >> 1;
        i += 1;
    }
    proof {
        assert(bits_of(vec) + Seq::<bool>::empty() =~= bits_of(vec));
    }
    bits_reverse(&mut vec);
    vec
}

/// The eight bits of `num`, the most significant first.
pub fn serialize_byte(num: u8) -> (r: BitString)
    ensures
        bits_of(r) == number_bits(num as nat, 8),
        bits_of(r).len() == 8,
{
    serialize_n_bits(8, num as u64)
}

impl BitString {
    /// A bit string without bits.
    pub fn new() -> (r: BitString)
        ensures
            bits_of(r) == Seq::<bool>::empty(),
    {
        bits_new()
    }

    /// The bytes that hold the bits, the first bit in the most significant
    /// bit of the first byte.
    pub fn into_vec(self) -> (r: Vec<u8>)
        ensures
            r@.len() == (bits_of(self).len() + 7) / 8,
            forall|i: int|
                0 <= i < bits_of(self).len() ==> bit_at(r@, i) == #[trigger] bits_of(self)[i],
    {
        bits_into_vec(self)
    }
}

/// What can be written as bits.
pub trait Serialize {
    /// The bits that stand for the value.
    spec fn wire_bits(&self) -> Seq<bool>;

    /// The value as bits. There must not be more bits than a bit vector holds.
    fn serialize(&self) -> (r: BitString)
        requires
            self.wire_bits().len() <= max_bits(),
        ensures
            bits_of(r) == self.wire_bits(),
    ;
}

} // verus!
