//! How the bits that are written and the numbers that are read from bits
//! belong together.

use vstd::arithmetic::div_mod::{lemma_mod_breakdown, lemma_small_mod};
use vstd::arithmetic::power2::{lemma2_to64, lemma_pow2_pos, lemma_pow2_unfold, pow2};
use vstd::prelude::*;

use crate::parsing::deserialize::bits_value;
use crate::parsing::serialize::{bit_at, bytes_bits, lemma_low_bits_len, low_bits, number_bits};

verus! {

/// The number that a sequence of bits stands for, the first bit being the
/// most significant.
pub open spec fn bits_number(bits: Seq<bool>) -> nat
    decreases bits.len(),
{
    if bits.len() == 0 {
        0
    } else {
        2 * bits_number(bits.drop_last()) + if bits.last() {
            1nat
        } else {
            0nat
        }
    }
}

/// Whether the bytes hold the bits: the bit of index `i` of the bytes is
/// the bit of index `i`, for all the bits.
pub open spec fn holds_bits(bytes: Seq<u8>, bits: Seq<bool>) -> bool {
    &&& 8 * bytes.len() == bits.len()
    &&& forall|i: int| 0 <= i < bits.len() ==> bit_at(bytes, i) == #[trigger] bits[i]
}

/// The number that is read from bits of the bytes is the number that
/// these bits stand for.
pub proof fn lemma_value_of_held_bits(bytes: Seq<u8>, bits: Seq<bool>, start: int, count: nat)
    requires
        holds_bits(bytes, bits),
        0 <= start,
        start + count <= bits.len(),
    ensures
        bits_value(bytes, start, count) == bits_number(bits.subrange(start, start + count)),
    decreases count,
{
    if count > 0 {
        let whole = bits.subrange(start, start + count);
        lemma_value_of_held_bits(bytes, bits, start, (count - 1) as nat);
        assert(whole.drop_last() =~= bits.subrange(start, start + count - 1));
        assert(whole.last() == bits[start + count - 1]);
    }
}

/// The bits of a number, the highest first, are the bits of its half and
/// its lowest bit.
pub proof fn lemma_number_bits_unfold(number: nat, count: nat)
    requires
        count > 0,
    ensures
        number_bits(number, count) == number_bits(number / 2, (count - 1) as nat).push(
            number % 2 == 1,
        ),
        number_bits(number, count).len() == count,
{
    lemma_low_bits_len(number, count);
    lemma_low_bits_len(number / 2, (count - 1) as nat);
    let low = low_bits(number, count);
    let rest = low_bits(number / 2, (count - 1) as nat);
    assert(low =~= seq![number % 2 == 1] + rest);
    assert(low.reverse() =~= rest.reverse().push(number % 2 == 1));
}

/// The `count` low bits of a number stand for its remainder by 2 to the
/// power of `count`.
pub proof fn lemma_number_of_number_bits(number: nat, count: nat)
    ensures
        bits_number(number_bits(number, count)) == number % pow2(count),
        number_bits(number, count).len() == count,
    decreases count,
{
    lemma_low_bits_len(number, count);
    if count == 0 {
        lemma2_to64();
        assert(number_bits(number, 0) =~= Seq::<bool>::empty());
    } else {
        let shorter = (count - 1) as nat;
        lemma_number_bits_unfold(number, count);
        lemma_number_of_number_bits(number / 2, shorter);
        let bits = number_bits(number, count);
        assert(bits.drop_last() =~= number_bits(number / 2, shorter));
        assert(bits.last() == (number % 2 == 1));
        lemma_pow2_pos(shorter);
        lemma_pow2_unfold(count);
        lemma_mod_breakdown(number as int, 2, pow2(shorter) as int);
    }
}

/// The bits of a number below 2 to the power of `count` stand for the number.
pub proof fn lemma_number_bits_of_small(number: nat, count: nat)
    requires
        number < pow2(count),
    ensures
        bits_number(number_bits(number, count)) == number,
{
    lemma_number_of_number_bits(number, count);
    lemma_small_mod(number, pow2(count));
}

/// Bits put behind bits: the number is that of the first bits, shifted,
/// and that of the second bits.
pub proof fn lemma_number_of_joined_bits(first: Seq<bool>, second: Seq<bool>)
    ensures
        bits_number(first + second) == bits_number(first) * pow2(second.len()) + bits_number(
            second,
        ),
    decreases second.len(),
{
    if second.len() == 0 {
        lemma2_to64();
        assert(first + second =~= first);
    } else {
        let all = first + second;
        assert(all.drop_last() =~= first + second.drop_last());
        assert(all.last() == second.last());
        lemma_number_of_joined_bits(first, second.drop_last());
        lemma_pow2_unfold(second.len());
        assert(2 * (bits_number(first) * pow2((second.len() - 1) as nat)) == bits_number(first) * (2
            * pow2((second.len() - 1) as nat))) by (nonlinear_arith);
    }
}

/// Bits stand for a number below 2 to the power of their count.
pub proof fn lemma_bits_number_bound(bits: Seq<bool>)
    ensures
        bits_number(bits) < pow2(bits.len()),
    decreases bits.len(),
{
    if bits.len() == 0 {
        lemma2_to64();
    } else {
        lemma_bits_number_bound(bits.drop_last());
        lemma_pow2_unfold(bits.len());
    }
}

/// There are eight bits for each byte.
pub proof fn lemma_bytes_bits_len(bytes: Seq<u8>)
    ensures
        bytes_bits(bytes).len() == 8 * bytes.len(),
    decreases bytes.len(),
{
    if bytes.len() > 0 {
        lemma_bytes_bits_len(bytes.drop_last());
        lemma_low_bits_len(bytes.last() as nat, 8);
    }
}

/// The eight bits of the byte of index `i` stand in the bits of the bytes
/// from the index `8 * i` on.
pub proof fn lemma_bits_of_byte(bytes: Seq<u8>, i: int)
    requires
        0 <= i < bytes.len(),
    ensures
        bytes_bits(bytes).len() == 8 * bytes.len(),
        bytes_bits(bytes).subrange(8 * i, 8 * i + 8) == number_bits(bytes[i] as nat, 8),
    decreases bytes.len(),
{
    lemma_bytes_bits_len(bytes);
    lemma_bytes_bits_len(bytes.drop_last());
    lemma_low_bits_len(bytes.last() as nat, 8);
    let init = bytes_bits(bytes.drop_last());
    let last = number_bits(bytes.last() as nat, 8);
    if i == bytes.len() - 1 {
        assert((init + last).subrange(8 * i, 8 * i + 8) =~= last);
    } else {
        lemma_bits_of_byte(bytes.drop_last(), i);
        assert((init + last).subrange(8 * i, 8 * i + 8) =~= init.subrange(8 * i, 8 * i + 8));
    }
}

} // verus!
