//! Reading and writing bit fields of a 64-bit word.

use vstd::arithmetic::power2::pow2;
use vstd::bits::{
    lemma_u64_low_bits_mask_is_mod, lemma_u64_pow2_no_overflow, lemma_u64_shl_is_mul,
    lemma_u64_shr_is_div, low_bits_mask,
};
use vstd::prelude::*;

verus! {

/// The mask with the `length` lowest bits set.
pub open spec fn low_mask(length: u64) -> u64 {
    ((1u64 << length) - 1) as u64
}

/// The field of `length` bits that starts at bit `position` of `value`.
pub open spec fn spec_get_bits(value: u64, position: u64, length: u64) -> u64 {
    (value >> position) & low_mask(length)
}

/// `input` with the field of `length` bits at bit `position` replaced by the
/// low bits of `value`.
pub open spec fn spec_set_bits(input: u64, position: u64, length: u64, value: u64) -> u64 {
    (input & !(low_mask(length) << position)) | ((value << position) & (low_mask(length)
        << position))
}

/// The word for a flag: one where it is set, zero where it is not.
pub open spec fn flag(enable: bool) -> u64 {
    if enable {
        1
    } else {
        0
    }
}

/// Reads the field of `length` bits that starts at bit `position`.
pub fn get_bits(value: u64, position: u64, length: u64) -> (field: u64)
    requires
        position < 64,
        length < 64,
    ensures
        field == spec_get_bits(value, position, length),
{
    assert((1u64 << length) >= 1) by (bit_vector)
        requires
            length < 64,
    ;
    let mask: u64 = (1u64 << length) - 1;
    (value >> position) & mask
}

/// Reads the bit at `position`: one or zero.
pub fn get_bit(value: u64, position: u64) -> (bit: u64)
    requires
        position < 64,
    ensures
        bit == spec_get_bits(value, position, 1),
        bit == 0 || bit == 1,
{
    let bit = get_bits(value, position, 1);
    assert(spec_get_bits(value, position, 1) == 0 || spec_get_bits(value, position, 1) == 1)
        by (bit_vector)
        requires
            position < 64,
    ;
    bit
}

/// Replaces the field of `length` bits at bit `position` of `input` by the
/// low bits of `value`; what of the field lies beyond bit 63 is dropped.
pub fn set_bits(input: &mut u64, position: u64, length: u64, value: u64)
    requires
        position < 64,
        length < 64,
    ensures
        *final(input) == spec_set_bits(*old(input), position, length, value),
{
    assert((1u64 << length) >= 1) by (bit_vector)
        requires
            length < 64,
    ;
    let mut mask: u64 = (1u64 << length) - 1;
    mask = mask << position;
    *input = *input & !mask;
    *input = *input | ((value << position) & mask);
}

/// Sets or clears the bit at `position` of `input`.
pub fn set_bit(input: &mut u64, position: u64, enable: bool)
    requires
        position < 64,
    ensures
        *final(input) == spec_set_bits(*old(input), position, 1, flag(enable)),
{
    let value: u64 = if enable {
        1
    } else {
        0
    };
    set_bits(input, position, 1, value)
}

/// In numbers: the field is what is left of `value`, divided by two to the
/// power `position`, after division by two to the power `length`.
pub proof fn lemma_get_bits_value(value: u64, position: u64, length: u64)
    requires
        position < 64,
        length < 64,
    ensures
        spec_get_bits(value, position, length) == (value as nat / pow2(position as nat)) % pow2(
            length as nat,
        ),
{
    lemma_u64_shr_is_div(value, position);
    lemma_u64_pow2_no_overflow(length as nat);
    lemma_u64_shl_is_mul(1, length);
    assert(low_mask(length) == low_bits_mask(length as nat));
    lemma_u64_low_bits_mask_is_mod(value >> position, length as nat);
}

/// A field reads back as it was written, cut to its length, where it lies
/// inside the word.
pub proof fn lemma_get_after_set(input: u64, position: u64, length: u64, value: u64)
    by (bit_vector)
    requires
        position < 64,
        length < 64,
        position + length <= 64,
    ensures
        spec_get_bits(spec_set_bits(input, position, length, value), position, length) == value
            & low_mask(length),
{
}

/// Writing a field leaves every bit outside it as it was.
pub proof fn lemma_set_keeps_others(input: u64, position: u64, length: u64, value: u64, other: u64)
    by (bit_vector)
    requires
        position < 64,
        length < 64,
        other < 64,
        other < position || other >= position + length,
    ensures
        spec_get_bits(spec_set_bits(input, position, length, value), other, 1) == spec_get_bits(
            input,
            other,
            1,
        ),
{
}

} // verus!
