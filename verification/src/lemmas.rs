//! Facts about the model that the proofs of the buffer's operations rest on:
//! how the field of a number splits into bytes, how the value of a field adds up
//! from its parts, and how writes in a row combine.

use crate::model::{bit_of, byte_bits, bytes_at, field_bits, field_value, BitBufView};
use vstd::arithmetic::div_mod::{lemma_breakdown, lemma_small_mod};
use vstd::arithmetic::mul::{lemma_mul_is_associative, lemma_mul_is_distributive_add};
use vstd::arithmetic::power2::{lemma2_to64, lemma_pow2_pos, lemma_pow2_unfold, pow2};
use vstd::prelude::*;

verus! {

proof fn lemma_shifted_bit(v: u64, k: u64, j: u64, kj: u64)
    by (bit_vector)
    requires
        kj == k + j,
        kj < 64,
    ensures
        ((v >> k) >> j) & 1 == (v >> kj) & 1,
{
}

/// Shifting a number right by `k` drops the first `k` bits of its field.
pub proof fn lemma_field_bits_split(v: u64, width: nat, k: nat)
    requires
        k <= width <= 64,
    ensures
        field_bits(v, width) == field_bits(v, k) + field_bits(v >> (k as u64), (width - k) as nat),
{
    let rest = field_bits(v >> (k as u64), (width - k) as nat);
    assert forall|i: int| 0 <= i < width - k implies rest[i] == bit_of(v, k + i) by {
        lemma_shifted_bit(v, k as u64, i as u64, (k + i) as u64);
    }
    assert(field_bits(v, width) =~= field_bits(v, k) + rest);
}

/// The field of the low `width` bits of `v` stands for `v` modulo `2^width`.
pub proof fn lemma_field_value_of_field_bits(v: u64, width: nat)
    requires
        width <= 64,
    ensures
        field_value(field_bits(v, width)) == (v as nat) % pow2(width),
    decreases width,
{
    if width == 0 {
        lemma2_to64();
    } else {
        let half = v >> 1;
        let rest = (width - 1) as nat;
        assert(field_bits(v, width).drop_first() =~= field_bits(half, rest)) by {
            assert forall|i: int| 0 <= i < rest implies bit_of(half, i) == bit_of(v, i + 1) by {
                lemma_shifted_bit(v, 1, i as u64, (i + 1) as u64);
            }
        }
        lemma_field_value_of_field_bits(half, rest);
        assert(v & 1 == v % 2 && v >> 1 == v / 2 && (v >> 0) == v) by (bit_vector);
        lemma_pow2_unfold(width);
        lemma_pow2_pos(rest);
        lemma_breakdown(v as int, 2, pow2(rest) as int);
    }
}

/// A number that fits in `width` bits is the value of its own field.
pub proof fn lemma_field_value_of_small(v: u64, width: nat)
    requires
        width <= 64,
        v < pow2(width),
    ensures
        field_value(field_bits(v, width)) == v,
{
    lemma_field_value_of_field_bits(v, width);
    lemma_small_mod(v as nat, pow2(width));
}

/// The value of two fields laid end to end: the second counts from where the
/// first stops.
pub proof fn lemma_field_value_append(low: Seq<bool>, high: Seq<bool>)
    ensures
        field_value(low + high) == field_value(low) + pow2(low.len()) * field_value(high),
    decreases low.len(),
{
    if low.len() == 0 {
        lemma2_to64();
        assert(low + high =~= high);
    } else {
        let tail = low.drop_first();
        assert((low + high).drop_first() =~= tail + high);
        lemma_field_value_append(tail, high);
        lemma_pow2_unfold(low.len());
        let p = pow2(tail.len()) as int;
        let h = field_value(high) as int;
        lemma_mul_is_associative(2, p, h);
        lemma_mul_is_distributive_add(2, field_value(tail) as int, p * h);
    }
}

/// A field whose bits are all clear stands for zero.
proof fn lemma_field_value_of_clear(field: Seq<bool>)
    requires
        forall|i: int| 0 <= i < field.len() ==> !field[i],
    ensures
        field_value(field) == 0,
    decreases field.len(),
{
    if field.len() > 0 {
        lemma_field_value_of_clear(field.drop_first());
    }
}

/// A number with no bit set at or above `width` is the value of its own field
/// of `width` bits.
pub proof fn lemma_field_value_of_clear_above(v: u64, width: nat)
    requires
        width <= 64,
        forall|i: int| width <= i < 64 ==> !bit_of(v, i),
    ensures
        field_value(field_bits(v, width)) == v,
{
    let low = field_bits(v, width);
    let high = field_bits(v >> (width as u64), (64 - width) as nat);
    lemma_field_bits_split(v, 64, width);
    assert forall|i: int| 0 <= i < 64 - width implies !high[i] by {
        lemma_shifted_bit(v, width as u64, i as u64, (width + i) as u64);
        assert(!bit_of(v, width + i));
    }
    lemma_field_value_of_clear(high);
    lemma_field_value_append(low, high);
    lemma_field_value_of_field_bits(v, 64);
    lemma2_to64();
    lemma_small_mod(v as nat, pow2(64));
    assert(pow2(width) * field_value(high) == 0) by (nonlinear_arith)
        requires
            field_value(high) == 0,
    ;
}

proof fn lemma_low_byte_bit(v: u64, j: u64)
    by (bit_vector)
    requires
        j < 8,
    ensures
        (((v as u8) as u64) >> j) & 1 == (v >> j) & 1,
{
}

/// A field of at most 8 bits is a field of the number's low byte.
pub proof fn lemma_field_bits_last_byte(v: u64, width: nat)
    requires
        width <= 8,
    ensures
        field_bits(v, width) == field_bits((v as u8) as u64, width),
{
    assert forall|i: int| 0 <= i < width implies bit_of(v, i) == bit_of((v as u8) as u64, i) by {
        lemma_low_byte_bit(v, i as u64);
    }
    assert(field_bits(v, width) =~= field_bits((v as u8) as u64, width));
}

/// The bits of a sequence of bytes, one byte more: the bits so far, then the
/// eight bits of the new byte.
pub proof fn lemma_byte_bits_push(bytes: Seq<u8>, b: u8)
    ensures
        byte_bits(bytes.push(b)) == byte_bits(bytes) + field_bits(b as u64, 8),
{
    assert(byte_bits(bytes.push(b)) =~= byte_bits(bytes) + field_bits(b as u64, 8));
}

/// Writing nothing changes nothing.
pub proof fn lemma_write_nothing(view: BitBufView)
    requires
        view.pos <= view.bits.len(),
    ensures
        view.write(Seq::empty()) == view,
{
    assert(view.write(Seq::empty()).bits =~= view.bits);
}

/// Two writes in a row, the first of whole bytes, are one write of the two
/// fields laid end to end.
pub proof fn lemma_write_then_write(view: BitBufView, first: Seq<bool>, second: Seq<bool>)
    requires
        first.len() % 8 == 0,
    ensures
        view.write(first).write(second) == view.write(first + second),
{
    assert(view.write(first).write(second).bits =~= view.write(first + second).bits);
}

/// The value of a field splits at any point `k`: the first `k` bits count as
/// they are, the rest count from `2^k`.
pub proof fn lemma_field_value_split(view: BitBufView, width: nat, k: nat)
    requires
        k <= width,
        view.fits(width),
    ensures
        field_value(view.field(width)) == field_value(view.field(k)) + pow2(k) * field_value(
            view.skip(k).field((width - k) as nat),
        ),
{
    let low = view.field(k);
    let high = view.skip(k).field((width - k) as nat);
    assert(view.field(width) =~= low + high);
    lemma_field_value_append(low, high);
}

/// Sending byte `k` of a number after its first `k` bytes extends the field
/// written so far; of the last byte only the low `width` bits may be sent.
/// Before the first byte the field written so far is empty, and writing it
/// leaves the view as it is.
pub proof fn lemma_write_byte_of(view: BitBufView, v: u64, k: nat, width: nat)
    requires
        view.pos <= view.bits.len(),
        width <= 8,
        8 * k + width <= 64,
    ensures
        view.write(field_bits(v, 0)) == view,
        view.write(field_bits(v, 8 * k)).write(
            field_bits(((v >> ((8 * k) as u64)) as u8) as u64, width),
        ) == view.write(field_bits(v, 8 * k + width)),
{
    let shifted = v >> ((8 * k) as u64);
    lemma_field_bits_split(v, 8 * k + width, 8 * k);
    lemma_field_bits_last_byte(shifted, width);
    lemma_write_then_write(view, field_bits(v, 8 * k), field_bits((shifted as u8) as u64, width));
    assert(field_bits(v, 0) =~= Seq::empty());
    lemma_write_nothing(view);
}

proof fn lemma_low_word_bit(v: u64, j: u64)
    by (bit_vector)
    requires
        j < 32,
    ensures
        (((v as u32) as u64) >> j) & 1 == (v >> j) & 1,
{
}

/// A field of at most 32 bits is a field of the number's low 32 bits.
pub proof fn lemma_field_bits_low_word(v: u64, width: nat)
    requires
        width <= 32,
    ensures
        field_bits(v, width) == field_bits((v as u32) as u64, width),
{
    assert forall|i: int| 0 <= i < width implies bit_of(v, i) == bit_of((v as u32) as u64, i) by {
        lemma_low_word_bit(v, i as u64);
    }
    assert(field_bits(v, width) =~= field_bits((v as u32) as u64, width));
}

/// Where the bits of a sequence of bytes stand in a buffer, the bytes are read
/// back from there.
pub proof fn lemma_bytes_at_byte_bits(bits: Seq<bool>, pos: int, bytes: Seq<u8>)
    requires
        0 <= pos,
        pos + 8 * bytes.len() <= bits.len(),
        bits.subrange(pos, pos + 8 * bytes.len()) == byte_bits(bytes),
    ensures
        bytes_at(bits, pos, bytes.len()) == bytes,
{
    let stored = bits.subrange(pos, pos + 8 * bytes.len());
    assert forall|k: int| 0 <= k < bytes.len() implies bytes_at(bits, pos, bytes.len())[k]
        == bytes[k] by {
        let b = bytes[k];
        assert forall|j: int| 0 <= j < 8 implies bits[pos + 8 * k + j] == #[trigger] bit_of(
            b as u64,
            j,
        ) by {
            assert(stored[8 * k + j] == bits[pos + 8 * k + j]);
            assert((8 * k + j) / 8 == k && (8 * k + j) % 8 == j);
        }
        assert(bits.subrange(pos + 8 * k, pos + 8 * k + 8) =~= field_bits(b as u64, 8));
        lemma2_to64();
        lemma_field_value_of_small(b as u64, 8);
    }
    assert(bytes_at(bits, pos, bytes.len()) =~= bytes);
}

} // verus!
