//! What holds of every buffer: the laws that relate writes to the reads that
//! follow them.
//!
//! Each law is stated over the model that the contracts of the buffer's
//! operations use, so it applies to whatever those operations did: a write
//! turns a view `v` into `v.write(field)`, moving the cursor back to where the
//! write began gives `.at(v.pos)`, and a read returns the value of `.field(..)`
//! there.

use crate::lemmas::{lemma_bytes_at_byte_bits, lemma_field_value_of_field_bits};
use crate::model::{
    byte_bits, bytes_at, field_bits, field_value, string_bytes, string_field, string_fits,
    string_len, BitBufView,
};
use vstd::arithmetic::div_mod::lemma_small_mod;
use vstd::arithmetic::power2::{lemma2_to64, lemma_pow2_unfold, pow2};
use vstd::prelude::*;
use vstd::utf8::{
    decode_utf8, encode_utf8, encode_utf8_decode_utf8, encode_utf8_valid_utf8, valid_utf8,
};

verus! {

/// A field that was written is the field that stands there: reading at the
/// offset of a write finds the bits that were written, whatever the buffer held
/// before and wherever in a byte the write began.
pub proof fn lemma_written_field_stands(view: BitBufView, field: Seq<bool>)
    requires
        view.fits(field.len()),
    ensures
        view.write(field).at(view.pos).field(field.len()) == field,
{
    assert(view.write(field).at(view.pos).field(field.len()) =~= field);
}

/// What is read from `width` bits is below `2^width`: a read never returns
/// more than its field can hold. So a part-width read of a signed type, which
/// takes fewer bits than the type has, is never negative.
pub proof fn lemma_field_value_within_width(field: Seq<bool>)
    ensures
        field_value(field) < pow2(field.len()),
    decreases field.len(),
{
    if field.len() == 0 {
        lemma2_to64();
    } else {
        lemma_field_value_within_width(field.drop_first());
        lemma_pow2_unfold(field.len());
    }
}

/// Round trip of an unsigned value: writing the low `width` bits of `value`
/// and reading `width` bits from the same offset gives `value` modulo
/// `2^width`, which is `value` itself where it fits in `width` bits.
///
/// The 8-, 16- and 32-bit types travel as the same number widened to 64 bits,
/// so this is the law for each of them, at every width from 1 to their own.
pub proof fn lemma_round_trip_unsigned(view: BitBufView, value: u64, width: nat)
    requires
        1 <= width <= 64,
        view.fits(width),
    ensures
        field_value(view.write(field_bits(value, width)).at(view.pos).field(width))
            == (value as nat) % pow2(width),
        value < pow2(width) ==> field_value(
            view.write(field_bits(value, width)).at(view.pos).field(width),
        ) == value,
{
    lemma_written_field_stands(view, field_bits(value, width));
    lemma_field_value_of_field_bits(value, width);
    if value < pow2(width) {
        lemma_small_mod(value as nat, pow2(width));
    }
}

/// Round trip of a boolean: the bit that was written is the bit that is read.
pub proof fn lemma_round_trip_bool(view: BitBufView, value: bool)
    requires
        view.fits(1),
    ensures
        view.write(seq![value]).bits[view.pos as int] == value,
{
}

/// Round trip of an `i8`. At the full width every value comes back. Below it
/// nothing extends the sign, so the values that come back are those from 0 up
/// to `2^width - 1`.
pub proof fn lemma_round_trip_i8(view: BitBufView, value: i8, width: nat)
    requires
        1 <= width <= 8,
        view.fits(width),
        width == 8 || 0 <= value < pow2(width),
    ensures
        (field_value(
            view.write(field_bits((value as u8) as u64, width)).at(view.pos).field(width),
        ) as u8) as i8 == value,
{
    let pattern = value as u8;
    lemma2_to64();
    lemma_round_trip_unsigned(view, pattern as u64, width);
    assert((pattern as i8) == value) by (bit_vector)
        requires
            pattern == value as u8,
    ;
    lemma_small_mod(pattern as nat, pow2(width));
}

/// Round trip of an `i16`. At the full width every value comes back. Below it
/// nothing extends the sign, so the values that come back are those from 0 up
/// to `2^width - 1`.
pub proof fn lemma_round_trip_i16(view: BitBufView, value: i16, width: nat)
    requires
        1 <= width <= 16,
        view.fits(width),
        width == 16 || 0 <= value < pow2(width),
    ensures
        (field_value(
            view.write(field_bits((value as u16) as u64, width)).at(view.pos).field(width),
        ) as u16) as i16 == value,
{
    let pattern = value as u16;
    lemma2_to64();
    lemma_round_trip_unsigned(view, pattern as u64, width);
    assert((pattern as i16) == value) by (bit_vector)
        requires
            pattern == value as u16,
    ;
    lemma_small_mod(pattern as nat, pow2(width));
}

/// Round trip of an `i32`. At the full width every value comes back. Below it
/// nothing extends the sign, so the values that come back are those from 0 up
/// to `2^width - 1`.
pub proof fn lemma_round_trip_i32(view: BitBufView, value: i32, width: nat)
    requires
        1 <= width <= 32,
        view.fits(width),
        width == 32 || 0 <= value < pow2(width),
    ensures
        (field_value(
            view.write(field_bits((value as u32) as u64, width)).at(view.pos).field(width),
        ) as u32) as i32 == value,
{
    let pattern = value as u32;
    lemma2_to64();
    lemma_round_trip_unsigned(view, pattern as u64, width);
    assert((pattern as i32) == value) by (bit_vector)
        requires
            pattern == value as u32,
    ;
    lemma_small_mod(pattern as nat, pow2(width));
}

/// Round trip of an `i64`. At the full width every value comes back. Below it
/// nothing extends the sign, so the values that come back are those from 0 up
/// to `2^width - 1`.
pub proof fn lemma_round_trip_i64(view: BitBufView, value: i64, width: nat)
    requires
        1 <= width <= 64,
        view.fits(width),
        width == 64 || 0 <= value < pow2(width),
    ensures
        (field_value(
            view.write(field_bits(value as u64, width)).at(view.pos).field(width),
        ) as u64) as i64 == value,
{
    let pattern = value as u64;
    lemma2_to64();
    lemma_round_trip_unsigned(view, pattern, width);
    assert((pattern as i64) == value) by (bit_vector)
        requires
            pattern == value as u64,
    ;
    lemma_small_mod(pattern as nat, pow2(width));
}

/// Adjacent fields do not corrupt one another: after a field and, directly
/// behind it, a second one have been written, both are read back in order as
/// they were written. This holds for all widths and offsets, so also where the
/// two fields together cross one, two, three or more byte boundaries.
pub proof fn lemma_adjacent_fields(view: BitBufView, first: Seq<bool>, second: Seq<bool>)
    requires
        view.fits(first.len() + second.len()),
    ensures
        view.write(first).write(second).at(view.pos).field(first.len()) == first,
        view.write(first).write(second).at(view.pos).skip(first.len()).field(second.len())
            == second,
{
    let after = view.write(first).write(second);
    assert(after.at(view.pos).field(first.len()) =~= first);
    assert(after.at(view.pos).skip(first.len()).field(second.len()) =~= second);
}

/// Adjacent values: two unsigned values written one behind the other, each at
/// its own width, come back in order, each modulo two to its width.
pub proof fn lemma_adjacent_values(
    view: BitBufView,
    first: u64,
    first_width: nat,
    second: u64,
    second_width: nat,
)
    requires
        1 <= first_width <= 64,
        1 <= second_width <= 64,
        view.fits(first_width + second_width),
    ensures
        ({
            let after = view.write(field_bits(first, first_width)).write(
                field_bits(second, second_width),
            ).at(view.pos);
            &&& field_value(after.field(first_width)) == (first as nat) % pow2(first_width)
            &&& field_value(after.skip(first_width).field(second_width))
                == (second as nat) % pow2(second_width)
        }),
{
    lemma_adjacent_fields(view, field_bits(first, first_width), field_bits(second, second_width));
    lemma_field_value_of_field_bits(first, first_width);
    lemma_field_value_of_field_bits(second, second_width);
}

/// Round trip of a byte sequence: the bytes that were written are the bytes
/// that are read from the same offset.
pub proof fn lemma_round_trip_bytes(view: BitBufView, bytes: Seq<u8>)
    requires
        view.fits(8 * bytes.len()),
    ensures
        bytes_at(view.write(byte_bits(bytes)).bits, view.pos as int, bytes.len()) == bytes,
{
    lemma_written_field_stands(view, byte_bits(bytes));
    lemma_bytes_at_byte_bits(view.write(byte_bits(bytes)).bits, view.pos as int, bytes);
}

/// Round trip of a string: after `text` has been written, a string read from
/// the same offset finds its prefix and bytes within the capacity, finds the
/// bytes valid, and decodes them to `text`. This holds of every string whose
/// encoding is shorter than `2^32` bytes, the empty one included; a longer one
/// has a length that the 32-bit prefix cannot hold.
pub proof fn lemma_round_trip_string(view: BitBufView, text: Seq<char>)
    requires
        encode_utf8(text).len() < 0x1_0000_0000,
        view.fits(32 + 8 * encode_utf8(text).len()),
    ensures
        ({
            let after = view.write(string_field(text)).at(view.pos);
            &&& string_len(after) == encode_utf8(text).len()
            &&& string_fits(after)
            &&& string_bytes(after) == encode_utf8(text)
            &&& valid_utf8(string_bytes(after))
            &&& decode_utf8(string_bytes(after)) == text
        }),
{
    let bytes = encode_utf8(text);
    let prefix = field_bits((bytes.len() as u32) as u64, 32);
    let after = view.write(string_field(text)).at(view.pos);
    assert(after.field(32) =~= prefix);
    lemma2_to64();
    lemma_field_value_of_field_bits((bytes.len() as u32) as u64, 32);
    lemma_small_mod(bytes.len(), pow2(32));
    let start = view.pos as int + 32;
    assert(after.bits.subrange(start, start + 8 * bytes.len()) =~= byte_bits(bytes));
    lemma_bytes_at_byte_bits(after.bits, start, bytes);
    encode_utf8_valid_utf8(text);
    encode_utf8_decode_utf8(text);
}

} // verus!
