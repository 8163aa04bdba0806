//! The mathematical model of the buffer: a sequence of bits, the fields stored
//! in it and the numbers those fields stand for.
//!
//! Bit `i` of the buffer is bit `i % 8` of byte `i / 8`, counted from the least
//! significant end. A field of `width` bits holds the low `width` bits of a
//! number, least significant bit first.

use vstd::prelude::*;
use vstd::utf8::encode_utf8;

verus! {

/// Bit `i` of `v`, counted from the least significant end.
pub open spec fn bit_of(v: u64, i: int) -> bool {
    (v >> (i as u64)) & 1 == 1
}

/// The field that holds the low `width` bits of `v`, least significant first.
pub open spec fn field_bits(v: u64, width: nat) -> Seq<bool> {
    Seq::new(width, |i: int| bit_of(v, i))
}

/// The number that a field stands for: bit `i` of the field counts `2^i`.
pub open spec fn field_value(field: Seq<bool>) -> nat
    decreases field.len(),
{
    if field.len() == 0 {
        0
    } else {
        (if field[0] { 1nat } else { 0nat }) + 2 * field_value(field.drop_first())
    }
}

/// The first multiple of 8 that is not below `n`.
pub open spec fn round_up_8(n: int) -> int {
    ((n + 7) / 8) * 8
}

/// The bits of a buffer after `field` has been written at bit offset `pos`.
///
/// The bits of the field replace those at `pos .. pos + field.len()`. A write
/// that starts on a byte boundary overwrites whole bytes, so it also clears what
/// is left of the last byte it touches; a write that starts inside a byte
/// preserves every bit outside the field.
pub open spec fn store_field(bits: Seq<bool>, pos: int, field: Seq<bool>) -> Seq<bool> {
    Seq::new(
        bits.len(),
        |i: int|
            if pos <= i < pos + field.len() {
                field[i - pos]
            } else if pos % 8 == 0 && pos + field.len() <= i < round_up_8(pos + field.len()) {
                false
            } else {
                bits[i]
            },
    )
}

/// The bits of a sequence of bytes, each byte least significant bit first.
pub open spec fn byte_bits(bytes: Seq<u8>) -> Seq<bool> {
    Seq::new(8 * bytes.len(), |i: int| bit_of(bytes[i / 8] as u64, i % 8))
}

/// The `count` bytes that stand at bit offset `pos`, each read as a field of 8
/// bits.
pub open spec fn bytes_at(bits: Seq<bool>, pos: int, count: nat) -> Seq<u8> {
    Seq::new(count, |k: int| field_value(bits.subrange(pos + 8 * k, pos + 8 * k + 8)) as u8)
}

/// What a buffer holds, as contracts see it.
pub struct BitBufView {
    /// Every bit of the storage, in cursor order. Its length is the capacity.
    pub bits: Seq<bool>,
    /// The cursor: the offset of the next bit to be written or read.
    pub pos: nat,
}

impl BitBufView {
    /// Whether `count` more bits lie between the cursor and the capacity.
    pub open spec fn fits(self, count: nat) -> bool {
        self.pos + count <= self.bits.len()
    }

    /// The `width` bits at the cursor.
    pub open spec fn field(self, width: nat) -> Seq<bool> {
        self.bits.subrange(self.pos as int, self.pos as int + width)
    }

    /// The same bits with the cursor at `pos`.
    pub open spec fn at(self, pos: nat) -> BitBufView {
        BitBufView { bits: self.bits, pos }
    }

    /// The same bits with the cursor `count` bits further on.
    pub open spec fn skip(self, count: nat) -> BitBufView {
        BitBufView { bits: self.bits, pos: self.pos + count }
    }

    /// The buffer after `field` has been written at the cursor: the bits are
    /// those of [`store_field`], and the cursor stands behind the field.
    pub open spec fn write(self, field: Seq<bool>) -> BitBufView {
        BitBufView {
            bits: store_field(self.bits, self.pos as int, field),
            pos: self.pos + field.len(),
        }
    }
}

/// The field that a string travels as: the byte length of its UTF-8 encoding
/// as a full 32-bit prefix (the length as a `u32`), then the encoded bytes.
pub open spec fn string_field(text: Seq<char>) -> Seq<bool> {
    let bytes = encode_utf8(text);
    field_bits((bytes.len() as u32) as u64, 32) + byte_bits(bytes)
}

/// The byte length that the 32-bit prefix at the cursor announces.
pub open spec fn string_len(view: BitBufView) -> nat {
    field_value(view.field(32))
}

/// Whether a length prefix and as many bytes as it announces lie between the
/// cursor and the capacity.
pub open spec fn string_fits(view: BitBufView) -> bool {
    view.fits(32) && view.fits(32 + 8 * string_len(view))
}

/// The bytes that follow the length prefix at the cursor.
pub open spec fn string_bytes(view: BitBufView) -> Seq<u8> {
    bytes_at(view.bits, view.pos as int + 32, string_len(view))
}

} // verus!
