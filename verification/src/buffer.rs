//! The buffer, its cursor and the engine that moves 1 to 8 bits at a time.

use crate::error::BitBufError;
use crate::lemmas::{
    lemma_bytes_at_byte_bits, lemma_field_value_of_clear_above, lemma_field_value_of_small,
};
use crate::model::{
    bit_of, byte_bits, bytes_at, field_bits, field_value, round_up_8, store_field, BitBufView,
};
use vstd::arithmetic::power2::lemma2_to64;
use vstd::prelude::*;

verus! {

/// A fixed-capacity region of bytes addressed bit by bit through one cursor,
/// which writes and reads share.
pub struct BitBuf {
    buf: Vec<u8>,
    pos: usize,
    size: usize,
}

impl View for BitBuf {
    type V = BitBufView;

    closed spec fn view(&self) -> BitBufView {
        BitBufView { bits: byte_bits(self.buf@), pos: self.pos as nat }
    }
}

impl Clone for BitBuf {
    /// A copy with the same bits and the same cursor.
    fn clone(&self) -> (copy: Self)
        ensures
            copy@ == self@,
    {
        proof {
            use_type_invariant(self);
        }
        BitBuf { buf: self.buf.clone(), pos: self.pos, size: self.size }
    }
}

impl BitBuf {
    #[verifier::type_invariant]
    spec fn well_formed(&self) -> bool {
        &&& self.size == 8 * self.buf.len()
        &&& self.pos <= self.size
    }

    /// Creates a buffer of `len` zero bytes with the cursor at bit 0. The
    /// capacity is fixed from here on. Fails where the capacity in bits would
    /// not fit in `usize`.
    pub fn with_len(len: usize) -> (made: Result<BitBuf, BitBufError>)
        ensures
            made is Ok <==> 8 * len <= usize::MAX,
            made matches Ok(b) ==> b@.pos == 0
                && b@.bits == Seq::new(8 * len as nat, |i: int| false),
            made matches Err(e) ==> e == BitBufError::ConstructionError,
    {
        if len > usize::MAX / 8 {
            return Err(BitBufError::ConstructionError);
        }
        let buf: Vec<u8> = vec![0u8; len];
        let made = BitBuf { buf, pos: 0, size: len * 8 };
        proof {
            assert forall|i: int| 0 <= i < 8 * len implies !made@.bits[i] by {
                lemma_zero_has_no_bits((i % 8) as u64);
            }
            assert(made@.bits =~= Seq::new(8 * len as nat, |i: int| false));
        }
        Ok(made)
    }

    /// Consumes the buffer and returns its storage: byte `k` holds the bits
    /// `8k .. 8k + 8`, least significant first.
    pub fn to_vec(self) -> (bytes: Vec<u8>)
        ensures
            byte_bits(bytes@) == self@.bits,
            bytes@ == bytes_at(self@.bits, 0, self@.bits.len() / 8),
    {
        proof {
            assert(self@.bits.subrange(0, self@.bits.len() as int) =~= byte_bits(self.buf@));
            lemma_bytes_at_byte_bits(self@.bits, 0, self.buf@);
        }
        self.buf
    }

    /// The capacity in bits, always a whole number of bytes.
    pub fn bit_size(&self) -> (size: usize)
        ensures
            size == self@.bits.len(),
            size % 8 == 0,
    {
        proof {
            use_type_invariant(self);
        }
        self.size
    }

    /// The cursor. It never passes the capacity. A write at the cursor
    /// overwrites what is there: nothing is inserted.
    pub fn bit_pos(&self) -> (pos: usize)
        ensures
            pos == self@.pos,
            pos <= self@.bits.len(),
    {
        proof {
            use_type_invariant(self);
        }
        self.pos
    }

    /// The index of the byte that the cursor stands in.
    pub fn byte_pos(&self) -> (pos: usize)
        ensures
            pos == self@.pos / 8,
    {
        self.pos / 8
    }

    /// Moves the cursor to bit offset `pos`, which may be anywhere from 0 to
    /// the capacity. A reader that follows a writer on the same buffer
    /// repositions the cursor this way.
    pub fn set_bit_pos(&mut self, pos: usize) -> (done: Result<(), BitBufError>)
        ensures
            done is Ok <==> pos <= old(self)@.bits.len(),
            done is Ok ==> final(self)@ == old(self)@.at(pos as nat),
            done matches Err(e) ==> e == BitBufError::OutOfBounds && final(self)@ == old(self)@,
    {
        proof {
            use_type_invariant(&*self);
        }
        if pos > self.size {
            return Err(BitBufError::OutOfBounds);
        }
        self.pos = pos;
        Ok(())
    }

    /// Moves the cursor back to an offset that it has stood at before.
    pub(crate) fn restore_bit_pos(&mut self, pos: usize)
        requires
            pos <= old(self)@.bits.len(),
        ensures
            final(self)@ == old(self)@.at(pos as nat),
    {
        proof {
            use_type_invariant(&*self);
        }
        self.pos = pos;
    }

    /// Whether `bit_count` more bits fit between the cursor and the capacity.
    pub fn can_write_bits(&self, bit_count: usize) -> (fits: bool)
        ensures
            fits == self@.fits(bit_count as nat),
    {
        proof {
            use_type_invariant(self);
        }
        bit_count <= self.size - self.pos
    }

    /// Whether `bit_count` more bits can be read before the capacity is reached.
    pub fn can_read_bits(&self, bit_count: usize) -> (fits: bool)
        ensures
            fits == self@.fits(bit_count as nat),
    {
        proof {
            use_type_invariant(self);
        }
        bit_count <= self.size - self.pos
    }

    /// Whether `byte_count` more bytes fit between the cursor and the capacity.
    pub fn can_write_bytes(&self, byte_count: usize) -> (fits: bool)
        ensures
            fits == self@.fits(8 * byte_count as nat),
    {
        proof {
            use_type_invariant(self);
        }
        match byte_count.checked_mul(8) {
            Some(bit_count) => self.can_write_bits(bit_count),
            None => false,
        }
    }

    /// Whether `byte_count` more bytes can be read before the capacity is
    /// reached.
    pub fn can_read_bytes(&self, byte_count: usize) -> (fits: bool)
        ensures
            fits == self@.fits(8 * byte_count as nat),
    {
        proof {
            use_type_invariant(self);
        }
        match byte_count.checked_mul(8) {
            Some(bit_count) => self.can_read_bits(bit_count),
            None => false,
        }
    }

    /// Writes the low `bits` bits of `value` at the cursor and advances it.
    ///
    /// On a byte boundary the target byte is overwritten outright. Inside a
    /// byte the field is merged into the free bits of the current byte and,
    /// where it does not fit, its remainder into the low bits of the next one;
    /// every other bit of the two bytes is preserved.
    pub(crate) fn in_write_byte(&mut self, value: u8, bits: u8)
        requires
            1 <= bits <= 8,
            old(self)@.fits(bits as nat),
        ensures
            final(self)@ == old(self)@.write(field_bits(value as u64, bits as nat)),
    {
        proof {
            use_type_invariant(&*self);
        }
        let ghost before = self.buf@;
        let ghost start = self.pos as int;
        let masked: u8 = value & (0xFFu8 >> (8 - bits));
        let p: usize = self.pos / 8;
        let used: u8 = (self.pos % 8) as u8;
        let cur: u8 = self.buf[p];
        if used == 0 {
            self.buf[p] = masked;
            proof {
                lemma_write_aligned_bits(before, start, value, bits, masked);
            }
        } else {
            let free: u8 = 8 - used;
            if bits <= free {
                let end: u8 = used + bits;
                let keep_high: u8 = if end < 8 { 0xFFu8 << end } else { 0 };
                let merged: u8 = (cur & ((0xFFu8 >> free) | keep_high)) | (masked << used);
                self.buf[p] = merged;
                proof {
                    lemma_write_inside_bits(before, start, value, bits, masked, keep_high, merged);
                }
            } else {
                let next: u8 = self.buf[p + 1];
                let first: u8 = (cur & (0xFFu8 >> free)) | (masked << used);
                let second: u8 = (next & (0xFFu8 << (bits - free))) | (masked >> free);
                self.buf[p] = first;
                self.buf[p + 1] = second;
                proof {
                    lemma_write_straddling_bits(before, start, value, bits, masked, first, second);
                }
            }
        }
        self.pos += bits as usize;
    }

    /// Reads the `bits` bits at the cursor as a number and advances the cursor.
    ///
    /// On a byte boundary a whole byte is returned as it stands. Otherwise the
    /// bits left in the current byte come first, and what is still missing is
    /// taken from the low bits of the next byte and placed above them.
    pub(crate) fn in_read_byte(&mut self, bits: u8) -> (value: u8)
        requires
            1 <= bits <= 8,
            old(self)@.fits(bits as nat),
        ensures
            final(self)@ == old(self)@.skip(bits as nat),
            value == field_value(old(self)@.field(bits as nat)),
    {
        proof {
            use_type_invariant(&*self);
        }
        let ghost start = self.pos as int;
        let value: u8;
        let p: usize = self.pos / 8;
        let used: u8 = (self.pos % 8) as u8;
        let cur: u8 = self.buf[p];
        if used == 0 && bits == 8 {
            value = cur;
            proof {
                assert(self@.bits.subrange(start, start + 8) =~= field_bits(value as u64, 8));
                lemma_byte_value(value);
            }
        } else {
            let first: u8 = cur >> used;
            let avail: u8 = 8 - used;
            if bits <= avail {
                value = first & (0xFFu8 >> (8 - bits));
                proof {
                    lemma_read_inside_value(self.buf@, start, bits, value);
                }
            } else {
                let remainder: u8 = bits - avail;
                let second: u8 = self.buf[p + 1] & (0xFFu8 >> (8 - remainder));
                value = first | (second << avail);
                proof {
                    lemma_read_straddling_value(self.buf@, start, bits, avail, remainder, value);
                }
            }
        }
        self.pos += bits as usize;
        value
    }
}

/// A byte is the value of its own eight bits.
proof fn lemma_byte_value(b: u8)
    ensures
        field_value(field_bits(b as u64, 8)) == b,
{
    lemma2_to64();
    lemma_field_value_of_small(b as u64, 8);
}

/// The storage after a write on a byte boundary: the byte at the cursor holds
/// the masked value and nothing else.
proof fn lemma_write_aligned_bits(before: Seq<u8>, start: int, value: u8, bits: u8, masked: u8)
    requires
        1 <= bits <= 8,
        0 <= start,
        start % 8 == 0,
        start + bits <= 8 * before.len(),
        masked == value & (0xFFu8 >> ((8 - bits) as u8)),
    ensures
        byte_bits(before.update(start / 8, masked)) == store_field(
            byte_bits(before),
            start,
            field_bits(value as u64, bits as nat),
        ),
{
    let after = before.update(start / 8, masked);
    let stored = store_field(byte_bits(before), start, field_bits(value as u64, bits as nat));
    assert(round_up_8(start + bits) == start + 8);
    assert forall|i: int| 0 <= i < 8 * before.len() implies byte_bits(after)[i] == stored[i] by {
        if i / 8 == start / 8 {
            assert(i == start + i % 8);
            lemma_write_aligned(value, bits, masked, (i % 8) as u64);
        } else {
            assert(!(start <= i < start + 8));
        }
    }
    assert(byte_bits(after) =~= stored);
}

/// The storage after a write that starts inside a byte and ends in it: the
/// field is merged into the byte at the cursor, whose other bits stay.
proof fn lemma_write_inside_bits(
    before: Seq<u8>,
    start: int,
    value: u8,
    bits: u8,
    masked: u8,
    keep_high: u8,
    merged: u8,
)
    requires
        1 <= bits <= 8,
        0 <= start,
        start % 8 != 0,
        start % 8 + bits <= 8,
        start + bits <= 8 * before.len(),
        masked == value & (0xFFu8 >> ((8 - bits) as u8)),
        keep_high == (if start % 8 + bits < 8 {
            0xFFu8 << ((start % 8 + bits) as u8)
        } else {
            0u8
        }),
        merged == (before[start / 8] & ((0xFFu8 >> ((8 - start % 8) as u8)) | keep_high))
            | (masked << ((start % 8) as u8)),
    ensures
        byte_bits(before.update(start / 8, merged)) == store_field(
            byte_bits(before),
            start,
            field_bits(value as u64, bits as nat),
        ),
{
    let used = (start % 8) as u8;
    let after = before.update(start / 8, merged);
    let stored = store_field(byte_bits(before), start, field_bits(value as u64, bits as nat));
    assert forall|i: int| 0 <= i < 8 * before.len() implies byte_bits(after)[i] == stored[i] by {
        if i / 8 == start / 8 {
            let j = i % 8;
            let src = if j >= used { j - used } else { 0 };
            lemma_write_inside(
                before[start / 8],
                value,
                bits,
                used,
                masked,
                keep_high,
                merged,
                j as u64,
                src as u64,
            );
        }
    }
    assert(byte_bits(after) =~= stored);
}

/// The storage after a write that starts in one byte and ends in the next: the
/// low part of the field fills the byte at the cursor above the bits in use,
/// the rest goes to the low bits of the next byte, whose high bits stay.
proof fn lemma_write_straddling_bits(
    before: Seq<u8>,
    start: int,
    value: u8,
    bits: u8,
    masked: u8,
    first: u8,
    second: u8,
)
    requires
        1 <= bits <= 8,
        0 <= start,
        start % 8 + bits > 8,
        start + bits <= 8 * before.len(),
        masked == value & (0xFFu8 >> ((8 - bits) as u8)),
        first == (before[start / 8] & (0xFFu8 >> ((8 - start % 8) as u8)))
            | (masked << ((start % 8) as u8)),
        second == (before[start / 8 + 1] & (0xFFu8 << ((start % 8 + bits - 8) as u8)))
            | (masked >> ((8 - start % 8) as u8)),
    ensures
        byte_bits(before.update(start / 8, first).update(start / 8 + 1, second)) == store_field(
            byte_bits(before),
            start,
            field_bits(value as u64, bits as nat),
        ),
{
    let used = (start % 8) as u8;
    let after = before.update(start / 8, first).update(start / 8 + 1, second);
    let stored = store_field(byte_bits(before), start, field_bits(value as u64, bits as nat));
    assert forall|i: int| 0 <= i < 8 * before.len() implies byte_bits(after)[i] == stored[i] by {
        if i / 8 == start / 8 || i / 8 == start / 8 + 1 {
            let j = i % 8;
            let src_first = if j >= used { j - used } else { 0 };
            let src_second = j + 8 - used;
            lemma_write_straddling(
                before[start / 8],
                before[start / 8 + 1],
                value,
                bits,
                used,
                masked,
                first,
                second,
                j as u64,
                src_first as u64,
                src_second as u64,
            );
        }
    }
    assert(byte_bits(after) =~= stored);
}

/// The number read where the field ends in the byte it starts in.
proof fn lemma_read_inside_value(bytes: Seq<u8>, start: int, bits: u8, value: u8)
    requires
        1 <= bits <= 8,
        0 <= start,
        start % 8 + bits <= 8,
        start + bits <= 8 * bytes.len(),
        value == (bytes[start / 8] >> ((start % 8) as u8)) & (0xFFu8 >> ((8 - bits) as u8)),
    ensures
        value == field_value(byte_bits(bytes).subrange(start, start + bits)),
{
    let cur = bytes[start / 8];
    let used = (start % 8) as u8;
    let field = byte_bits(bytes).subrange(start, start + bits);
    assert forall|j: int| 0 <= j < 64 implies #[trigger] bit_of(value as u64, j) == (j < bits
        && bit_of(cur as u64, j + used)) by {
        lemma_read_inside(cur, bits, used, value, j as u64, (j + used) as u64);
    }
    assert forall|j: int| 0 <= j < bits implies field[j] == bit_of(cur as u64, j + used) by {
        assert((start + j) / 8 == start / 8);
        assert((start + j) % 8 == j + used);
    }
    assert(field =~= field_bits(value as u64, bits as nat));
    lemma_field_value_of_clear_above(value as u64, bits as nat);
}

/// The number read where the field starts in one byte and ends in the next.
proof fn lemma_read_straddling_value(
    bytes: Seq<u8>,
    start: int,
    bits: u8,
    avail: u8,
    remainder: u8,
    value: u8,
)
    requires
        1 <= bits <= 8,
        0 <= start,
        start % 8 + bits > 8,
        start + bits <= 8 * bytes.len(),
        avail == 8 - start % 8,
        remainder == bits - avail,
        value == (bytes[start / 8] >> ((start % 8) as u8))
            | ((bytes[start / 8 + 1] & (0xFFu8 >> ((8 - remainder) as u8))) << avail),
    ensures
        value == field_value(byte_bits(bytes).subrange(start, start + bits)),
{
    let cur = bytes[start / 8];
    let next = bytes[start / 8 + 1];
    let used = (start % 8) as u8;
    let field = byte_bits(bytes).subrange(start, start + bits);
    assert forall|j: int| 0 <= j < 64 implies #[trigger] bit_of(value as u64, j) == (j < bits
        && if j + used < 8 {
        bit_of(cur as u64, j + used)
    } else {
        bit_of(next as u64, j + used - 8)
    }) by {
        let src_second = if j + used >= 8 { j + used - 8 } else { 0 };
        lemma_read_straddling(
            cur,
            next,
            bits,
            used,
            value,
            j as u64,
            (j + used) as u64,
            src_second as u64,
        );
    }
    assert forall|j: int| 0 <= j < bits implies field[j] == (if j + used < 8 {
        bit_of(cur as u64, j + used)
    } else {
        bit_of(next as u64, j + used - 8)
    }) by {
        if j + used < 8 {
            assert((start + j) / 8 == start / 8);
            assert((start + j) % 8 == j + used);
        } else {
            assert((start + j) / 8 == start / 8 + 1);
            assert((start + j) % 8 == j + used - 8);
        }
    }
    assert(field =~= field_bits(value as u64, bits as nat));
    lemma_field_value_of_clear_above(value as u64, bits as nat);
}

proof fn lemma_zero_has_no_bits(j: u64)
    by (bit_vector)
    ensures
        (0u64 >> j) & 1 == 0,
{
}

proof fn lemma_write_aligned(value: u8, bits: u8, masked: u8, j: u64)
    by (bit_vector)
    requires
        1 <= bits <= 8,
        masked == value & (0xFFu8 >> ((8 - bits) as u8)),
        j < 8,
    ensures
        ((masked as u64) >> j) & 1 == (if j < bits { ((value as u64) >> j) & 1 } else { 0 }),
{
}

proof fn lemma_write_inside(
    cur: u8,
    value: u8,
    bits: u8,
    used: u8,
    masked: u8,
    keep_high: u8,
    merged: u8,
    j: u64,
    src: u64,
)
    by (bit_vector)
    requires
        1 <= bits <= 8,
        1 <= used < 8,
        used + bits <= 8,
        masked == value & (0xFFu8 >> ((8 - bits) as u8)),
        keep_high == (if used + bits < 8 { 0xFFu8 << ((used + bits) as u8) } else { 0u8 }),
        merged == (cur & ((0xFFu8 >> ((8 - used) as u8)) | keep_high)) | (masked << used),
        j < 8,
        j >= used ==> src + used == j,
    ensures
        ((merged as u64) >> j) & 1 == (if used <= j && j < used + bits {
            ((value as u64) >> src) & 1
        } else {
            ((cur as u64) >> j) & 1
        }),
{
}

proof fn lemma_write_straddling(
    cur: u8,
    next: u8,
    value: u8,
    bits: u8,
    used: u8,
    masked: u8,
    first: u8,
    second: u8,
    j: u64,
    src_first: u64,
    src_second: u64,
)
    by (bit_vector)
    requires
        1 <= bits <= 8,
        1 <= used < 8,
        used + bits > 8,
        masked == value & (0xFFu8 >> ((8 - bits) as u8)),
        first == (cur & (0xFFu8 >> ((8 - used) as u8))) | (masked << used),
        second == (next & (0xFFu8 << ((used + bits - 8) as u8))) | (masked >> ((8 - used) as u8)),
        j < 8,
        j >= used ==> src_first + used == j,
        src_second + used == j + 8,
    ensures
        ((first as u64) >> j) & 1 == (if used <= j {
            ((value as u64) >> src_first) & 1
        } else {
            ((cur as u64) >> j) & 1
        }),
        ((second as u64) >> j) & 1 == (if j + 8 < used + bits {
            ((value as u64) >> src_second) & 1
        } else {
            ((next as u64) >> j) & 1
        }),
{
}

proof fn lemma_read_inside(cur: u8, bits: u8, used: u8, value: u8, j: u64, src: u64)
    by (bit_vector)
    requires
        1 <= bits <= 8,
        used < 8,
        used + bits <= 8,
        value == (cur >> used) & (0xFFu8 >> ((8 - bits) as u8)),
        j < 64,
        src == j + used,
    ensures
        ((value as u64) >> j) & 1 == (if j < bits { ((cur as u64) >> src) & 1 } else { 0 }),
{
}

proof fn lemma_read_straddling(
    cur: u8,
    next: u8,
    bits: u8,
    used: u8,
    value: u8,
    j: u64,
    src_first: u64,
    src_second: u64,
)
    by (bit_vector)
    requires
        1 <= bits <= 8,
        1 <= used < 8,
        used + bits > 8,
        value == (cur >> used)
            | ((next & (0xFFu8 >> ((16 - used - bits) as u8))) << ((8 - used) as u8)),
        j < 64,
        src_first == j + used,
        j + used >= 8 ==> src_second + 8 == j + used,
    ensures
        ((value as u64) >> j) & 1 == (if j + used < 8 {
            ((cur as u64) >> src_first) & 1
        } else if j < bits {
            ((next as u64) >> src_second) & 1
        } else {
            0
        }),
{
}

} // verus!
