//! The bit patterns of IEEE-754 floats, moved as 4 or 8 whole bytes.
//!
//! A float crosses the buffer as the unsigned integer that has its bit pattern.
//! The caller turns the float into that integer and back, bit for bit, with
//! `to_bits` and `from_bits`; no number is converted on the way. There is no
//! variant for a part of the width: a cut-down pattern has no numeric meaning.

use crate::buffer::BitBuf;
use crate::error::BitBufError;
use crate::lemmas::{lemma_field_value_split, lemma_write_byte_of};
use crate::model::{field_bits, field_value};
use vstd::arithmetic::power2::{lemma2_to64, lemma2_to64_rest};
use vstd::prelude::*;

verus! {

impl BitBuf {
    /// Writes the 32-bit pattern of a single-precision float as 4 whole bytes,
    /// low byte first.
    pub fn write_f32_bits(&mut self, pattern: u32) -> (done: Result<(), BitBufError>)
        ensures
            done is Ok <==> old(self)@.fits(32),
            done is Ok ==> final(self)@ == old(self)@.write(field_bits(pattern as u64, 32)),
            done matches Err(e) ==> e == BitBufError::OutOfBounds && final(self)@ == old(self)@,
    {
        if !self.can_write_bits(32) {
            return Err(BitBufError::OutOfBounds);
        }
        let b1: u8 = #[verifier::truncate] (pattern as u8);
        let b2: u8 = #[verifier::truncate] ((pattern >> 8) as u8);
        let b3: u8 = #[verifier::truncate] ((pattern >> 16) as u8);
        let b4: u8 = #[verifier::truncate] ((pattern >> 24) as u8);
        let ghost wide = pattern as u64;
        assert(b1 == (wide >> 0) as u8 && b2 == (wide >> 8) as u8 && b3 == (wide >> 16) as u8
            && b4 == (wide >> 24) as u8) by (bit_vector)
            requires
                b1 == pattern as u8,
                b2 == (pattern >> 8) as u8,
                b3 == (pattern >> 16) as u8,
                b4 == (pattern >> 24) as u8,
                wide == pattern as u64,
        ;
        self.in_write_byte(b1, 8);
        self.in_write_byte(b2, 8);
        self.in_write_byte(b3, 8);
        self.in_write_byte(b4, 8);
        proof {
            lemma_write_byte_of(old(self)@, wide, 0, 8);
            lemma_write_byte_of(old(self)@, wide, 1, 8);
            lemma_write_byte_of(old(self)@, wide, 2, 8);
            lemma_write_byte_of(old(self)@, wide, 3, 8);
        }
        Ok(())
    }

    /// Reads 4 whole bytes, low byte first, as the 32-bit pattern of a
    /// single-precision float.
    pub fn read_f32_bits(&mut self) -> (got: Result<u32, BitBufError>)
        ensures
            got is Ok <==> old(self)@.fits(32),
            got matches Ok(pattern) ==> pattern == field_value(old(self)@.field(32))
                && final(self)@ == old(self)@.skip(32),
            got matches Err(e) ==> e == BitBufError::OutOfBounds && final(self)@ == old(self)@,
    {
        if !self.can_read_bits(32) {
            return Err(BitBufError::OutOfBounds);
        }
        let b1: u32 = self.in_read_byte(8) as u32;
        let b2: u32 = self.in_read_byte(8) as u32;
        let b3: u32 = self.in_read_byte(8) as u32;
        let b4: u32 = self.in_read_byte(8) as u32;
        proof {
            lemma_field_value_split(old(self)@, 32, 24);
            lemma_field_value_split(old(self)@, 24, 16);
            lemma_field_value_split(old(self)@, 16, 8);
            lemma2_to64();
            assert(b1 | (b2 << 8) | (b3 << 16) | (b4 << 24)
                == b1 + 0x100 * b2 + 0x1_0000 * b3 + 0x100_0000 * b4) by (bit_vector)
                requires
                    b1 < 256,
                    b2 < 256,
                    b3 < 256,
                    b4 < 256,
            ;
        }
        Ok(b1 | (b2 << 8) | (b3 << 16) | (b4 << 24))
    }

    /// Writes the 64-bit pattern of a double-precision float as 8 whole bytes,
    /// low byte first.
    pub fn write_f64_bits(&mut self, pattern: u64) -> (done: Result<(), BitBufError>)
        ensures
            done is Ok <==> old(self)@.fits(64),
            done is Ok ==> final(self)@ == old(self)@.write(field_bits(pattern, 64)),
            done matches Err(e) ==> e == BitBufError::OutOfBounds && final(self)@ == old(self)@,
    {
        if !self.can_write_bits(64) {
            return Err(BitBufError::OutOfBounds);
        }
        let b1: u8 = #[verifier::truncate] (pattern as u8);
        let b2: u8 = #[verifier::truncate] ((pattern >> 8) as u8);
        let b3: u8 = #[verifier::truncate] ((pattern >> 16) as u8);
        let b4: u8 = #[verifier::truncate] ((pattern >> 24) as u8);
        let b5: u8 = #[verifier::truncate] ((pattern >> 32) as u8);
        let b6: u8 = #[verifier::truncate] ((pattern >> 40) as u8);
        let b7: u8 = #[verifier::truncate] ((pattern >> 48) as u8);
        let b8: u8 = #[verifier::truncate] ((pattern >> 56) as u8);
        assert(pattern >> 0 == pattern) by (bit_vector);
        self.in_write_byte(b1, 8);
        self.in_write_byte(b2, 8);
        self.in_write_byte(b3, 8);
        self.in_write_byte(b4, 8);
        self.in_write_byte(b5, 8);
        self.in_write_byte(b6, 8);
        self.in_write_byte(b7, 8);
        self.in_write_byte(b8, 8);
        proof {
            lemma_write_byte_of(old(self)@, pattern, 0, 8);
            lemma_write_byte_of(old(self)@, pattern, 1, 8);
            lemma_write_byte_of(old(self)@, pattern, 2, 8);
            lemma_write_byte_of(old(self)@, pattern, 3, 8);
            lemma_write_byte_of(old(self)@, pattern, 4, 8);
            lemma_write_byte_of(old(self)@, pattern, 5, 8);
            lemma_write_byte_of(old(self)@, pattern, 6, 8);
            lemma_write_byte_of(old(self)@, pattern, 7, 8);
        }
        Ok(())
    }

    /// Reads 8 whole bytes, low byte first, as the 64-bit pattern of a
    /// double-precision float.
    pub fn read_f64_bits(&mut self) -> (got: Result<u64, BitBufError>)
        ensures
            got is Ok <==> old(self)@.fits(64),
            got matches Ok(pattern) ==> pattern == field_value(old(self)@.field(64))
                && final(self)@ == old(self)@.skip(64),
            got matches Err(e) ==> e == BitBufError::OutOfBounds && final(self)@ == old(self)@,
    {
        if !self.can_read_bits(64) {
            return Err(BitBufError::OutOfBounds);
        }
        let b1: u64 = self.in_read_byte(8) as u64;
        let b2: u64 = self.in_read_byte(8) as u64;
        let b3: u64 = self.in_read_byte(8) as u64;
        let b4: u64 = self.in_read_byte(8) as u64;
        let b5: u64 = self.in_read_byte(8) as u64;
        let b6: u64 = self.in_read_byte(8) as u64;
        let b7: u64 = self.in_read_byte(8) as u64;
        let b8: u64 = self.in_read_byte(8) as u64;
        proof {
            lemma_field_value_split(old(self)@, 64, 56);
            lemma_field_value_split(old(self)@, 56, 48);
            lemma_field_value_split(old(self)@, 48, 40);
            lemma_field_value_split(old(self)@, 40, 32);
            lemma_field_value_split(old(self)@, 32, 24);
            lemma_field_value_split(old(self)@, 24, 16);
            lemma_field_value_split(old(self)@, 16, 8);
            lemma2_to64();
            lemma2_to64_rest();
            assert(b1 | (b2 << 8) | (b3 << 16) | (b4 << 24) | (b5 << 32) | (b6 << 40) | (b7 << 48)
                | (b8 << 56) == b1 + 0x100 * b2 + 0x1_0000 * b3 + 0x100_0000 * b4
                + 0x1_0000_0000 * b5 + 0x100_0000_0000 * b6 + 0x1_0000_0000_0000 * b7
                + 0x100_0000_0000_0000 * b8) by (bit_vector)
                requires
                    b1 < 256,
                    b2 < 256,
                    b3 < 256,
                    b4 < 256,
                    b5 < 256,
                    b6 < 256,
                    b7 < 256,
                    b8 < 256,
            ;
        }
        Ok(
            b1 | (b2 << 8) | (b3 << 16) | (b4 << 24) | (b5 << 32) | (b6 << 40) | (b7 << 48)
                | (b8 << 56),
        )
    }
}

} // verus!
