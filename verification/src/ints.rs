//! Booleans and integers of 8, 16, 32 and 64 bits, at full width or cut down to
//! a chosen number of low bits.
//!
//! A field wider than 8 bits travels low byte first. A signed value travels as
//! the unsigned value with the same bit pattern, and comes back through the
//! same reinterpretation: nothing is sign-extended.

use crate::buffer::BitBuf;
use crate::error::BitBufError;
use crate::lemmas::{
    lemma_field_bits_low_word, lemma_field_bits_split, lemma_field_value_split,
    lemma_write_byte_of, lemma_write_then_write,
};
use crate::model::{bit_of, field_bits, field_value};
use vstd::arithmetic::power2::lemma2_to64;
use vstd::prelude::*;

verus! {

impl BitBuf {
    /// Writes one bit: set for `true`, clear for `false`.
    pub fn write_bool(&mut self, value: bool) -> (done: Result<(), BitBufError>)
        ensures
            done is Ok <==> old(self)@.fits(1),
            done is Ok ==> final(self)@ == old(self)@.write(seq![value]),
            done matches Err(e) ==> e == BitBufError::OutOfBounds && final(self)@ == old(self)@,
    {
        if !self.can_write_bits(1) {
            return Err(BitBufError::OutOfBounds);
        }
        let bit: u8 = if value { 1 } else { 0 };
        self.in_write_byte(bit, 1);
        proof {
            assert(bit_of(1, 0) && !bit_of(0, 0)) by (bit_vector);
            assert(field_bits(bit as u64, 1) =~= seq![value]);
        }
        Ok(())
    }

    /// Reads one bit: `true` where it is set.
    pub fn read_bool(&mut self) -> (got: Result<bool, BitBufError>)
        ensures
            got is Ok <==> old(self)@.fits(1),
            got matches Ok(value) ==> value == old(self)@.bits[old(self)@.pos as int]
                && final(self)@ == old(self)@.skip(1),
            got matches Err(e) ==> e == BitBufError::OutOfBounds && final(self)@ == old(self)@,
    {
        if !self.can_read_bits(1) {
            return Err(BitBufError::OutOfBounds);
        }
        let bit: u8 = self.in_read_byte(1);
        proof {
            let field = old(self)@.field(1);
            assert(field_value(field.drop_first()) == 0);
        }
        Ok(bit == 1)
    }

    /// Writes all 8 bits of `value`.
    pub fn write_u8(&mut self, value: u8) -> (done: Result<(), BitBufError>)
        ensures
            done is Ok <==> old(self)@.fits(8),
            done is Ok ==> final(self)@ == old(self)@.write(field_bits(value as u64, 8)),
            done matches Err(e) ==> e == BitBufError::OutOfBounds && final(self)@ == old(self)@,
    {
        self.write_u8_part(value, 8)
    }

    /// Reads 8 bits as a `u8`.
    pub fn read_u8(&mut self) -> (got: Result<u8, BitBufError>)
        ensures
            got is Ok <==> old(self)@.fits(8),
            got matches Ok(value) ==> value == field_value(old(self)@.field(8))
                && final(self)@ == old(self)@.skip(8),
            got matches Err(e) ==> e == BitBufError::OutOfBounds && final(self)@ == old(self)@,
    {
        self.read_u8_part(8)
    }

    /// Writes the low `bits` bits of `value`, where `bits` is 1 to 8.
    pub fn write_u8_part(&mut self, value: u8, bits: u8) -> (done: Result<(), BitBufError>)
        ensures
            done is Ok <==> 1 <= bits <= 8 && old(self)@.fits(bits as nat),
            done is Ok ==> final(self)@ == old(self)@.write(field_bits(value as u64, bits as nat)),
            done matches Err(e) ==> e == BitBufError::OutOfBounds && final(self)@ == old(self)@,
    {
        if bits < 1 || bits > 8 || !self.can_write_bits(bits as usize) {
            return Err(BitBufError::OutOfBounds);
        }
        self.in_write_byte(value, bits);
        Ok(())
    }

    /// Reads `bits` bits as a `u8`, where `bits` is 1 to 8.
    pub fn read_u8_part(&mut self, bits: u8) -> (got: Result<u8, BitBufError>)
        ensures
            got is Ok <==> 1 <= bits <= 8 && old(self)@.fits(bits as nat),
            got matches Ok(value) ==> value == field_value(old(self)@.field(bits as nat))
                && final(self)@ == old(self)@.skip(bits as nat),
            got matches Err(e) ==> e == BitBufError::OutOfBounds && final(self)@ == old(self)@,
    {
        if bits < 1 || bits > 8 || !self.can_read_bits(bits as usize) {
            return Err(BitBufError::OutOfBounds);
        }
        Ok(self.in_read_byte(bits))
    }

    /// Writes all 8 bits of `value`.
    pub fn write_i8(&mut self, value: i8) -> (done: Result<(), BitBufError>)
        ensures
            done is Ok <==> old(self)@.fits(8),
            done is Ok ==> final(self)@ == old(self)@.write(field_bits((value as u8) as u64, 8)),
            done matches Err(e) ==> e == BitBufError::OutOfBounds && final(self)@ == old(self)@,
    {
        self.write_i8_part(value, 8)
    }

    /// Reads 8 bits as an `i8`.
    pub fn read_i8(&mut self) -> (got: Result<i8, BitBufError>)
        ensures
            got is Ok <==> old(self)@.fits(8),
            got matches Ok(value) ==> value == (field_value(old(self)@.field(8)) as u8) as i8
                && final(self)@ == old(self)@.skip(8),
            got matches Err(e) ==> e == BitBufError::OutOfBounds && final(self)@ == old(self)@,
    {
        self.read_i8_part(8)
    }

    /// Writes the low `bits` bits of the bit pattern of `value`, where `bits`
    /// is 1 to 8.
    pub fn write_i8_part(&mut self, value: i8, bits: u8) -> (done: Result<(), BitBufError>)
        ensures
            done is Ok <==> 1 <= bits <= 8 && old(self)@.fits(bits as nat),
            done is Ok ==> final(self)@ == old(self)@.write(
                field_bits((value as u8) as u64, bits as nat),
            ),
            done matches Err(e) ==> e == BitBufError::OutOfBounds && final(self)@ == old(self)@,
    {
        self.write_u8_part(#[verifier::truncate] (value as u8), bits)
    }

    /// Reads `bits` bits, where `bits` is 1 to 8, and takes the number they
    /// stand for as the bit pattern of an `i8`. With fewer than 8 bits the
    /// result is never negative.
    pub fn read_i8_part(&mut self, bits: u8) -> (got: Result<i8, BitBufError>)
        ensures
            got is Ok <==> 1 <= bits <= 8 && old(self)@.fits(bits as nat),
            got matches Ok(value) ==> value == (field_value(old(self)@.field(bits as nat)) as u8)
                as i8 && final(self)@ == old(self)@.skip(bits as nat),
            got matches Err(e) ==> e == BitBufError::OutOfBounds && final(self)@ == old(self)@,
    {
        match self.read_u8_part(bits) {
            Ok(pattern) => Ok(#[verifier::truncate] (pattern as i8)),
            Err(e) => Err(e),
        }
    }

    /// Writes all 16 bits of `value`, low byte first.
    pub fn write_u16(&mut self, value: u16) -> (done: Result<(), BitBufError>)
        ensures
            done is Ok <==> old(self)@.fits(16),
            done is Ok ==> final(self)@ == old(self)@.write(field_bits(value as u64, 16)),
            done matches Err(e) ==> e == BitBufError::OutOfBounds && final(self)@ == old(self)@,
    {
        self.write_u16_part(value, 16)
    }

    /// Reads 16 bits as a `u16`.
    pub fn read_u16(&mut self) -> (got: Result<u16, BitBufError>)
        ensures
            got is Ok <==> old(self)@.fits(16),
            got matches Ok(value) ==> value == field_value(old(self)@.field(16))
                && final(self)@ == old(self)@.skip(16),
            got matches Err(e) ==> e == BitBufError::OutOfBounds && final(self)@ == old(self)@,
    {
        self.read_u16_part(16)
    }

    /// Writes the low `bits` bits of `value`, where `bits` is 1 to 16: one
    /// engine call for up to 8 bits, two beyond that, low byte first.
    pub fn write_u16_part(&mut self, value: u16, bits: u8) -> (done: Result<(), BitBufError>)
        ensures
            done is Ok <==> 1 <= bits <= 16 && old(self)@.fits(bits as nat),
            done is Ok ==> final(self)@ == old(self)@.write(field_bits(value as u64, bits as nat)),
            done matches Err(e) ==> e == BitBufError::OutOfBounds && final(self)@ == old(self)@,
    {
        if bits < 1 || bits > 16 || !self.can_write_bits(bits as usize) {
            return Err(BitBufError::OutOfBounds);
        }
        let a: u8 = #[verifier::truncate] (value as u8);
        let b: u8 = #[verifier::truncate] ((value >> 8) as u8);
        let ghost wide = value as u64;
        assert(a == (wide >> 0) as u8 && b == (wide >> 8) as u8) by (bit_vector)
            requires
                a == value as u8,
                b == (value >> 8) as u8,
                wide == value as u64,
        ;
        match (bits + 7) / 8 {
            1 => {
                self.in_write_byte(a, bits);
                proof {
                    lemma_write_byte_of(old(self)@, wide, 0, bits as nat);
                }
            },
            2 => {
                self.in_write_byte(a, 8);
                self.in_write_byte(b, bits - 8);
                proof {
                    lemma_write_byte_of(old(self)@, wide, 0, 8);
                    lemma_write_byte_of(old(self)@, wide, 1, (bits - 8) as nat);
                }
            },
            _ => {},
        }
        Ok(())
    }

    /// Reads `bits` bits as a `u16`, where `bits` is 1 to 16: each byte that
    /// the engine hands back is shifted into its place.
    pub fn read_u16_part(&mut self, bits: u8) -> (got: Result<u16, BitBufError>)
        ensures
            got is Ok <==> 1 <= bits <= 16 && old(self)@.fits(bits as nat),
            got matches Ok(value) ==> value == field_value(old(self)@.field(bits as nat))
                && final(self)@ == old(self)@.skip(bits as nat),
            got matches Err(e) ==> e == BitBufError::OutOfBounds && final(self)@ == old(self)@,
    {
        if bits < 1 || bits > 16 || !self.can_read_bits(bits as usize) {
            return Err(BitBufError::OutOfBounds);
        }
        let mut a: u16 = 0;
        let mut b: u16 = 0;
        match (bits + 7) / 8 {
            1 => {
                a = self.in_read_byte(bits) as u16;
            },
            2 => {
                a = self.in_read_byte(8) as u16;
                b = self.in_read_byte(bits - 8) as u16;
                proof {
                    lemma_field_value_split(old(self)@, bits as nat, 8);
                }
            },
            _ => {},
        }
        proof {
            lemma2_to64();
            assert(a | (b << 8) == a + 0x100 * b) by (bit_vector)
                requires
                    a < 256,
                    b < 256,
            ;
        }
        Ok(a | (b << 8))
    }

    /// Writes all 16 bits of `value`.
    pub fn write_i16(&mut self, value: i16) -> (done: Result<(), BitBufError>)
        ensures
            done is Ok <==> old(self)@.fits(16),
            done is Ok ==> final(self)@ == old(self)@.write(
                field_bits((value as u16) as u64, 16),
            ),
            done matches Err(e) ==> e == BitBufError::OutOfBounds && final(self)@ == old(self)@,
    {
        self.write_i16_part(value, 16)
    }

    /// Reads 16 bits as an `i16`.
    pub fn read_i16(&mut self) -> (got: Result<i16, BitBufError>)
        ensures
            got is Ok <==> old(self)@.fits(16),
            got matches Ok(value) ==> value == (field_value(old(self)@.field(16)) as u16) as i16
                && final(self)@ == old(self)@.skip(16),
            got matches Err(e) ==> e == BitBufError::OutOfBounds && final(self)@ == old(self)@,
    {
        self.read_i16_part(16)
    }

    /// Writes the low `bits` bits of the bit pattern of `value`, where `bits`
    /// is 1 to 16.
    pub fn write_i16_part(&mut self, value: i16, bits: u8) -> (done: Result<(), BitBufError>)
        ensures
            done is Ok <==> 1 <= bits <= 16 && old(self)@.fits(bits as nat),
            done is Ok ==> final(self)@ == old(self)@.write(
                field_bits((value as u16) as u64, bits as nat),
            ),
            done matches Err(e) ==> e == BitBufError::OutOfBounds && final(self)@ == old(self)@,
    {
        self.write_u16_part(#[verifier::truncate] (value as u16), bits)
    }

    /// Reads `bits` bits, where `bits` is 1 to 16, and takes the number they
    /// stand for as the bit pattern of an `i16`. With fewer than 16 bits the
    /// result is never negative.
    pub fn read_i16_part(&mut self, bits: u8) -> (got: Result<i16, BitBufError>)
        ensures
            got is Ok <==> 1 <= bits <= 16 && old(self)@.fits(bits as nat),
            got matches Ok(value) ==> value == (field_value(old(self)@.field(bits as nat)) as u16)
                as i16 && final(self)@ == old(self)@.skip(bits as nat),
            got matches Err(e) ==> e == BitBufError::OutOfBounds && final(self)@ == old(self)@,
    {
        match self.read_u16_part(bits) {
            Ok(pattern) => Ok(#[verifier::truncate] (pattern as i16)),
            Err(e) => Err(e),
        }
    }

    /// Writes all 32 bits of `value`, low byte first.
    pub fn write_u32(&mut self, value: u32) -> (done: Result<(), BitBufError>)
        ensures
            done is Ok <==> old(self)@.fits(32),
            done is Ok ==> final(self)@ == old(self)@.write(field_bits(value as u64, 32)),
            done matches Err(e) ==> e == BitBufError::OutOfBounds && final(self)@ == old(self)@,
    {
        self.write_u32_part(value, 32)
    }

    /// Reads 32 bits as a `u32`.
    pub fn read_u32(&mut self) -> (got: Result<u32, BitBufError>)
        ensures
            got is Ok <==> old(self)@.fits(32),
            got matches Ok(value) ==> value == field_value(old(self)@.field(32))
                && final(self)@ == old(self)@.skip(32),
            got matches Err(e) ==> e == BitBufError::OutOfBounds && final(self)@ == old(self)@,
    {
        self.read_u32_part(32)
    }

    /// Writes the low `bits` bits of `value`, where `bits` is 1 to 32: one
    /// engine call for each byte that the field covers, low byte first, the
    /// last of them with the bits that are left.
    pub fn write_u32_part(&mut self, value: u32, bits: u8) -> (done: Result<(), BitBufError>)
        ensures
            done is Ok <==> 1 <= bits <= 32 && old(self)@.fits(bits as nat),
            done is Ok ==> final(self)@ == old(self)@.write(field_bits(value as u64, bits as nat)),
            done matches Err(e) ==> e == BitBufError::OutOfBounds && final(self)@ == old(self)@,
    {
        if bits < 1 || bits > 32 || !self.can_write_bits(bits as usize) {
            return Err(BitBufError::OutOfBounds);
        }
        let a: u8 = #[verifier::truncate] (value as u8);
        let b: u8 = #[verifier::truncate] ((value >> 8) as u8);
        let c: u8 = #[verifier::truncate] ((value >> 16) as u8);
        let d: u8 = #[verifier::truncate] ((value >> 24) as u8);
        let ghost wide = value as u64;
        assert(a == (wide >> 0) as u8 && b == (wide >> 8) as u8 && c == (wide >> 16) as u8
            && d == (wide >> 24) as u8) by (bit_vector)
            requires
                a == value as u8,
                b == (value >> 8) as u8,
                c == (value >> 16) as u8,
                d == (value >> 24) as u8,
                wide == value as u64,
        ;
        match (bits + 7) / 8 {
            1 => {
                self.in_write_byte(a, bits);
                proof {
                    lemma_write_byte_of(old(self)@, wide, 0, bits as nat);
                }
            },
            2 => {
                self.in_write_byte(a, 8);
                self.in_write_byte(b, bits - 8);
                proof {
                    lemma_write_byte_of(old(self)@, wide, 0, 8);
                    lemma_write_byte_of(old(self)@, wide, 1, (bits - 8) as nat);
                }
            },
            3 => {
                self.in_write_byte(a, 8);
                self.in_write_byte(b, 8);
                self.in_write_byte(c, bits - 16);
                proof {
                    lemma_write_byte_of(old(self)@, wide, 0, 8);
                    lemma_write_byte_of(old(self)@, wide, 1, 8);
                    lemma_write_byte_of(old(self)@, wide, 2, (bits - 16) as nat);
                }
            },
            4 => {
                self.in_write_byte(a, 8);
                self.in_write_byte(b, 8);
                self.in_write_byte(c, 8);
                self.in_write_byte(d, bits - 24);
                proof {
                    lemma_write_byte_of(old(self)@, wide, 0, 8);
                    lemma_write_byte_of(old(self)@, wide, 1, 8);
                    lemma_write_byte_of(old(self)@, wide, 2, 8);
                    lemma_write_byte_of(old(self)@, wide, 3, (bits - 24) as nat);
                }
            },
            _ => {},
        }
        Ok(())
    }

    /// Reads `bits` bits as a `u32`, where `bits` is 1 to 32: each byte that
    /// the engine hands back is shifted into its place.
    pub fn read_u32_part(&mut self, bits: u8) -> (got: Result<u32, BitBufError>)
        ensures
            got is Ok <==> 1 <= bits <= 32 && old(self)@.fits(bits as nat),
            got matches Ok(value) ==> value == field_value(old(self)@.field(bits as nat))
                && final(self)@ == old(self)@.skip(bits as nat),
            got matches Err(e) ==> e == BitBufError::OutOfBounds && final(self)@ == old(self)@,
    {
        if bits < 1 || bits > 32 || !self.can_read_bits(bits as usize) {
            return Err(BitBufError::OutOfBounds);
        }
        let mut a: u32 = 0;
        let mut b: u32 = 0;
        let mut c: u32 = 0;
        let mut d: u32 = 0;
        match (bits + 7) / 8 {
            1 => {
                a = self.in_read_byte(bits) as u32;
            },
            2 => {
                a = self.in_read_byte(8) as u32;
                b = self.in_read_byte(bits - 8) as u32;
                proof {
                    lemma_field_value_split(old(self)@, bits as nat, 8);
                }
            },
            3 => {
                a = self.in_read_byte(8) as u32;
                b = self.in_read_byte(8) as u32;
                c = self.in_read_byte(bits - 16) as u32;
                proof {
                    lemma_field_value_split(old(self)@, bits as nat, 16);
                    lemma_field_value_split(old(self)@, 16, 8);
                }
            },
            4 => {
                a = self.in_read_byte(8) as u32;
                b = self.in_read_byte(8) as u32;
                c = self.in_read_byte(8) as u32;
                d = self.in_read_byte(bits - 24) as u32;
                proof {
                    lemma_field_value_split(old(self)@, bits as nat, 24);
                    lemma_field_value_split(old(self)@, 24, 16);
                    lemma_field_value_split(old(self)@, 16, 8);
                }
            },
            _ => {},
        }
        proof {
            lemma2_to64();
            assert(a | (b << 8) | (c << 16) | (d << 24)
                == a + 0x100 * b + 0x1_0000 * c + 0x100_0000 * d) by (bit_vector)
                requires
                    a < 256,
                    b < 256,
                    c < 256,
                    d < 256,
            ;
        }
        Ok(a | (b << 8) | (c << 16) | (d << 24))
    }

    /// Writes all 32 bits of `value`.
    pub fn write_i32(&mut self, value: i32) -> (done: Result<(), BitBufError>)
        ensures
            done is Ok <==> old(self)@.fits(32),
            done is Ok ==> final(self)@ == old(self)@.write(
                field_bits((value as u32) as u64, 32),
            ),
            done matches Err(e) ==> e == BitBufError::OutOfBounds && final(self)@ == old(self)@,
    {
        self.write_i32_part(value, 32)
    }

    /// Reads 32 bits as an `i32`.
    pub fn read_i32(&mut self) -> (got: Result<i32, BitBufError>)
        ensures
            got is Ok <==> old(self)@.fits(32),
            got matches Ok(value) ==> value == (field_value(old(self)@.field(32)) as u32) as i32
                && final(self)@ == old(self)@.skip(32),
            got matches Err(e) ==> e == BitBufError::OutOfBounds && final(self)@ == old(self)@,
    {
        self.read_i32_part(32)
    }

    /// Writes the low `bits` bits of the bit pattern of `value`, where `bits`
    /// is 1 to 32.
    pub fn write_i32_part(&mut self, value: i32, bits: u8) -> (done: Result<(), BitBufError>)
        ensures
            done is Ok <==> 1 <= bits <= 32 && old(self)@.fits(bits as nat),
            done is Ok ==> final(self)@ == old(self)@.write(
                field_bits((value as u32) as u64, bits as nat),
            ),
            done matches Err(e) ==> e == BitBufError::OutOfBounds && final(self)@ == old(self)@,
    {
        self.write_u32_part(#[verifier::truncate] (value as u32), bits)
    }

    /// Reads `bits` bits, where `bits` is 1 to 32, and takes the number they
    /// stand for as the bit pattern of an `i32`. With fewer than 32 bits the
    /// result is never negative.
    pub fn read_i32_part(&mut self, bits: u8) -> (got: Result<i32, BitBufError>)
        ensures
            got is Ok <==> 1 <= bits <= 32 && old(self)@.fits(bits as nat),
            got matches Ok(value) ==> value == (field_value(old(self)@.field(bits as nat)) as u32)
                as i32 && final(self)@ == old(self)@.skip(bits as nat),
            got matches Err(e) ==> e == BitBufError::OutOfBounds && final(self)@ == old(self)@,
    {
        match self.read_u32_part(bits) {
            Ok(pattern) => Ok(#[verifier::truncate] (pattern as i32)),
            Err(e) => Err(e),
        }
    }
    /// Writes all 64 bits of `value`, low byte first.
    pub fn write_u64(&mut self, value: u64) -> (done: Result<(), BitBufError>)
        ensures
            done is Ok <==> old(self)@.fits(64),
            done is Ok ==> final(self)@ == old(self)@.write(field_bits(value, 64)),
            done matches Err(e) ==> e == BitBufError::OutOfBounds && final(self)@ == old(self)@,
    {
        self.write_u64_part(value, 64)
    }

    /// Reads 64 bits as a `u64`.
    pub fn read_u64(&mut self) -> (got: Result<u64, BitBufError>)
        ensures
            got is Ok <==> old(self)@.fits(64),
            got matches Ok(value) ==> value == field_value(old(self)@.field(64))
                && final(self)@ == old(self)@.skip(64),
            got matches Err(e) ==> e == BitBufError::OutOfBounds && final(self)@ == old(self)@,
    {
        self.read_u64_part(64)
    }

    /// Writes the low `bits` bits of `value`, where `bits` is 1 to 64. Up to 32
    /// bits go out as one 32-bit field; beyond that the low 32 bits go first,
    /// then the rest.
    pub fn write_u64_part(&mut self, value: u64, bits: u8) -> (done: Result<(), BitBufError>)
        ensures
            done is Ok <==> 1 <= bits <= 64 && old(self)@.fits(bits as nat),
            done is Ok ==> final(self)@ == old(self)@.write(field_bits(value, bits as nat)),
            done matches Err(e) ==> e == BitBufError::OutOfBounds && final(self)@ == old(self)@,
    {
        if bits < 1 || bits > 64 || !self.can_write_bits(bits as usize) {
            return Err(BitBufError::OutOfBounds);
        }
        let low: u32 = (value & 0xFFFF_FFFF) as u32;
        let high: u32 = (value >> 32) as u32;
        proof {
            assert(value & 0xFFFF_FFFF <= 0xFFFF_FFFF && value >> 32 <= 0xFFFF_FFFF && (value
                & 0xFFFF_FFFF) as u32 == value as u32) by (bit_vector);
        }
        if bits <= 32 {
            proof {
                lemma_field_bits_low_word(value, bits as nat);
            }
            self.write_u32_part(low, bits)
        } else {
            proof {
                lemma_field_bits_split(value, bits as nat, 32);
                lemma_field_bits_low_word(value, 32);
                lemma_write_then_write(
                    old(self)@,
                    field_bits(low as u64, 32),
                    field_bits(high as u64, (bits - 32) as nat),
                );
            }
            match self.write_u32_part(low, 32) {
                Ok(()) => self.write_u32_part(high, bits - 32),
                Err(e) => Err(e),
            }
        }
    }

    /// Reads `bits` bits as a `u64`, where `bits` is 1 to 64. Up to 32 bits
    /// come in as one 32-bit field; beyond that the low 32 bits come first, and
    /// the rest is placed above them.
    pub fn read_u64_part(&mut self, bits: u8) -> (got: Result<u64, BitBufError>)
        ensures
            got is Ok <==> 1 <= bits <= 64 && old(self)@.fits(bits as nat),
            got matches Ok(value) ==> value == field_value(old(self)@.field(bits as nat))
                && final(self)@ == old(self)@.skip(bits as nat),
            got matches Err(e) ==> e == BitBufError::OutOfBounds && final(self)@ == old(self)@,
    {
        if bits < 1 || bits > 64 || !self.can_read_bits(bits as usize) {
            return Err(BitBufError::OutOfBounds);
        }
        if bits <= 32 {
            match self.read_u32_part(bits) {
                Ok(value) => Ok(value as u64),
                Err(e) => Err(e),
            }
        } else {
            let a: u64 = match self.read_u32_part(32) {
                Ok(low) => low as u64,
                Err(e) => { return Err(e); },
            };
            let b: u64 = match self.read_u32_part(bits - 32) {
                Ok(high) => high as u64,
                Err(e) => { return Err(e); },
            };
            proof {
                lemma_field_value_split(old(self)@, bits as nat, 32);
                lemma2_to64();
                assert(a | (b << 32) == a + 0x1_0000_0000 * b) by (bit_vector)
                    requires
                        a <= 0xFFFF_FFFF,
                        b <= 0xFFFF_FFFF,
                ;
            }
            Ok(a | (b << 32))
        }
    }

    /// Writes all 64 bits of `value`.
    pub fn write_i64(&mut self, value: i64) -> (done: Result<(), BitBufError>)
        ensures
            done is Ok <==> old(self)@.fits(64),
            done is Ok ==> final(self)@ == old(self)@.write(field_bits(value as u64, 64)),
            done matches Err(e) ==> e == BitBufError::OutOfBounds && final(self)@ == old(self)@,
    {
        self.write_u64_part(#[verifier::truncate] (value as u64), 64)
    }

    /// Reads 64 bits as an `i64`.
    pub fn read_i64(&mut self) -> (got: Result<i64, BitBufError>)
        ensures
            got is Ok <==> old(self)@.fits(64),
            got matches Ok(value) ==> value == (field_value(old(self)@.field(64)) as u64) as i64
                && final(self)@ == old(self)@.skip(64),
            got matches Err(e) ==> e == BitBufError::OutOfBounds && final(self)@ == old(self)@,
    {
        match self.read_u64_part(64) {
            Ok(pattern) => Ok(#[verifier::truncate] (pattern as i64)),
            Err(e) => Err(e),
        }
    }

    /// Writes the low `bits` bits of the bit pattern of `value`, where `bits`
    /// is 1 to 64.
    pub fn write_i64_part(&mut self, value: i64, bits: u8) -> (done: Result<(), BitBufError>)
        ensures
            done is Ok <==> 1 <= bits <= 64 && old(self)@.fits(bits as nat),
            done is Ok ==> final(self)@ == old(self)@.write(field_bits(value as u64, bits as nat)),
            done matches Err(e) ==> e == BitBufError::OutOfBounds && final(self)@ == old(self)@,
    {
        self.write_u64_part(#[verifier::truncate] (value as u64), bits)
    }

    /// Reads `bits` bits, where `bits` is 1 to 64, and takes the number they
    /// stand for as the bit pattern of an `i64`. With fewer than 64 bits the
    /// result is never negative.
    pub fn read_i64_part(&mut self, bits: u8) -> (got: Result<i64, BitBufError>)
        ensures
            got is Ok <==> 1 <= bits <= 64 && old(self)@.fits(bits as nat),
            got matches Ok(value) ==> value == (field_value(old(self)@.field(bits as nat)) as u64)
                as i64 && final(self)@ == old(self)@.skip(bits as nat),
            got matches Err(e) ==> e == BitBufError::OutOfBounds && final(self)@ == old(self)@,
    {
        match self.read_u64_part(bits) {
            Ok(pattern) => Ok(#[verifier::truncate] (pattern as i64)),
            Err(e) => Err(e),
        }
    }
}

} // verus!
