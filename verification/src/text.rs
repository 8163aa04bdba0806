//! Byte sequences and length-prefixed strings.
//!
//! A byte sequence travels as its bytes, each a full field of 8 bits, with
//! nothing before or after: the reader has to know the count. A string travels
//! as the byte length of its UTF-8 encoding, a full 32-bit field, followed by
//! the encoded bytes.

use crate::buffer::BitBuf;
use crate::error::BitBufError;
use crate::lemmas::{lemma_byte_bits_push, lemma_write_nothing, lemma_write_then_write};
use crate::model::{
    byte_bits, bytes_at, field_bits, string_bytes, string_field, string_fits, string_len,
};
use vstd::prelude::*;
use vstd::utf8::{decode_utf8, encode_utf8, valid_utf8};

verus! {

/// `String::from_utf8` of the standard library, with its error dropped.
///
/// The standard library documents that the call succeeds exactly on byte
/// sequences that are valid UTF-8 and that the string it returns holds the very
/// bytes it was given. The contract says so over `valid_utf8` and `decode_utf8`
/// of vstd; it rests on the documentation and is not proved.
#[verifier::external_body]
fn string_from_utf8(bytes: Vec<u8>) -> (text: Option<String>)
    ensures
        text is Some <==> valid_utf8(bytes@),
        text matches Some(s) ==> s@ == decode_utf8(bytes@),
{
    match String::from_utf8(bytes) {
        Ok(text) => Some(text),
        Err(_) => None,
    }
}

impl BitBuf {
    /// Writes each byte of `value`, in order, as a full field of 8 bits.
    pub fn write_u8_slice(&mut self, value: &[u8]) -> (done: Result<(), BitBufError>)
        ensures
            done is Ok <==> old(self)@.fits(8 * value@.len()),
            done is Ok ==> final(self)@ == old(self)@.write(byte_bits(value@)),
            done matches Err(e) ==> e == BitBufError::OutOfBounds && final(self)@ == old(self)@,
    {
        if !self.can_write_bytes(value.len()) {
            return Err(BitBufError::OutOfBounds);
        }
        let ghost before = self@;
        proof {
            lemma_write_nothing(before);
            assert(byte_bits(value@.subrange(0, 0)) =~= Seq::empty());
        }
        for i in 0..value.len()
            invariant
                before.fits(8 * value@.len()),
                self@ == before.write(byte_bits(value@.subrange(0, i as int))),
        {
            let ghost sent = value@.subrange(0, i as int);
            self.in_write_byte(value[i], 8);
            proof {
                lemma_byte_bits_push(sent, value@[i as int]);
                assert(value@.subrange(0, i + 1) =~= sent.push(value@[i as int]));
                lemma_write_then_write(
                    before,
                    byte_bits(sent),
                    field_bits(value@[i as int] as u64, 8),
                );
            }
        }
        proof {
            assert(value@.subrange(0, value@.len() as int) =~= value@);
        }
        Ok(())
    }

    /// Reads `length` bytes, each a full field of 8 bits, in order.
    pub fn read_vec_u8(&mut self, length: usize) -> (got: Result<Vec<u8>, BitBufError>)
        ensures
            got is Ok <==> old(self)@.fits(8 * length as nat),
            got matches Ok(bytes) ==> bytes@ == bytes_at(
                old(self)@.bits,
                old(self)@.pos as int,
                length as nat,
            ) && final(self)@ == old(self)@.skip(8 * length as nat),
            got matches Err(e) ==> e == BitBufError::OutOfBounds && final(self)@ == old(self)@,
    {
        if !self.can_read_bytes(length) {
            return Err(BitBufError::OutOfBounds);
        }
        let ghost before = self@;
        let mut bytes: Vec<u8> = Vec::with_capacity(length);
        for i in 0..length
            invariant
                before.fits(8 * length as nat),
                self@ == before.skip(8 * i as nat),
                bytes@ == bytes_at(before.bits, before.pos as int, i as nat),
        {
            let b: u8 = self.in_read_byte(8);
            bytes.push(b);
            proof {
                assert(bytes@ =~= bytes_at(before.bits, before.pos as int, (i + 1) as nat));
            }
        }
        Ok(bytes)
    }

    /// Writes `value` as a length-prefixed string: the byte length of its UTF-8
    /// encoding as a `u32`, a full 32-bit field, then the encoded bytes.
    /// Nothing is written unless prefix and bytes both fit.
    pub fn write_string(&mut self, value: &str) -> (done: Result<(), BitBufError>)
        ensures
            done is Ok <==> old(self)@.fits(32 + 8 * encode_utf8(value@).len()),
            done is Ok ==> final(self)@ == old(self)@.write(string_field(value@)),
            done matches Err(e) ==> e == BitBufError::OutOfBounds && final(self)@ == old(self)@,
    {
        let bytes: &[u8] = value.as_bytes();
        let len: usize = bytes.len();
        let room: usize = self.bit_size() - self.bit_pos();
        if room < 32 || len > (room - 32) / 8 {
            return Err(BitBufError::OutOfBounds);
        }
        let prefix: u32 = #[verifier::truncate] (len as u32);
        proof {
            lemma_write_then_write(self@, field_bits(prefix as u64, 32), byte_bits(bytes@));
        }
        match self.write_u32(prefix) {
            Ok(()) => self.write_u8_slice(bytes),
            Err(e) => Err(e),
        }
    }

    /// Reads a length-prefixed string: a `u32` length, then as many bytes,
    /// decoded as UTF-8. Bytes that are not valid UTF-8 are reported as
    /// `InvalidEncoding`. On either error the cursor is where it was.
    pub fn read_string(&mut self) -> (got: Result<String, BitBufError>)
        ensures
            got is Ok <==> string_fits(old(self)@) && valid_utf8(string_bytes(old(self)@)),
            got matches Ok(text) ==> text@ == decode_utf8(string_bytes(old(self)@))
                && final(self)@ == old(self)@.skip(32 + 8 * string_len(old(self)@)),
            got matches Err(e) ==> final(self)@ == old(self)@
                && (e == BitBufError::OutOfBounds <==> !string_fits(old(self)@))
                && (e == BitBufError::InvalidEncoding <==> string_fits(old(self)@)),
    {
        let start: usize = self.bit_pos();
        let len: usize = match self.read_u32() {
            Ok(prefix) => prefix as usize,
            Err(e) => { return Err(e); },
        };
        let bytes: Vec<u8> = match self.read_vec_u8(len) {
            Ok(bytes) => bytes,
            Err(e) => {
                self.restore_bit_pos(start);
                return Err(e);
            },
        };
        match string_from_utf8(bytes) {
            Some(text) => Ok(text),
            None => {
                self.restore_bit_pos(start);
                Err(BitBufError::InvalidEncoding)
            },
        }
    }
}

} // verus!
