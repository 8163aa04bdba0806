//! The two capabilities by which a compound record joins the wire format.
//!
//! A record encodes itself by writing its fields in a fixed order, and decodes
//! itself by reading them back in the same order at the same widths. The
//! buffer embeds no description of the fields, and it asks nothing of the
//! order or the widths that a record chooses.

use crate::buffer::BitBuf;
use crate::error::BitBufError;
use vstd::prelude::*;

verus! {

/// A record that can encode itself into a buffer.
pub trait WriteToBitBuf {
    /// Writes the fields of `self` at the cursor of `buf`, one after another.
    fn write_to_bitbuf(&self, buf: &mut BitBuf) -> Result<(), BitBufError>;
}

/// A record that can be decoded from a buffer.
pub trait FromBitBuf: Sized {
    /// Reads the fields of a record at the cursor of `buf`, in the order in
    /// which they were written.
    fn from_bitbuf(buf: &mut BitBuf) -> Result<Self, BitBufError>;
}

} // verus!
