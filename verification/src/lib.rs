//! A fixed-capacity bit-packing buffer with a single cursor.
//!
//! Values are written and read as fields of an arbitrary number of bits, packed
//! one after another without padding to byte boundaries. The sequence of bits in
//! the buffer is the wire format: a reader recovers the data by replaying the
//! same sequence of typed reads that the writer made.

pub mod buffer;
pub mod error;
pub mod floats;
pub mod ints;
pub mod laws;
pub mod lemmas;
pub mod model;
pub mod record;
pub mod text;

pub use buffer::BitBuf;
pub use error::BitBufError;
pub use model::BitBufView;
pub use record::{FromBitBuf, WriteToBitBuf};
