//! Unpacks a stream of Intel HEX records into a flat binary image.
//!
//! A record source hands out decoded records one at a time. The unpacker
//! keeps a running base address, copies every data payload to its place in
//! a buffer of fixed size and counts the bytes it wrote. A run ends with
//! the first end-of-file record, with the first entry that fails, or when
//! the source has nothing left; an end-of-file record is not needed.
//!
//! What a run does is defined in [`model`] as a function on sequences. The
//! executable functions are proved to compute exactly that, and [`laws`]
//! holds what is proved of the model itself: which byte a position of the
//! image ends up with, how bytes are counted, where a run stops.
//!
//! Two decisions on the edges of the address arithmetic:
//!
//! - The base address is the value of the last record that set it, shifted,
//!   less the base offset of the run. A record whose shifted value lies
//!   below the base offset ends the run with
//!   [`UnpackingError::BaseTooLow`]; the base address never wraps around.
//! - The count of bytes written stops at `usize::MAX`, and so does the
//!   address given in [`UnpackingError::AddressTooHigh`].

pub mod error;
pub mod ext;
pub mod laws;
pub mod load;
pub mod model;
pub mod record;
pub mod source;
pub mod unpacker;

pub use error::UnpackingError;
pub use ext::ReaderExt;
pub use load::{load_bytes, load_str};
pub use model::Entry;
pub use record::HexRecord;
pub use source::RecordSource;
pub use unpacker::{unpack_records, Unpacker};
