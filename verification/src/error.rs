//! The ways in which unpacking can fail.

use ihex::ReaderError;
use vstd::prelude::*;

verus! {

/// The failure that `ihex` reports for a line it cannot decode. The library
/// carries such a value from the reader to the caller and never looks inside.
#[verifier::external_type_specification]
#[verifier::external_body]
pub struct ExReaderError(ihex::ReaderError);

/// Why a run of the unpacker stopped before the end of its records.
#[derive(Debug, PartialEq)]
pub enum UnpackingError {
    /// The record source reported a line that it could not decode.
    Parsing(ReaderError),
    /// A data record ends at the first address, beyond the image whose
    /// length is the second. An end address that does not fit in `usize`
    /// is given as `usize::MAX`.
    AddressTooHigh(usize, usize),
    /// A record set the base address to the first value, which lies below
    /// the base offset given second, so that the image has no place for it.
    BaseTooLow(usize, usize),
}

/// A failure to decode a line, taken as the failure of the run that met it.
impl From<ReaderError> for UnpackingError {
    fn from(cause: ReaderError) -> (error: UnpackingError) {
        UnpackingError::Parsing(cause)
    }
}

impl vstd::std_specs::convert::FromSpecImpl<ReaderError> for UnpackingError {
    open spec fn obeys_from_spec() -> bool {
        true
    }

    open spec fn from_spec(cause: ReaderError) -> UnpackingError {
        UnpackingError::Parsing(cause)
    }
}

} // verus!
