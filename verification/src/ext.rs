//! Unpacking into a buffer that the library allocates.

use crate::error::UnpackingError;
use crate::model::{blank_image, unpacked, FILL};
use crate::source::RecordSource;
use crate::unpacker::unpack_records;
use vstd::prelude::*;

verus! {

/// Unpacks a record source into a new image in which every byte that no
/// record writes holds `0xFF`.
pub trait ReaderExt: RecordSource + Sized {
    /// Unpacks the records into a new vector of `binary_size` bytes and
    /// returns it with the number of payload bytes written.
    fn to_vec(self, binary_size: usize, base_offset: usize) -> (result: Result<
        (Vec<u8>, usize),
        UnpackingError,
    >)
        ensures
            unpacked(self.pending(), binary_size as nat, base_offset) == match result {
                Ok((binary, used_bytes)) => Ok::<(Seq<u8>, usize), UnpackingError>(
                    (binary@, used_bytes),
                ),
                Err(error) => Err(error),
            },
    ;

    /// Unpacks the records into a new array of `N` bytes and returns it
    /// with the number of payload bytes written.
    fn to_array<const N: usize>(self, base_offset: usize) -> (result: Result<
        ([u8; N], usize),
        UnpackingError,
    >)
        ensures
            unpacked(self.pending(), N as nat, base_offset) == match result {
                Ok((binary, used_bytes)) => Ok::<(Seq<u8>, usize), UnpackingError>(
                    (binary@, used_bytes),
                ),
                Err(error) => Err(error),
            },
    ;
}

impl<S: RecordSource> ReaderExt for S {
    fn to_vec(self, binary_size: usize, base_offset: usize) -> (result: Result<
        (Vec<u8>, usize),
        UnpackingError,
    >) {
        let mut records = self;
        let mut binary: Vec<u8> = vec![FILL; binary_size];
        assert(binary@ == blank_image(binary_size as nat));
        match unpack_records(&mut records, binary.as_mut_slice(), base_offset) {
            Ok(used_bytes) => Ok((binary, used_bytes)),
            Err(error) => Err(error),
        }
    }

    fn to_array<const N: usize>(self, base_offset: usize) -> (result: Result<
        ([u8; N], usize),
        UnpackingError,
    >) {
        let mut records = self;
        let mut binary: [u8; N] = [FILL; N];
        assert(binary@ == blank_image(N as nat));
        match unpack_records(&mut records, &mut binary, base_offset) {
            Ok(used_bytes) => Ok((binary, used_bytes)),
            Err(error) => Err(error),
        }
    }
}

} // verus!
