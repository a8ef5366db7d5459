//! Unpacking the text of an Intel HEX object.

use crate::error::UnpackingError;
use crate::ext::ReaderExt;
use crate::model::unpacked;
use crate::source::{parsed_entries, reader_over};
use vstd::prelude::*;

verus! {

/// The text that `String::from_utf8_lossy` makes of `bytes`: their decoding
/// as UTF-8, with U+FFFD in place of whatever is no valid UTF-8.
pub uninterp spec fn lossy_text(bytes: Seq<u8>) -> Seq<char>;

/// Calls `String::from_utf8_lossy` and takes the text it returns as a
/// `String`. The text depends on the bytes alone.
#[verifier::external_body]
fn decode_lossy(bytes: &[u8]) -> (text: String)
    ensures
        text@ == lossy_text(bytes@),
{
    String::from_utf8_lossy(bytes).into_owned()
}

/// Decodes `text` line by line and unpacks its records into a new image of
/// `binary_size` bytes; returns the image and the number of payload bytes
/// written, or the error of the first line or record that fails.
pub fn load_str(text: &str, binary_size: usize, base_offset: usize) -> (result: Result<
    (Vec<u8>, usize),
    UnpackingError,
>)
    ensures
        unpacked(parsed_entries(text@), binary_size as nat, base_offset) == match result {
            Ok((binary, used_bytes)) => Ok::<(Seq<u8>, usize), UnpackingError>(
                (binary@, used_bytes),
            ),
            Err(error) => Err(error),
        },
{
    reader_over(text).to_vec(binary_size, base_offset)
}

/// Unpacks the contents of an Intel HEX file, read as UTF-8 text: see
/// `load_str`. Bytes that are no valid UTF-8 become U+FFFD, which no line
/// of such a file may hold.
pub fn load_bytes(bytes: &[u8], binary_size: usize, base_offset: usize) -> (result: Result<
    (Vec<u8>, usize),
    UnpackingError,
>)
    ensures
        unpacked(parsed_entries(lossy_text(bytes@)), binary_size as nat, base_offset)
            == match result {
            Ok((binary, used_bytes)) => Ok::<(Seq<u8>, usize), UnpackingError>(
                (binary@, used_bytes),
            ),
            Err(error) => Err(error),
        },
{
    let text = decode_lossy(bytes);
    load_str(text.as_str(), binary_size, base_offset)
}

} // verus!
