//! The mathematical model of unpacking: what a sequence of records does to
//! an image, stated over sequences and unbounded integers.

use crate::error::UnpackingError;
use crate::record::HexRecord;
use ihex::ReaderError;
use vstd::prelude::*;

verus! {

/// The byte that an image holds wherever nothing was written.
pub const FILL: u8 = 0xFF;

/// What a record source yields: a record, or the failure to decode one.
pub type Entry = Result<HexRecord, ReaderError>;

/// `n`, or `usize::MAX` where `n` is larger.
pub open spec fn clamp(n: nat) -> usize {
    if n > usize::MAX {
        usize::MAX
    } else {
        n as usize
    }
}

/// An image of `len` bytes in which nothing has been written.
pub open spec fn blank_image(len: nat) -> Seq<u8> {
    Seq::new(len, |i: int| FILL)
}

/// `image` with `bytes` written over the positions from `start` on.
pub open spec fn write_at(image: Seq<u8>, start: int, bytes: Seq<u8>) -> Seq<u8> {
    Seq::new(
        image.len(),
        |i: int|
            if start <= i < start + bytes.len() {
                bytes[i - start]
            } else {
                image[i]
            },
    )
}

/// The state of a run between two records.
pub struct Progress {
    /// The image as written so far.
    pub image: Seq<u8>,
    /// The address of the image's byte to which offset 0 of a data record goes.
    pub base_address: nat,
    /// The number of payload bytes written so far, counted up to `usize::MAX`.
    pub used_bytes: nat,
}

impl Progress {
    /// The state before the first record: base address 0, nothing written.
    pub open spec fn start(image: Seq<u8>) -> Progress {
        Progress { image, base_address: 0, used_bytes: 0 }
    }
}

/// The state after a record has set the base address to `shifted` less the
/// base offset; an error where the base offset is the larger of the two.
pub open spec fn rebase(p: Progress, shifted: nat, base_offset: usize) -> Result<
    Progress,
    UnpackingError,
> {
    if shifted >= base_offset {
        Ok(Progress { base_address: (shifted - base_offset) as nat, ..p })
    } else {
        Err(UnpackingError::BaseTooLow(clamp(shifted), base_offset))
    }
}

/// The state after a data record: its bytes written from the base address
/// plus `offset` on and counted, or an error, with nothing written, where
/// they would reach beyond the image.
pub open spec fn place(p: Progress, offset: u16, bytes: Seq<u8>) -> Result<
    Progress,
    UnpackingError,
> {
    let start = p.base_address + offset as nat;
    let end = start + bytes.len();
    if end > p.image.len() {
        Err(UnpackingError::AddressTooHigh(clamp(end), clamp(p.image.len())))
    } else {
        Ok(
            Progress {
                image: write_at(p.image, start as int, bytes),
                used_bytes: clamp(p.used_bytes + bytes.len()) as nat,
                ..p
            },
        )
    }
}

/// The state after one record, or the error that it raises.
pub open spec fn apply(p: Progress, record: HexRecord, base_offset: usize) -> Result<
    Progress,
    UnpackingError,
> {
    match record {
        HexRecord::Data { offset, value } => place(p, offset, value@),
        HexRecord::ExtendedSegmentAddress(_) => rebase(p, record.shifted_base(), base_offset),
        HexRecord::ExtendedLinearAddress(_) => rebase(p, record.shifted_base(), base_offset),
        HexRecord::EndOfFile => Ok(p),
        HexRecord::StartSegmentAddress { .. } => Ok(p),
        HexRecord::StartLinearAddress(_) => Ok(p),
    }
}

/// Why a run came to its end.
pub enum Stop {
    /// The source had no more entries.
    Exhausted,
    /// An end-of-file record was read.
    EndOfFile,
    /// An entry could not be decoded or applied.
    Failed(UnpackingError),
}

/// A finished run.
pub struct Run {
    /// The state in which the run stopped. A failing entry leaves no trace in it.
    pub progress: Progress,
    /// The number of entries taken from the source, the last one included.
    pub consumed: nat,
    /// Why the run stopped.
    pub stop: Stop,
}

impl Run {
    /// The number of entries that the run applied: all that it consumed,
    /// but for a failing one.
    pub open spec fn applied(self) -> nat {
        if self.stop is Failed {
            (self.consumed - 1) as nat
        } else {
            self.consumed
        }
    }

    /// What the caller of a run gets back: the bytes written, or the error.
    pub open spec fn outcome(self) -> Result<usize, UnpackingError> {
        match self.stop {
            Stop::Failed(error) => Err(error),
            _ => Ok(clamp(self.progress.used_bytes)),
        }
    }
}

/// The run that starts in state `p` and reads `entries` in order: each
/// record is applied to the state that the one before it left, up to and
/// including the first end-of-file record or the first entry that fails.
pub open spec fn run(p: Progress, entries: Seq<Entry>, base_offset: usize) -> Run
    decreases entries.len(),
{
    if entries.len() == 0 {
        Run { progress: p, consumed: 0, stop: Stop::Exhausted }
    } else {
        match entries[0] {
            Err(cause) => Run {
                progress: p,
                consumed: 1,
                stop: Stop::Failed(UnpackingError::Parsing(cause)),
            },
            Ok(record) => match apply(p, record, base_offset) {
                Err(error) => Run { progress: p, consumed: 1, stop: Stop::Failed(error) },
                Ok(next) => if record is EndOfFile {
                    Run { progress: next, consumed: 1, stop: Stop::EndOfFile }
                } else {
                    let rest = run(next, entries.skip(1), base_offset);
                    Run { consumed: rest.consumed + 1, ..rest }
                },
            },
        }
    }
}

/// What unpacking `entries` into a blank image of `len` bytes comes to: the
/// image and the number of bytes written, or the error of the entry that
/// failed.
pub open spec fn unpacked(entries: Seq<Entry>, len: nat, base_offset: usize) -> Result<
    (Seq<u8>, usize),
    UnpackingError,
> {
    let whole = run(Progress::start(blank_image(len)), entries, base_offset);
    match whole.outcome() {
        Ok(used_bytes) => Ok((whole.progress.image, used_bytes)),
        Err(error) => Err(error),
    }
}

} // verus!
