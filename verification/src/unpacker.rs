//! The unpacker: the running state of a run and the step that applies one
//! record to it.

use crate::error::UnpackingError;
use crate::model::{apply, place, run, write_at, Progress};
use crate::record::{HexRecord, LINEAR_SCALE, SEGMENT_SCALE};
use crate::source::RecordSource;
use vstd::prelude::*;

verus! {

/// What an unpacker remembers from one record to the next.
#[derive(Debug, Clone, Copy, PartialEq, Eq)]
pub struct Unpacker {
    /// The address of the image's byte to which offset 0 of a data record goes.
    pub base_address: usize,
    /// The number of payload bytes written so far; it stops at `usize::MAX`.
    pub used_bytes: usize,
}

/// `value` shifted left by four bits.
fn segment_base(value: u16) -> (shifted: usize)
    ensures
        shifted == value as nat * SEGMENT_SCALE as nat,
{
    let wide: usize = value as usize;
    assert(wide << 4 == wide * 0x10) by (bit_vector)
        requires
            wide <= 0xFFFF,
    ;
    wide << 4
}

/// `value` shifted left by sixteen bits.
fn linear_base(value: u16) -> (shifted: usize)
    ensures
        shifted == value as nat * LINEAR_SCALE as nat,
{
    let wide: usize = value as usize;
    assert(wide << 16 == wide * 0x1_0000) by (bit_vector)
        requires
            wide <= 0xFFFF,
    ;
    wide << 16
}

impl Unpacker {
    /// The state of a run together with the image it writes to.
    pub open spec fn progress(self, image: Seq<u8>) -> Progress {
        Progress {
            image,
            base_address: self.base_address as nat,
            used_bytes: self.used_bytes as nat,
        }
    }

    /// An unpacker that has seen no record: base address 0, nothing written.
    pub fn new() -> (unpacker: Unpacker)
        ensures
            unpacker.base_address == 0,
            unpacker.used_bytes == 0,
    {
        Unpacker { base_address: 0, used_bytes: 0 }
    }

    /// Sets the base address to `shifted` less `base_offset`, or fails,
    /// changing nothing, where that would lie below zero.
    fn rebase(&mut self, shifted: usize, base_offset: usize) -> (result: Result<
        (),
        UnpackingError,
    >)
        ensures
            shifted >= base_offset ==> {
                &&& result is Ok
                &&& final(self).base_address == shifted - base_offset
                &&& final(self).used_bytes == old(self).used_bytes
            },
            shifted < base_offset ==> {
                &&& result == Err::<(), UnpackingError>(
                    UnpackingError::BaseTooLow(shifted, base_offset),
                )
                &&& *final(self) == *old(self)
            },
    {
        if shifted >= base_offset {
            self.base_address = shifted - base_offset;
            Ok(())
        } else {
            Err(UnpackingError::BaseTooLow(shifted, base_offset))
        }
    }

    /// Copies `value` into `binary` from the base address plus `offset` on
    /// and counts its bytes, or fails, writing nothing, where it would reach
    /// beyond the end of `binary`.
    fn place(&mut self, offset: u16, value: &Vec<u8>, binary: &mut [u8]) -> (result: Result<
        (),
        UnpackingError,
    >)
        ensures
            match place(old(self).progress(old(binary)@), offset, value@) {
                Ok(next) => result is Ok && final(self).progress(final(binary)@) == next,
                Err(error) => {
                    &&& result == Err::<(), UnpackingError>(error)
                    &&& *final(self) == *old(self)
                    &&& final(binary)@ == old(binary)@
                },
            },
    {
        let capacity: usize = binary.len();
        let length: usize = value.len();
        let start: usize = match self.base_address.checked_add(offset as usize) {
            Some(start) => start,
            None => { return Err(UnpackingError::AddressTooHigh(usize::MAX, capacity)); },
        };
        let end: usize = match start.checked_add(length) {
            Some(end) => end,
            None => { return Err(UnpackingError::AddressTooHigh(usize::MAX, capacity)); },
        };
        if end > capacity {
            return Err(UnpackingError::AddressTooHigh(end, capacity));
        }
        let mut n: usize = 0;
        while n < length
            invariant
                n <= length,
                length == value@.len(),
                start + length <= capacity,
                binary@.len() == capacity,
                binary@ == write_at(old(binary)@, start as int, value@.take(n as int)),
            decreases length - n,
        {
            binary[start + n] = value[n];
            n += 1;
        }
        assert(value@.take(length as int) == value@);
        self.used_bytes = self.used_bytes.saturating_add(length);
        Ok(())
    }

    /// Applies one record to the run and to the image in `binary`. The
    /// answer `true` says that the record ends the object, so that the run
    /// is over. On an error neither the unpacker nor the image has changed.
    pub fn apply(&mut self, record: &HexRecord, binary: &mut [u8], base_offset: usize) -> (result:
        Result<bool, UnpackingError>)
        ensures
            match apply(old(self).progress(old(binary)@), *record, base_offset) {
                Ok(next) => {
                    &&& result == Ok::<bool, UnpackingError>(*record is EndOfFile)
                    &&& final(self).progress(final(binary)@) == next
                },
                Err(error) => {
                    &&& result == Err::<bool, UnpackingError>(error)
                    &&& *final(self) == *old(self)
                    &&& final(binary)@ == old(binary)@
                },
            },
    {
        match record {
            HexRecord::Data { offset, value } => match self.place(*offset, value, binary) {
                Ok(()) => Ok(false),
                Err(error) => Err(error),
            },
            HexRecord::ExtendedSegmentAddress(segment) => match self.rebase(
                segment_base(*segment),
                base_offset,
            ) {
                Ok(()) => Ok(false),
                Err(error) => Err(error),
            },
            HexRecord::ExtendedLinearAddress(upper) => match self.rebase(
                linear_base(*upper),
                base_offset,
            ) {
                Ok(()) => Ok(false),
                Err(error) => Err(error),
            },
            HexRecord::EndOfFile => Ok(true),
            HexRecord::StartSegmentAddress { .. } => Ok(false),
            HexRecord::StartLinearAddress(_) => Ok(false),
        }
    }
}

/// Reads `records` entry by entry and unpacks them into `binary`, with
/// `base_offset` taken off every base address that a record sets. The run
/// ends with the first end-of-file record, with the first entry that fails,
/// or when the source is exhausted; nothing beyond that entry is taken from
/// the source. Returns the number of payload bytes written, or the error of
/// the failing entry. What earlier records wrote stays in `binary` either way.
pub fn unpack_records<S: RecordSource>(
    records: &mut S,
    binary: &mut [u8],
    base_offset: usize,
) -> (result: Result<usize, UnpackingError>)
    ensures
        ({
            let whole = run(Progress::start(old(binary)@), old(records).pending(), base_offset);
            &&& result == whole.outcome()
            &&& final(binary)@ == whole.progress.image
            &&& final(records).pending() == old(records).pending().skip(whole.consumed as int)
        }),
{
    let ghost entries = records.pending();
    let ghost whole = run(Progress::start(binary@), entries, base_offset);
    let ghost taken: int = 0;
    let mut unpacker = Unpacker::new();
    loop
        invariant
            entries == old(records).pending(),
            whole == run(Progress::start(old(binary)@), entries, base_offset),
            0 <= taken <= entries.len(),
            records.pending() == entries.skip(taken),
            ({
                let rest = run(unpacker.progress(binary@), records.pending(), base_offset);
                &&& whole.progress == rest.progress
                &&& whole.stop == rest.stop
                &&& whole.consumed == taken + rest.consumed
            }),
        decreases records.pending().len(),
    {
        match records.next_entry() {
            None => {
                return Ok(unpacker.used_bytes);
            },
            Some(Err(cause)) => {
                assert(entries.skip(taken).skip(1) == entries.skip(taken + 1));
                return Err(UnpackingError::from(cause));
            },
            Some(Ok(record)) => {
                assert(entries.skip(taken).skip(1) == entries.skip(taken + 1));
                match unpacker.apply(&record, binary, base_offset) {
                    Err(error) => {
                        return Err(error);
                    },
                    Ok(true) => {
                        return Ok(unpacker.used_bytes);
                    },
                    Ok(false) => {
                        proof {
                            taken = taken + 1;
                        }
                    },
                }
            },
        }
    }
}

} // verus!
