//! The records of an Intel HEX object.

use vstd::prelude::*;

verus! {

/// The factor by which an extended segment address is scaled: a shift by four bits.
pub const SEGMENT_SCALE: usize = 0x10;

/// The factor by which an extended linear address is scaled: a shift by sixteen bits.
pub const LINEAR_SCALE: usize = 0x1_0000;

/// One decoded line of an Intel HEX object.
#[derive(Debug, PartialEq, Eq)]
pub enum HexRecord {
    /// Bytes to be placed at `offset` from the base address in effect.
    Data {
        /// Distance of the first byte from the base address.
        offset: u16,
        /// The bytes to place.
        value: Vec<u8>,
    },
    /// Marks the end of the object.
    EndOfFile,
    /// Bits 4 to 19 of the base address for the data records that follow.
    ExtendedSegmentAddress(u16),
    /// Entry point as a CS:IP register pair.
    StartSegmentAddress {
        /// Value of the CS register.
        cs: u16,
        /// Value of the IP register.
        ip: u16,
    },
    /// Upper 16 bits of the base address for the data records that follow.
    ExtendedLinearAddress(u16),
    /// Entry point as a 32-bit linear address.
    StartLinearAddress(u32),
}

impl HexRecord {
    /// The bytes that the record places in the image; none but for a data record.
    pub open spec fn payload(self) -> Seq<u8> {
        match self {
            HexRecord::Data { value, .. } => value@,
            _ => Seq::empty(),
        }
    }

    /// True for the two records that set the base address.
    pub open spec fn sets_base(self) -> bool {
        self is ExtendedSegmentAddress || self is ExtendedLinearAddress
    }

    /// The address that a record which sets the base address names, before
    /// the base offset is taken off: its value shifted left by four bits
    /// for a segment address, by sixteen for a linear one.
    pub open spec fn shifted_base(self) -> nat {
        match self {
            HexRecord::ExtendedSegmentAddress(segment) => segment as nat * SEGMENT_SCALE as nat,
            HexRecord::ExtendedLinearAddress(upper) => upper as nat * LINEAR_SCALE as nat,
            _ => 0,
        }
    }

    /// True for the two records that name an entry point.
    pub open spec fn is_start_address(self) -> bool {
        self is StartSegmentAddress || self is StartLinearAddress
    }
}

} // verus!
