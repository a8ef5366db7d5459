//! Record sources: where the entries of a run come from.

use crate::model::Entry;
use crate::record::HexRecord;
use std::collections::VecDeque;
use vstd::prelude::*;

verus! {

/// A finite supply of entries that hands them out one at a time, in order.
pub trait RecordSource {
    /// The entries that the source has yet to hand out.
    spec fn pending(&self) -> Seq<Entry>;

    /// Takes the next entry from the source; `None` when there is none left.
    fn next_entry(&mut self) -> (entry: Option<Entry>)
        ensures
            match entry {
                Some(first) => {
                    &&& old(self).pending().len() > 0
                    &&& first == old(self).pending()[0]
                    &&& final(self).pending() == old(self).pending().skip(1)
                },
                None => {
                    &&& old(self).pending().len() == 0
                    &&& final(self).pending() == old(self).pending()
                },
            },
    ;
}

/// Entries held in memory are handed out from the front.
impl RecordSource for VecDeque<Entry> {
    open spec fn pending(&self) -> Seq<Entry> {
        self@
    }

    fn next_entry(&mut self) -> (entry: Option<Entry>) {
        self.pop_front()
    }
}

/// The reader of `ihex`, which decodes the lines of a text one by one.
#[verifier::external_type_specification]
#[verifier::external_body]
pub struct ExReader<'a>(ihex::Reader<'a>);

/// The record type of `ihex`, declared because the reader's iterator yields
/// it. The library converts each such value to a `HexRecord` as soon as it
/// gets one and never looks inside.
#[verifier::external_type_specification]
#[verifier::external_body]
pub struct ExRecord(ihex::Record);

/// The entries that successive calls of `next` on `reader` return before
/// the first `None`, each converted variant by variant to a `HexRecord` of
/// this library.
pub uninterp spec fn reader_entries(reader: ihex::Reader) -> Seq<Entry>;

/// The entries that a reader created by `ihex::Reader::new` over `text` yields.
pub uninterp spec fn parsed_entries(text: Seq<char>) -> Seq<Entry>;

/// Calls `ihex::Reader::new`, which creates a reader over `text` with the
/// default options. What it will yield depends on the text alone.
#[verifier::external_body]
pub(crate) fn reader_over<'a>(text: &'a str) -> (reader: ihex::Reader<'a>)
    ensures
        reader_entries(reader) == parsed_entries(text@),
{
    ihex::Reader::new(text)
}

/// Calls `next` on the reader of `ihex` and converts the record it returns.
/// The reader hands out its entries in order and, once it has returned
/// `None`, returns `None` on every later call.
#[verifier::external_body]
pub(crate) fn reader_next(reader: &mut ihex::Reader) -> (entry: Option<Entry>)
    ensures
        match entry {
            Some(first) => {
                &&& reader_entries(*old(reader)).len() > 0
                &&& first == reader_entries(*old(reader))[0]
                &&& reader_entries(*final(reader)) == reader_entries(*old(reader)).skip(1)
            },
            None => {
                &&& reader_entries(*old(reader)).len() == 0
                &&& reader_entries(*final(reader)) == reader_entries(*old(reader))
            },
        },
{
    Some(match reader.next()? {
        Ok(ihex::Record::Data { offset, value }) => Ok(HexRecord::Data { offset, value }),
        Ok(ihex::Record::EndOfFile) => Ok(HexRecord::EndOfFile),
        Ok(ihex::Record::ExtendedSegmentAddress(a)) => Ok(HexRecord::ExtendedSegmentAddress(a)),
        Ok(ihex::Record::StartSegmentAddress { cs, ip }) => {
            Ok(HexRecord::StartSegmentAddress { cs, ip })
        },
        Ok(ihex::Record::ExtendedLinearAddress(a)) => Ok(HexRecord::ExtendedLinearAddress(a)),
        Ok(ihex::Record::StartLinearAddress(a)) => Ok(HexRecord::StartLinearAddress(a)),
        Err(cause) => Err(cause),
    })
}

impl<'a> RecordSource for ihex::Reader<'a> {
    open spec fn pending(&self) -> Seq<Entry> {
        reader_entries(*self)
    }

    fn next_entry(&mut self) -> (entry: Option<Entry>) {
        reader_next(self)
    }
}

} // verus!
