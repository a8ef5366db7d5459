use ihex::{Reader, ReaderError, ReaderOptions, Record};
use ihex_ext::{
    load_bytes, load_str, unpack_records, HexRecord, ReaderExt, RecordSource, UnpackingError,
};

fn text_of(records: &[Record]) -> String {
    let mut text = String::new();
    for record in records {
        text.push_str(&record.to_record_string().unwrap());
        text.push('\n');
    }
    text
}

#[test]
fn reader_hands_out_every_kind_of_record() {
    let text = text_of(&[
        Record::Data {
            offset: 0x0102,
            value: vec![0x0A, 0x0B],
        },
        Record::ExtendedSegmentAddress(0x1234),
        Record::StartSegmentAddress {
            cs: 0x0102,
            ip: 0x0304,
        },
        Record::ExtendedLinearAddress(0xABCD),
        Record::StartLinearAddress(0x0102_0304),
        Record::EndOfFile,
    ]);
    let mut reader = Reader::new(&text);
    assert_eq!(
        reader.next_entry(),
        Some(Ok(HexRecord::Data {
            offset: 0x0102,
            value: vec![0x0A, 0x0B]
        }))
    );
    assert_eq!(
        reader.next_entry(),
        Some(Ok(HexRecord::ExtendedSegmentAddress(0x1234)))
    );
    assert_eq!(
        reader.next_entry(),
        Some(Ok(HexRecord::StartSegmentAddress {
            cs: 0x0102,
            ip: 0x0304
        }))
    );
    assert_eq!(
        reader.next_entry(),
        Some(Ok(HexRecord::ExtendedLinearAddress(0xABCD)))
    );
    assert_eq!(
        reader.next_entry(),
        Some(Ok(HexRecord::StartLinearAddress(0x0102_0304)))
    );
    assert_eq!(reader.next_entry(), Some(Ok(HexRecord::EndOfFile)));
    assert_eq!(reader.next_entry(), None);
    assert_eq!(reader.next_entry(), None);
}

#[test]
fn reader_hands_out_a_failure_and_then_nothing() {
    let mut reader = Reader::new(":00000001FE\n:00000001FF\n");
    assert_eq!(
        reader.next_entry(),
        Some(Err(ReaderError::ChecksumMismatch(0xFF, 0xFE)))
    );
    assert_eq!(reader.next_entry(), None);
}

#[test]
fn reader_unpacks_into_a_vector() {
    let text = ":04000000AABBCCDDEE\n:00000001FF\n";
    let (image, used_bytes) = Reader::new(text).to_vec(6, 0).unwrap();
    assert_eq!(image, vec![0xAA, 0xBB, 0xCC, 0xDD, 0xFF, 0xFF]);
    assert_eq!(used_bytes, 4);
}

#[test]
fn reader_unpacks_into_an_array() {
    let text = ":04000000AABBCCDDEE\n:00000001FF\n";
    let (image, used_bytes) = Reader::new(text).to_array::<4>(0).unwrap();
    assert_eq!(image, [0xAA, 0xBB, 0xCC, 0xDD]);
    assert_eq!(used_bytes, 4);
    assert_eq!(
        Reader::new(text).to_array::<3>(0),
        Err(UnpackingError::AddressTooHigh(4, 3))
    );
}

#[test]
fn reader_is_left_where_the_run_stopped() {
    let text = text_of(&[
        Record::Data {
            offset: 0,
            value: vec![0x01],
        },
        Record::Data {
            offset: 9,
            value: vec![0x02],
        },
        Record::Data {
            offset: 1,
            value: vec![0x03],
        },
    ]);
    let mut reader = Reader::new(&text);
    let mut image = [0xFFu8; 4];
    assert_eq!(
        unpack_records(&mut reader, &mut image, 0),
        Err(UnpackingError::AddressTooHigh(10, 4))
    );
    assert_eq!(image, [0x01, 0xFF, 0xFF, 0xFF]);
    assert_eq!(
        reader.next(),
        Some(Ok(Record::Data {
            offset: 1,
            value: vec![0x03]
        }))
    );
}

#[test]
fn records_after_end_of_file_are_not_applied() {
    let text = text_of(&[
        Record::Data {
            offset: 0,
            value: vec![0x01],
        },
        Record::EndOfFile,
        Record::Data {
            offset: 1,
            value: vec![0x02],
        },
    ]);
    let options = ReaderOptions {
        stop_after_first_error: false,
        stop_after_eof: false,
    };
    let mut reader = Reader::new_with_options(&text, options);
    let mut image = [0xFFu8; 2];
    assert_eq!(unpack_records(&mut reader, &mut image, 0), Ok(1));
    assert_eq!(image, [0x01, 0xFF]);
    assert_eq!(
        reader.next(),
        Some(Ok(Record::Data {
            offset: 1,
            value: vec![0x02]
        }))
    );
    assert_eq!(load_str(&text, 2, 0), Ok((vec![0x01, 0xFF], 1)));
}

#[test]
fn load_str_unpacks_a_whole_object() {
    let text = text_of(&[
        Record::ExtendedLinearAddress(0x0800),
        Record::Data {
            offset: 0x0002,
            value: vec![0xDE, 0xAD],
        },
        Record::StartLinearAddress(0x0800_0000),
        Record::EndOfFile,
    ]);
    assert_eq!(
        load_str(&text, 6, 0x0800_0000),
        Ok((vec![0xFF, 0xFF, 0xDE, 0xAD, 0xFF, 0xFF], 2))
    );
    assert_eq!(
        load_str(&text, 6, 0x0800_0001),
        Err(UnpackingError::BaseTooLow(0x0800_0000, 0x0800_0001))
    );
    assert_eq!(
        load_str(&text, 3, 0x0800_0000),
        Err(UnpackingError::AddressTooHigh(4, 3))
    );
}

#[test]
fn load_str_skips_empty_lines_and_takes_any_line_end() {
    let text = "\r\n:020000000102FB\r\n\n\n:0100020003FA\n:00000001FF";
    assert_eq!(load_str(text, 4, 0), Ok((vec![0x01, 0x02, 0x03, 0xFF], 3)));
    assert_eq!(load_str("", 2, 0), Ok((vec![0xFF, 0xFF], 0)));
}

#[test]
fn load_str_reports_the_first_line_that_does_not_parse() {
    let text = ":020000000102FB\n:0100020003FB\n:00000001FF\n";
    assert_eq!(
        load_str(text, 4, 0),
        Err(UnpackingError::Parsing(ReaderError::ChecksumMismatch(
            0xFA, 0xFB
        )))
    );
    assert_eq!(
        load_str("020000000102FB\n", 4, 0),
        Err(UnpackingError::Parsing(ReaderError::MissingStartCode))
    );
    assert_eq!(
        load_str(":00000006FA\n", 4, 0),
        Err(UnpackingError::Parsing(ReaderError::UnsupportedRecordType(
            6
        )))
    );
}

#[test]
fn load_bytes_reads_the_bytes_as_text() {
    let bytes = b":04000000AABBCCDDEE\n:00000001FF\n";
    assert_eq!(
        load_bytes(bytes, 4, 0),
        Ok((vec![0xAA, 0xBB, 0xCC, 0xDD], 4))
    );
    assert_eq!(load_bytes(b"", 1, 0), Ok((vec![0xFF], 0)));
}

#[test]
fn load_bytes_turns_bad_utf8_into_a_parse_failure() {
    let mut bytes = b":0100000001FE\n:01000100".to_vec();
    bytes.push(0xC0);
    bytes.extend_from_slice(b"02FC\n");
    assert_eq!(
        load_bytes(&bytes, 2, 0),
        Err(UnpackingError::Parsing(
            ReaderError::ContainsInvalidCharacters
        ))
    );
    assert_eq!(
        load_bytes(&[0xFF, b':'], 2, 0),
        Err(UnpackingError::Parsing(ReaderError::MissingStartCode))
    );
}
