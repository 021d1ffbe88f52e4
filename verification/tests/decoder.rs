use sqlite_reader::bytes::{read_be_int, read_be_uint, read_exact_at};
use sqlite_reader::database::Database;
use sqlite_reader::error::{DecodeError, SchemaField};
use sqlite_reader::record::{Page, Record, RecordValue, Schema, TableLeafCell};
use sqlite_reader::schema::to_low_32_bits;
use sqlite_reader::varint::handle_varint;

/// The shortest varint of `v`.
fn encode_varint(v: u64) -> Vec<u8> {
    if v >> 56 != 0 {
        let mut out = Vec::new();
        for k in 0..8 {
            out.push(0x80 | ((v >> (57 - 7 * k)) & 0x7f) as u8);
        }
        out.push((v & 0xff) as u8);
        return out;
    }
    let mut groups = vec![(v & 0x7f) as u8];
    let mut rest = v >> 7;
    while rest != 0 {
        groups.push(0x80 | (rest & 0x7f) as u8);
        rest >>= 7;
    }
    groups.reverse();
    groups
}

/// A file of `len` zero bytes whose header announces `page_size`.
fn image(page_size: u16, len: usize) -> Vec<u8> {
    let mut data = vec![0u8; len];
    data[16..18].copy_from_slice(&page_size.to_be_bytes());
    data
}

fn put(data: &mut Vec<u8>, at: usize, bytes: &[u8]) {
    data[at..at + bytes.len()].copy_from_slice(bytes);
}

fn leaf_header(tag: u8, num_cells: u16) -> Vec<u8> {
    let count = num_cells.to_be_bytes();
    vec![tag, 0, 0, count[0], count[1], 0, 0, 0]
}

fn text(s: &str) -> (u64, Vec<u8>) {
    (13 + 2 * s.len() as u64, s.as_bytes().to_vec())
}

fn int8(v: i8) -> (u64, Vec<u8>) {
    (1, v.to_be_bytes().to_vec())
}

/// A cell: payload size, row id, record header and values.
fn cell(row_id: u64, values: &[(u64, Vec<u8>)]) -> Vec<u8> {
    let mut types = Vec::new();
    let mut body = Vec::new();
    for (serial_type, bytes) in values {
        types.extend(encode_varint(*serial_type));
        body.extend(bytes.iter().copied());
    }
    let mut header_len = types.len() as u64 + 1;
    if header_len >= 128 {
        header_len += 1;
    }
    let mut record = encode_varint(header_len);
    record.extend(types);
    record.extend(body);
    let mut out = encode_varint(record.len() as u64);
    out.extend(encode_varint(row_id));
    out.extend(record);
    out
}

fn schema_cell(row_id: u64, kind: &str, name: &str, table: &str, root: i8, sql: &str) -> Vec<u8> {
    cell(row_id, &[text(kind), text(name), text(table), int8(root), text(sql)])
}

fn open(data: Vec<u8>) -> Database {
    Database::new(data).unwrap()
}

fn varchar(s: &str) -> RecordValue {
    RecordValue::VarChar { val: s.to_string() }
}

#[test]
fn varint_two_bytes() {
    assert_eq!(handle_varint(&[0x81, 0x00]), Ok((128, 2)));
}

#[test]
fn varint_single_byte() {
    assert_eq!(handle_varint(&[0x7f]), Ok((127, 1)));
    assert_eq!(handle_varint(&[0x00]), Ok((0, 1)));
}

#[test]
fn varint_ignores_what_follows() {
    assert_eq!(handle_varint(&[0x7f, 0xff, 0xff, 0xff, 0xff, 0xff, 0xff, 0xff, 0xff]), Ok((127, 1)));
    assert_eq!(handle_varint(&[0x81, 0x00, 0x99, 0x99, 0x99, 0x99, 0x99, 0x99, 0x99]), Ok((128, 2)));
}

#[test]
fn varint_nine_bytes_takes_the_last_byte_whole() {
    assert_eq!(handle_varint(&[0xff; 9]), Ok((u64::MAX, 9)));
    assert_eq!(handle_varint(&[0xff; 12]), Ok((u64::MAX, 9)));
    assert_eq!(
        handle_varint(&[0x80, 0x80, 0x80, 0x80, 0x80, 0x80, 0x80, 0x80, 0x80]),
        Ok((0x80, 9))
    );
    assert_eq!(
        handle_varint(&[0x81, 0x80, 0x80, 0x80, 0x80, 0x80, 0x80, 0x80, 0x01]),
        Ok((0x0200_0000_0000_0001, 9))
    );
}

#[test]
fn varint_eight_bytes() {
    assert_eq!(
        handle_varint(&[0xff, 0xff, 0xff, 0xff, 0xff, 0xff, 0xff, 0x7f]),
        Ok((0x00ff_ffff_ffff_ffff, 8))
    );
}

#[test]
fn varint_longer_than_needed_still_decodes() {
    assert_eq!(handle_varint(&[0x80, 0x00]), Ok((0, 2)));
    assert_eq!(handle_varint(&[0x80, 0x80, 0x05]), Ok((5, 3)));
}

#[test]
fn varint_truncated() {
    assert_eq!(handle_varint(&[]), Err(DecodeError::TruncatedVarint));
    assert_eq!(handle_varint(&[0x81]), Err(DecodeError::TruncatedVarint));
    assert_eq!(handle_varint(&[0xff; 8]), Err(DecodeError::TruncatedVarint));
}

#[test]
fn varint_round_trip() {
    let mut values = vec![0u64, 1, 127, 128, 129, 16383, 16384, 300, 1 << 20, (1 << 21) - 1];
    for k in 0..64 {
        values.push(1u64 << k);
        values.push((1u64 << k) - 1);
        values.push((1u64 << k) + 1);
        values.push(u64::MAX >> k);
    }
    for v in values {
        let encoded = encode_varint(v);
        assert!(1 <= encoded.len() && encoded.len() <= 9);
        assert_eq!(handle_varint(&encoded), Ok((v, encoded.len())), "value {}", v);
        let mut padded = encoded.clone();
        padded.extend([0xffu8; 9]);
        assert_eq!(handle_varint(&padded), Ok((v, encoded.len())), "value {}", v);
    }
}

#[test]
fn varint_lengths_at_the_borders() {
    assert_eq!(encode_varint(0x7f).len(), 1);
    assert_eq!(encode_varint(0x80).len(), 2);
    assert_eq!(encode_varint(0x3fff).len(), 2);
    assert_eq!(encode_varint(0x4000).len(), 3);
    assert_eq!(encode_varint(0x00ff_ffff_ffff_ffff).len(), 8);
    assert_eq!(encode_varint(0x0100_0000_0000_0000).len(), 9);
}

#[test]
fn big_endian_numbers() {
    assert_eq!(read_be_uint(&[]), 0);
    assert_eq!(read_be_uint(&[0x12]), 0x12);
    assert_eq!(read_be_uint(&[0x12, 0x34]), 0x1234);
    assert_eq!(read_be_uint(&[0xff; 8]), u64::MAX);
    assert_eq!(read_be_int(&[0x7f]), 127);
    assert_eq!(read_be_int(&[0x80]), -128);
    assert_eq!(read_be_int(&[0xff, 0xfe]), -2);
    assert_eq!(read_be_int(&[0x00, 0xff]), 255);
    assert_eq!(read_be_int(&[0x80, 0, 0]), -(1 << 23));
    assert_eq!(read_be_int(&[0xff; 8]), -1);
    assert_eq!(read_be_int(&[0x80, 0, 0, 0, 0, 0, 0, 0]), i64::MIN);
    assert_eq!(read_be_int(&[0x7f, 0xff, 0xff, 0xff, 0xff, 0xff, 0xff, 0xff]), i64::MAX);
}

#[test]
fn windows_of_bytes() {
    let data = [1u8, 2, 3, 4];
    assert_eq!(read_exact_at(&data, 1, 2), Some(&data[1..3]));
    assert_eq!(read_exact_at(&data, 0, 4), Some(&data[..]));
    assert_eq!(read_exact_at(&data, 4, 0), Some(&data[0..0]));
    assert_eq!(read_exact_at(&data, 9, 0), Some(&data[0..0]));
    assert_eq!(read_exact_at(&data, 3, 2), None);
    assert_eq!(read_exact_at(&data, 5, 1), None);
    assert_eq!(read_exact_at(&data, u64::MAX, 2), None);
    assert_eq!(read_exact_at(&data, 1, u64::MAX), None);
}

#[test]
fn open_reads_the_geometry() {
    let mut data = image(4096, 4096);
    put(&mut data, 100, &leaf_header(0x0d, 3));
    let db = open(data.clone());
    assert_eq!(db.page_size(), 4096);
    assert_eq!(db.num_pages(), 3);
    assert_eq!(db.data(), &data[..]);
}

#[test]
fn open_needs_both_headers() {
    assert_eq!(Database::new(Vec::new()).err(), Some(DecodeError::TruncatedHeader));
    assert_eq!(Database::new(image(512, 99)).err(), Some(DecodeError::TruncatedHeader));
    assert_eq!(Database::new(image(512, 111)).err(), Some(DecodeError::TruncatedHeader));
    let mut data = image(0x1234, 112);
    put(&mut data, 103, &[0xab, 0xcd]);
    let db = open(data);
    assert_eq!(db.page_size(), 0x1234);
    assert_eq!(db.num_pages(), 0xabcd);
}

#[test]
fn page_offsets() {
    let db = open(image(4096, 112));
    assert_eq!(db.page_offset(1), 0);
    assert_eq!(db.page_offset(2), 4096);
    assert_eq!(db.page_offset(3), 8192);
    assert_eq!(db.page_offset(u32::MAX), 4294967294 * 4096);
    assert_eq!(db.page_header_offset(1), 100);
    assert_eq!(db.page_header_offset(2), 4096);
    assert_eq!(db.page_header_offset(7), 6 * 4096);
}

#[test]
fn first_page_header_is_at_100_whatever_the_page_size() {
    for page_size in [0u16, 1, 512, 1024, 4096, 32768, 65535] {
        let db = open(image(page_size, 112));
        assert_eq!(db.page_header_offset(1), 100);
        assert_eq!(db.page_offset(1), 0);
        assert_eq!(db.page_header_offset(2), page_size as u64);
        assert_eq!(db.page_header_offset(40000), 39999 * page_size as u64);
    }
}

#[test]
fn varint_reads_look_at_nine_bytes() {
    let mut data = image(512, 512);
    put(&mut data, 200, &[0x81, 0x00]);
    put(&mut data, 510, &[0x05, 0x06]);
    let db = open(data);
    assert_eq!(db.read_varint(200), Ok((128, 202)));
    assert_eq!(db.read_varint(201), Ok((0, 202)));
    assert_eq!(db.read_varint(503), Ok((0, 504)));
    assert_eq!(db.read_varint(504), Err(DecodeError::UnexpectedEof));
    assert_eq!(db.read_varint(510), Err(DecodeError::UnexpectedEof));
    assert_eq!(db.read_varint(u64::MAX), Err(DecodeError::UnexpectedEof));
}

fn value_at(bytes: &[u8], serial_type: u64) -> Result<(RecordValue, u64), DecodeError> {
    let mut data = image(512, 200 + bytes.len());
    put(&mut data, 200, bytes);
    open(data).read_record_value(serial_type, 200)
}

#[test]
fn values_without_bytes() {
    assert_eq!(value_at(&[], 0), Ok((RecordValue::Null, 200)));
    assert_eq!(value_at(&[], 8), Ok((RecordValue::Fake0, 200)));
    assert_eq!(value_at(&[], 9), Ok((RecordValue::Fake1, 200)));
    assert_eq!(value_at(&[], 10), Ok((RecordValue::Null, 200)));
    assert_eq!(value_at(&[], 11), Ok((RecordValue::Null, 200)));
    assert_eq!(value_at(&[], 12), Ok((RecordValue::Blob { val: vec![] }, 200)));
    assert_eq!(value_at(&[], 13), Ok((varchar(""), 200)));
    let db = open(image(512, 112));
    assert_eq!(db.read_record_value(0, 100_000), Ok((RecordValue::Null, 100_000)));
    assert_eq!(db.read_record_value(9, u64::MAX), Ok((RecordValue::Fake1, u64::MAX)));
}

#[test]
fn integer_values() {
    assert_eq!(value_at(&[0x7f], 1), Ok((RecordValue::Int8 { val: 127 }, 201)));
    assert_eq!(value_at(&[0xff], 1), Ok((RecordValue::Int8 { val: -1 }, 201)));
    assert_eq!(value_at(&[0x01, 0x00], 2), Ok((RecordValue::Int16 { val: 256 }, 202)));
    assert_eq!(value_at(&[0xff, 0xfe], 2), Ok((RecordValue::Int16 { val: -2 }, 202)));
    assert_eq!(
        value_at(&[0x00, 0x01, 0x11, 0x70], 4),
        Ok((RecordValue::Int32 { val: 70000 }, 204))
    );
    assert_eq!(
        value_at(&[0x80, 0x00, 0x00, 0x00], 4),
        Ok((RecordValue::Int32 { val: i32::MIN }, 204))
    );
    assert_eq!(
        value_at(&[0x00, 0x00, 0x00, 0x01, 0x2a, 0x05, 0xf2, 0x00], 6),
        Ok((RecordValue::Int64 { val: 5_000_000_000 }, 208))
    );
    assert_eq!(value_at(&[0xff; 8], 6), Ok((RecordValue::Int64 { val: -1 }, 208)));
    assert_eq!(
        value_at(&[0x80, 0, 0, 0, 0, 0, 0, 0], 6),
        Ok((RecordValue::Int64 { val: i64::MIN }, 208))
    );
}

#[test]
fn float_values_keep_their_bits() {
    let (value, next) = value_at(&1.5f64.to_be_bytes(), 7).unwrap();
    assert_eq!(next, 208);
    match value {
        RecordValue::Double { bits } => {
            assert_eq!(bits, 0x3ff8_0000_0000_0000);
            assert_eq!(f64::from_bits(bits), 1.5);
        }
        other => panic!("not a float: {:?}", other),
    }
    let (value, _) = value_at(&(-0.0f64).to_be_bytes(), 7).unwrap();
    assert_eq!(value, RecordValue::Double { bits: 0x8000_0000_0000_0000 });
}

#[test]
fn blob_and_text_values() {
    assert_eq!(
        value_at(&[0xde, 0xad, 0xbe, 0xef, 0x01], 20),
        Ok((RecordValue::Blob { val: vec![0xde, 0xad, 0xbe, 0xef] }, 204))
    );
    assert_eq!(value_at(b"table!", 23), Ok((varchar("table"), 205)));
    assert_eq!(value_at("caf\u{e9}".as_bytes(), 23), Ok((varchar("caf\u{e9}"), 205)));
}

#[test]
fn blob_and_text_lengths_follow_the_serial_type() {
    let mut data = image(512, 1024);
    for k in 0..600 {
        data[200 + k] = b'a' + (k % 26) as u8;
    }
    let db = open(data);
    for serial_type in 12u64..1000 {
        let (value, next) = db.read_record_value(serial_type, 200).unwrap();
        match value {
            RecordValue::Blob { val } => {
                assert_eq!(serial_type % 2, 0);
                assert_eq!(val.len() as u64, (serial_type - 12) / 2);
                assert_eq!(next, 200 + (serial_type - 12) / 2);
            }
            RecordValue::VarChar { val } => {
                assert_eq!(serial_type % 2, 1);
                assert_eq!(val.len() as u64, (serial_type - 13) / 2);
                assert_eq!(next, 200 + (serial_type - 13) / 2);
            }
            other => panic!("serial type {} gave {:?}", serial_type, other),
        }
    }
}

#[test]
fn unimplemented_widths_are_refused() {
    assert_eq!(value_at(&[1, 2, 3, 4, 5, 6], 3), Err(DecodeError::UnimplementedSerialType));
    assert_eq!(value_at(&[1, 2, 3, 4, 5, 6], 5), Err(DecodeError::UnimplementedSerialType));
    let db = open(image(512, 112));
    assert_eq!(db.read_record_value(3, 5000), Err(DecodeError::UnimplementedSerialType));
    assert_eq!(db.read_record_value(5, 5000), Err(DecodeError::UnimplementedSerialType));
}

#[test]
fn every_small_serial_type_decodes_or_is_refused() {
    let db = open(image(512, 1024));
    for serial_type in 0u64..300 {
        let result = db.read_record_value(serial_type, 200);
        if serial_type == 3 || serial_type == 5 {
            assert_eq!(result, Err(DecodeError::UnimplementedSerialType));
        } else {
            assert!(result.is_ok(), "serial type {}", serial_type);
        }
        assert_eq!(db.read_record_value(serial_type, 200), result);
    }
}

#[test]
fn values_past_the_end() {
    assert_eq!(value_at(&[], 1), Err(DecodeError::UnexpectedEof));
    assert_eq!(value_at(&[1], 2), Err(DecodeError::UnexpectedEof));
    assert_eq!(value_at(&[1, 2, 3], 4), Err(DecodeError::UnexpectedEof));
    assert_eq!(value_at(&[1, 2, 3, 4, 5, 6, 7], 6), Err(DecodeError::UnexpectedEof));
    assert_eq!(value_at(&[1, 2, 3, 4, 5, 6, 7], 7), Err(DecodeError::UnexpectedEof));
    assert_eq!(value_at(&[1, 2], 18), Err(DecodeError::UnexpectedEof));
    assert_eq!(value_at(b"ab", 19), Err(DecodeError::UnexpectedEof));
    assert_eq!(value_at(&[], u64::MAX), Err(DecodeError::UnexpectedEof));
    assert_eq!(value_at(&[], u64::MAX - 1), Err(DecodeError::UnexpectedEof));
    let db = open(image(512, 112));
    assert_eq!(db.read_record_value(1, u64::MAX), Err(DecodeError::UnexpectedEof));
}

#[test]
fn text_must_be_utf8() {
    assert_eq!(value_at(&[0xff, 0x41], 17), Err(DecodeError::InvalidUtf8));
    assert_eq!(value_at(&[0xc3], 15), Err(DecodeError::InvalidUtf8));
    assert_eq!(value_at(&[0xed, 0xa0, 0x80], 19), Err(DecodeError::InvalidUtf8));
    assert_eq!(
        value_at(&[0xff, 0x41], 16),
        Ok((RecordValue::Blob { val: vec![0xff, 0x41] }, 202))
    );
}

#[test]
fn a_cell_decodes_to_its_row() {
    let mut data = image(512, 1024);
    let bytes = cell(
        7,
        &[
            (0, vec![]),
            text("apples"),
            int8(-3),
            (9, vec![]),
            (16, vec![1, 2]),
            (2, vec![0x01, 0x02]),
        ],
    );
    put(&mut data, 300, &bytes);
    put(&mut data, 512 + 40, &bytes);
    let db = open(data);
    let expected = TableLeafCell {
        row_id: 7,
        payload: Record {
            values: vec![
                RecordValue::Null,
                varchar("apples"),
                RecordValue::Int8 { val: -3 },
                RecordValue::Fake1,
                RecordValue::Blob { val: vec![1, 2] },
                RecordValue::Int16 { val: 258 },
            ],
        },
    };
    assert_eq!(db.read_table_leaf_cell(1, 300), Ok(expected.clone()));
    assert_eq!(db.read_table_leaf_cell(2, 40), Ok(expected));
}

#[test]
fn a_cell_with_a_long_row_id_and_no_columns() {
    let mut data = image(512, 512);
    put(&mut data, 120, &cell(u64::MAX, &[]));
    let db = open(data);
    assert_eq!(
        db.read_table_leaf_cell(1, 120),
        Ok(TableLeafCell { row_id: u64::MAX, payload: Record { values: vec![] } })
    );
}

#[test]
fn a_record_header_shorter_than_its_length_field() {
    let mut data = image(512, 512);
    put(&mut data, 120, &[0x03, 0x01, 0x00, 0x01, 0x05]);
    let db = open(data);
    assert_eq!(db.read_table_leaf_cell(1, 120), Err(DecodeError::MalformedRecordHeader));
}

#[test]
fn the_last_serial_type_may_overrun_the_header() {
    let mut data = image(512, 1024);
    let mut bytes = vec![0x05, 0x01, 0x02, 0x81, 0x0d];
    bytes.extend(vec![b'x'; 64]);
    put(&mut data, 120, &bytes);
    let db = open(data);
    let found = db.read_table_leaf_cell(1, 120).unwrap();
    assert_eq!(found.row_id, 1);
    assert_eq!(found.payload.values, vec![varchar(&"x".repeat(64))]);
}

#[test]
fn serial_types_and_values_on_their_own() {
    let mut data = image(512, 512);
    put(&mut data, 200, &[0x01, 0x17, 0x81, 0x00, 0x09]);
    put(&mut data, 300, &[0x2a]);
    put(&mut data, 301, b"table");
    let db = open(data);
    assert_eq!(db.read_serial_types(200, 0), Ok((vec![], 200)));
    assert_eq!(db.read_serial_types(200, 1), Ok((vec![1], 201)));
    assert_eq!(db.read_serial_types(200, 2), Ok((vec![1, 23], 202)));
    assert_eq!(db.read_serial_types(200, 3), Ok((vec![1, 23, 128], 204)));
    assert_eq!(db.read_serial_types(200, 4), Ok((vec![1, 23, 128], 204)));
    assert_eq!(db.read_serial_types(200, 5), Ok((vec![1, 23, 128, 9], 205)));
    assert_eq!(db.read_serial_types(500, 0), Ok((vec![], 500)));
    assert_eq!(db.read_serial_types(500, 20), Err(DecodeError::UnexpectedEof));
    assert_eq!(
        db.read_values(&vec![1, 23, 9], 300),
        Ok(vec![RecordValue::Int8 { val: 42 }, varchar("table"), RecordValue::Fake1])
    );
    assert_eq!(db.read_values(&vec![], 9999), Ok(vec![]));
    assert_eq!(db.read_values(&vec![1, 5, 9], 300), Err(DecodeError::UnimplementedSerialType));
    assert_eq!(db.read_values(&vec![1, 6], 505), Err(DecodeError::UnexpectedEof));
}

#[test]
fn cells_past_the_end_are_failures() {
    let mut data = image(512, 512);
    let bytes = cell(1, &[text("apples")]);
    put(&mut data, 512 - bytes.len(), &bytes);
    let db = open(data);
    assert_eq!(db.read_table_leaf_cell(1, (512 - bytes.len()) as u16), Err(DecodeError::UnexpectedEof));
    assert_eq!(db.read_table_leaf_cell(1, 511), Err(DecodeError::UnexpectedEof));
    assert_eq!(db.read_table_leaf_cell(2, 0), Err(DecodeError::UnexpectedEof));
    assert_eq!(db.read_table_leaf_cell(u32::MAX, 65535), Err(DecodeError::UnexpectedEof));
}

#[test]
fn a_cell_with_a_value_cut_short() {
    let mut data = image(512, 512);
    put(&mut data, 480, &[0x10, 0x01, 0x02, 0x81, 0x0d]);
    let db = open(data);
    assert_eq!(db.read_table_leaf_cell(1, 480), Err(DecodeError::UnexpectedEof));
}

#[test]
fn a_cell_with_an_unimplemented_width_or_bad_text() {
    let mut data = image(512, 1024);
    put(&mut data, 200, &cell(1, &[int8(1), (3, vec![0, 0, 1]), int8(2)]));
    put(&mut data, 300, &cell(2, &[int8(1), (5, vec![0, 0, 0, 0, 0, 1])]));
    put(&mut data, 400, &cell(3, &[(15, vec![0xff]), (3, vec![0, 0, 1])]));
    let db = open(data);
    assert_eq!(db.read_table_leaf_cell(1, 200), Err(DecodeError::UnimplementedSerialType));
    assert_eq!(db.read_table_leaf_cell(1, 300), Err(DecodeError::UnimplementedSerialType));
    assert_eq!(db.read_table_leaf_cell(1, 400), Err(DecodeError::InvalidUtf8));
}

#[test]
fn a_leaf_page_without_cells_is_an_empty_page() {
    let mut data = image(512, 1024);
    put(&mut data, 100, &leaf_header(0x0d, 0));
    put(&mut data, 512, &leaf_header(0x0d, 0));
    let db = open(data);
    assert_eq!(db.read_page(1), Ok(Page::TableLeaf { cells: vec![] }));
    assert_eq!(db.read_page(2), Ok(Page::TableLeaf { cells: vec![] }));
}

#[test]
fn an_empty_leaf_page_at_the_very_end() {
    let mut data = image(512, 1024 + 8);
    put(&mut data, 1024, &leaf_header(0x0d, 0));
    let db = open(data);
    assert_eq!(db.read_page(3), Ok(Page::TableLeaf { cells: vec![] }));
}

#[test]
fn an_interior_table_page_is_unsupported() {
    let mut data = image(512, 1024);
    put(&mut data, 100, &leaf_header(0x05, 0));
    put(&mut data, 512, &leaf_header(0x05, 2));
    let db = open(data);
    assert_eq!(db.read_page(1), Err(DecodeError::UnsupportedPageType));
    assert_eq!(db.read_page(2), Err(DecodeError::UnsupportedPageType));
}

#[test]
fn other_page_kinds_are_unsupported() {
    for tag in [0x00u8, 0x02, 0x0a, 0x0c, 0x0e, 0xff] {
        let mut data = image(512, 1024);
        put(&mut data, 512, &leaf_header(tag, 1));
        assert_eq!(open(data).read_page(2), Err(DecodeError::UnsupportedPageType));
    }
}

#[test]
fn pages_past_the_end_are_failures() {
    let mut data = image(512, 1024 + 7);
    put(&mut data, 1024, &[0x0d, 0, 0, 0, 0, 0, 0]);
    put(&mut data, 512, &leaf_header(0x0d, 300));
    let db = open(data);
    assert_eq!(db.read_page(3), Err(DecodeError::UnexpectedEof));
    assert_eq!(db.read_page(4), Err(DecodeError::UnexpectedEof));
    assert_eq!(db.read_page(65535), Err(DecodeError::UnexpectedEof));
    assert_eq!(db.read_page(2), Err(DecodeError::UnexpectedEof));
}

#[test]
fn cells_come_in_the_order_of_their_pointers() {
    let mut data = image(512, 1536);
    let first = cell(11, &[text("first")]);
    let second = cell(22, &[text("second")]);
    let third = cell(33, &[int8(3)]);
    put(&mut data, 512, &leaf_header(0x0d, 3));
    put(&mut data, 520, &[0x00, 0xc8, 0x01, 0x2c, 0x00, 0x64]);
    put(&mut data, 512 + 200, &first);
    put(&mut data, 512 + 300, &second);
    put(&mut data, 512 + 100, &third);
    let db = open(data);
    let page = db.read_page(2).unwrap();
    match page {
        Page::TableLeaf { cells } => {
            assert_eq!(cells.len(), 3);
            assert_eq!(cells[0].row_id, 11);
            assert_eq!(cells[0].payload.values, vec![varchar("first")]);
            assert_eq!(cells[1].row_id, 22);
            assert_eq!(cells[1].payload.values, vec![varchar("second")]);
            assert_eq!(cells[2].row_id, 33);
            assert_eq!(cells[2].payload.values, vec![RecordValue::Int8 { val: 3 }]);
        }
        other => panic!("not a leaf page: {:?}", other),
    }
    let cells = db.read_cells(2, &[0x00, 0x64, 0x00, 0xc8, 0xff]).unwrap();
    assert_eq!(cells.len(), 2);
    assert_eq!(cells[0].row_id, 33);
    assert_eq!(cells[1].row_id, 11);
    assert_eq!(db.read_cells(2, &[]), Ok(vec![]));
}

#[test]
fn one_bad_cell_fails_the_page() {
    let mut data = image(512, 1536);
    put(&mut data, 512, &leaf_header(0x0d, 2));
    put(&mut data, 520, &[0x00, 0xc8, 0x01, 0x2c]);
    put(&mut data, 512 + 200, &cell(1, &[text("fine")]));
    put(&mut data, 512 + 300, &cell(2, &[(5, vec![0; 6])]));
    let db = open(data);
    assert_eq!(db.read_page(2), Err(DecodeError::UnimplementedSerialType));
    assert!(db.read_table_leaf_cell(2, 200).is_ok());
}

fn row(values: Vec<RecordValue>) -> TableLeafCell {
    TableLeafCell { row_id: 1, payload: Record { values } }
}

fn apples_row(root: RecordValue) -> TableLeafCell {
    row(vec![varchar("table"), varchar("apples"), varchar("apples"), root, varchar("CREATE")])
}

#[test]
fn a_schema_row_from_a_cell() {
    let found = Schema::from_cell(&apples_row(RecordValue::Int8 { val: 2 })).unwrap();
    assert_eq!(
        found,
        Schema {
            name: "apples".to_string(),
            tbl_name: "apples".to_string(),
            root_page: 2,
            sql: "CREATE".to_string(),
        }
    );
    let wide = row(vec![
        RecordValue::Null,
        varchar("idx"),
        varchar("apples"),
        RecordValue::Int16 { val: 300 },
        varchar(""),
        RecordValue::Fake1,
    ]);
    let found = Schema::from_cell(&wide).unwrap();
    assert_eq!(found.name, "idx");
    assert_eq!(found.tbl_name, "apples");
    assert_eq!(found.root_page, 300);
    assert_eq!(found.sql, "");
}

#[test]
fn the_root_page_is_brought_to_32_bits() {
    let root = |value| Schema::from_cell(&apples_row(value)).map(|found| found.root_page);
    assert_eq!(root(RecordValue::Int8 { val: 127 }), Ok(127));
    assert_eq!(root(RecordValue::Int16 { val: 32767 }), Ok(32767));
    assert_eq!(root(RecordValue::Int32 { val: 70000 }), Ok(70000));
    assert_eq!(root(RecordValue::Int64 { val: 4_000_000_000 }), Ok(4_000_000_000));
    assert_eq!(root(RecordValue::Int64 { val: 5_000_000_000 }), Ok(705_032_704));
    assert_eq!(root(RecordValue::Int8 { val: -1 }), Ok(u32::MAX));
    assert_eq!(root(RecordValue::Int32 { val: i32::MIN }), Ok(0x8000_0000));
    assert_eq!(to_low_32_bits(0), 0);
    assert_eq!(to_low_32_bits(-1), u32::MAX);
    assert_eq!(to_low_32_bits(i64::MIN), 0);
    assert_eq!(to_low_32_bits(i64::MAX), u32::MAX);
    assert_eq!(to_low_32_bits(-0x1_0000_0000), 0);
    assert_eq!(to_low_32_bits(-0x1_0000_0001), u32::MAX);
    assert_eq!(to_low_32_bits(0x1_0000_0005), 5);
}

#[test]
fn schema_rows_of_another_shape() {
    let shape = |field| Err(DecodeError::SchemaShape { field });
    let check = |values| Schema::from_cell(&row(values));
    assert_eq!(check(vec![]), shape(SchemaField::Name));
    assert_eq!(check(vec![varchar("table")]), shape(SchemaField::Name));
    assert_eq!(
        check(vec![varchar("table"), RecordValue::Null, varchar("t"), RecordValue::Fake1]),
        shape(SchemaField::Name)
    );
    assert_eq!(check(vec![varchar("table"), varchar("t")]), shape(SchemaField::TableName));
    assert_eq!(
        check(vec![varchar("table"), varchar("t"), RecordValue::Blob { val: vec![b't'] }]),
        shape(SchemaField::TableName)
    );
    assert_eq!(
        check(vec![varchar("table"), varchar("t"), varchar("t")]),
        shape(SchemaField::RootPage)
    );
    for root in [
        RecordValue::Null,
        RecordValue::Fake0,
        RecordValue::Fake1,
        RecordValue::Int24 { val: 2 },
        RecordValue::Int48 { val: 2 },
        RecordValue::Double { bits: 2 },
        varchar("2"),
        RecordValue::Blob { val: vec![2] },
    ] {
        assert_eq!(
            check(vec![varchar("table"), varchar("t"), varchar("t"), root, varchar("sql")]),
            shape(SchemaField::RootPage)
        );
    }
    assert_eq!(
        check(vec![varchar("table"), varchar("t"), varchar("t"), RecordValue::Int8 { val: 2 }]),
        shape(SchemaField::Sql)
    );
    assert_eq!(
        check(vec![
            varchar("table"),
            varchar("t"),
            varchar("t"),
            RecordValue::Int8 { val: 2 },
            RecordValue::Null
        ]),
        shape(SchemaField::Sql)
    );
}

#[test]
fn only_a_leaf_page_is_a_catalog() {
    assert_eq!(Schema::from_page(&Page::TableInterior {}), Err(DecodeError::CatalogNotTableLeaf));
    assert_eq!(Schema::from_page(&Page::IndexInterior {}), Err(DecodeError::CatalogNotTableLeaf));
    assert_eq!(Schema::from_page(&Page::IndexLeaf {}), Err(DecodeError::CatalogNotTableLeaf));
    assert_eq!(Schema::from_page(&Page::TableLeaf { cells: vec![] }), Ok(vec![]));
    let rows = Schema::from_page(&Page::TableLeaf {
        cells: vec![
            apples_row(RecordValue::Int8 { val: 2 }),
            apples_row(RecordValue::Int8 { val: 3 }),
        ],
    })
    .unwrap();
    assert_eq!(rows.len(), 2);
    assert_eq!(rows[0].root_page, 2);
    assert_eq!(rows[1].root_page, 3);
    assert_eq!(
        Schema::from_page(&Page::TableLeaf {
            cells: vec![apples_row(RecordValue::Int8 { val: 2 }), apples_row(RecordValue::Null)],
        }),
        Err(DecodeError::SchemaShape { field: SchemaField::RootPage })
    );
}

const APPLES_SQL: &str =
    "CREATE TABLE apples (id integer primary key autoincrement, name text, color text)";

#[test]
fn the_catalog_of_a_database_with_one_table() {
    let mut data = image(4096, 4096);
    let bytes = schema_cell(1, "table", "apples", "apples", 2, APPLES_SQL);
    let at = 4096 - bytes.len();
    put(&mut data, 100, &leaf_header(0x0d, 1));
    put(&mut data, 108, &(at as u16).to_be_bytes());
    put(&mut data, at, &bytes);
    let db = open(data);
    assert_eq!(db.page_size(), 4096);
    assert_eq!(db.num_pages(), 1);
    let tables = db.get_schema_table().unwrap();
    assert_eq!(tables.len(), 1);
    assert_eq!(tables[0].tbl_name, "apples");
    assert_eq!(tables[0].root_page, 2);
    assert_eq!(tables[0].name, "apples");
    assert_eq!(tables[0].sql, APPLES_SQL);
}

#[test]
fn the_catalog_of_a_database_with_several_tables() {
    let mut data = image(4096, 8192);
    let apples = schema_cell(1, "table", "apples", "apples", 2, APPLES_SQL);
    let sequence = schema_cell(2, "table", "sqlite_sequence", "sqlite_sequence", 3, "CREATE TABLE");
    let oranges = schema_cell(3, "table", "oranges", "oranges", 4, "CREATE TABLE oranges (id)");
    put(&mut data, 100, &leaf_header(0x0d, 3));
    put(&mut data, 108, &[0x0f, 0x00, 0x0e, 0x00, 0x0d, 0x00]);
    put(&mut data, 0x0f00, &apples);
    put(&mut data, 0x0e00, &sequence);
    put(&mut data, 0x0d00, &oranges);
    let db = open(data);
    assert_eq!(db.num_pages(), 3);
    let tables = db.get_schema_table().unwrap();
    let names: Vec<&str> = tables.iter().map(|table| table.tbl_name.as_str()).collect();
    assert_eq!(names, vec!["apples", "sqlite_sequence", "oranges"]);
    let roots: Vec<u32> = tables.iter().map(|table| table.root_page).collect();
    assert_eq!(roots, vec![2, 3, 4]);
}

#[test]
fn an_empty_catalog() {
    let mut data = image(4096, 4096);
    put(&mut data, 100, &leaf_header(0x0d, 0));
    assert_eq!(open(data).get_schema_table(), Ok(vec![]));
}

#[test]
fn a_catalog_is_all_or_nothing() {
    let mut data = image(4096, 4096);
    put(&mut data, 100, &leaf_header(0x0d, 2));
    put(&mut data, 108, &[0x0f, 0x00, 0x0e, 0x00]);
    put(&mut data, 0x0f00, &schema_cell(1, "table", "apples", "apples", 2, APPLES_SQL));
    put(&mut data, 0x0e00, &cell(2, &[text("table"), text("pears"), (0, vec![])]));
    let db = open(data);
    assert_eq!(
        db.get_schema_table(),
        Err(DecodeError::SchemaShape { field: SchemaField::TableName })
    );
}

#[test]
fn a_catalog_on_a_page_of_another_kind() {
    let mut data = image(4096, 4096);
    put(&mut data, 100, &leaf_header(0x05, 1));
    assert_eq!(open(data).get_schema_table(), Err(DecodeError::UnsupportedPageType));
    let data = image(4096, 112);
    assert_eq!(open(data).get_schema_table(), Err(DecodeError::UnsupportedPageType));
    let mut data = image(4096, 112);
    put(&mut data, 100, &leaf_header(0x0d, 9));
    assert_eq!(open(data).get_schema_table(), Err(DecodeError::UnexpectedEof));
}
