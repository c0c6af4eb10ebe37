use postgres_copy_binary::BinaryCopyOutIter;
use postgres_copy_binary::ColumnArray;
use postgres_copy_binary::DecodeError;
use postgres_copy_binary::PgType;
use postgres_copy_binary::SqlValue;
use postgres_copy_binary::available_type_names;
use postgres_copy_binary::decode_all_rows;
use postgres_copy_binary::decode_buffer;
use postgres_copy_binary::usize_to_decimal;

/// Header with the given flags word and extension bytes.
fn header(flags: u32, ext: &[u8]) -> Vec<u8> {
    let mut v = b"PGCOPY\n\xff\r\n\x00".to_vec();
    v.extend_from_slice(&flags.to_be_bytes());
    v.extend_from_slice(&(ext.len() as u32).to_be_bytes());
    v.extend_from_slice(ext);
    v
}

/// One row frame: a field count, then `(length, payload)` records where
/// `None` stands for SQL NULL.
fn row(fields: &[Option<&[u8]>]) -> Vec<u8> {
    let mut v = (fields.len() as u16).to_be_bytes().to_vec();
    for f in fields {
        match f {
            None => v.extend_from_slice(&u32::MAX.to_be_bytes()),
            Some(b) => {
                v.extend_from_slice(&(b.len() as u32).to_be_bytes());
                v.extend_from_slice(b);
            }
        }
    }
    v
}

const SENTINEL: [u8; 2] = [0xFF, 0xFF];

#[test]
fn test_row() {
    let buf: &[u8] = b"PGCOPY\n\xff\r\n\x00\x00\x00\x00\x00\x00\x00\x00\x00\x00\x01\x00\x00\x00\x04\x00\x00\x00\x01\x00\x01\x00\x00\x00\x04\x00\x00\x00\x02\x00\x01\x00\x00\x00\x04\x00\x00\x00\x03\xff\xff";
    let actual = decode_all_rows(buf);
    assert_eq!(actual.unwrap(), vec![1, 2, 3])
}

#[test]
fn test_row_i32() {
    let buf: &[u8] = b"PGCOPY\n\xff\r\n\x00\x00\x00\x00\x00\x00\x00\x00\x00\x00\x01\x00\x00\x00\x04\x00\x00\x00\x01\x00\x01\x00\x00\x00\x04\x00\x00\x00\x02\x00\x01\x00\x00\x00\x04\x00\x00\x00\x03\xff\xff";
    let actual = decode_buffer(buf, vec!["integer"]).expect("no exception");
    assert_eq!(
        actual,
        vec![ColumnArray::Int4(vec![Some(1), Some(2), Some(3)])]
    )
}

#[test]
fn lib_test_row_i32() {
    let buf: &[u8] = b"PGCOPY\n\xff\r\n\x00\x00\x00\x00\x00\x00\x00\x00\x00\x00\x01\x00\x00\x00\x04\x00\x00\x00\x01\x00\x01\x00\x00\x00\x04\x00\x00\x00\x02\x00\x01\x00\x00\x00\x04\x00\x00\x00\x03\xff\xff";
    let actual = decode_buffer(buf, vec!["integer"]).expect("no exception");
    assert_eq!(
        actual,
        vec![ColumnArray::Int4(vec![Some(1), Some(2), Some(3)])]
    )
}

#[test]
fn empty_stream_gives_empty_columns() {
    let mut buf = header(0, &[]);
    buf.extend_from_slice(&SENTINEL);
    let cols = decode_buffer(&buf, vec!["integer", "real"]).unwrap();
    assert_eq!(
        cols,
        vec![ColumnArray::Int4(vec![]), ColumnArray::Float4(vec![])]
    );
}

#[test]
fn zero_length_text_is_empty_string() {
    let mut buf = header(0, &[]);
    buf.extend_from_slice(&row(&[Some(b"")]));
    buf.extend_from_slice(&SENTINEL);
    let cols = decode_buffer(&buf, vec!["character varying"]).unwrap();
    assert_eq!(cols, vec![ColumnArray::Varchar(vec![Some(String::new())])]);
}

#[test]
fn header_extension_is_skipped() {
    let mut buf = header(0, &[0xAB, 0xCD, 0xEF]);
    buf.extend_from_slice(&row(&[Some(&5i32.to_be_bytes())]));
    buf.extend_from_slice(&SENTINEL);
    let cols = decode_buffer(&buf, vec!["integer"]).unwrap();
    assert_eq!(cols, vec![ColumnArray::Int4(vec![Some(5)])]);
}

#[test]
fn truncated_before_sentinel_is_eof() {
    let mut buf = header(0, &[]);
    buf.extend_from_slice(&row(&[Some(&5i32.to_be_bytes())]));
    buf.extend_from_slice(&SENTINEL);
    buf.pop();
    let err = decode_buffer(&buf, vec!["integer"]).unwrap_err();
    assert_eq!(err, DecodeError::UnexpectedEof);
}

#[test]
fn null_middle_row() {
    let mut buf = header(0, &[]);
    buf.extend_from_slice(&row(&[Some(&7i32.to_be_bytes())]));
    buf.extend_from_slice(&row(&[None]));
    buf.extend_from_slice(&row(&[Some(&(-1i32).to_be_bytes())]));
    buf.extend_from_slice(&SENTINEL);
    let cols = decode_buffer(&buf, vec!["integer"]).unwrap();
    assert_eq!(
        cols,
        vec![ColumnArray::Int4(vec![Some(7), None, Some(-1)])]
    );
}

#[test]
fn unknown_type_name() {
    let mut buf = header(0, &[]);
    buf.extend_from_slice(&SENTINEL);
    let err = decode_buffer(&buf, vec!["bigint"]).unwrap_err();
    assert_eq!(
        err,
        DecodeError::UnknownTypeName {
            name: "bigint".to_owned()
        }
    );
    let names = available_type_names();
    assert_eq!(
        names,
        vec![
            "integer",
            "real",
            "double precision",
            "character varying",
            "character"
        ]
    );
}

#[test]
fn magic_mismatch() {
    let mut buf = header(0, &[]);
    buf.extend_from_slice(&SENTINEL);
    buf[0] = 0x51;
    let err = decode_buffer(&buf, vec!["integer"]).unwrap_err();
    assert_eq!(err, DecodeError::InvalidMagic);
}

#[test]
fn field_count_mismatch() {
    let mut buf = header(0, &[]);
    buf.extend_from_slice(&row(&[
        Some(&1i32.to_be_bytes()),
        Some(&2i32.to_be_bytes()),
    ]));
    buf.extend_from_slice(&SENTINEL);
    let err = decode_buffer(&buf, vec!["integer"]).unwrap_err();
    assert_eq!(
        err,
        DecodeError::FieldCountMismatch {
            expected: 1,
            got: 2
        }
    );
}

#[test]
fn text_round_trip() {
    let mut buf = header(0, &[]);
    buf.extend_from_slice(&row(&[Some(&[0xC3, 0xA9])]));
    buf.extend_from_slice(&SENTINEL);
    let cols = decode_buffer(&buf, vec!["character varying"]).unwrap();
    assert_eq!(
        cols,
        vec![ColumnArray::Varchar(vec![Some("é".to_owned())])]
    );
}

#[test]
fn character_spelling_also_maps_to_text() {
    let mut buf = header(0, &[]);
    buf.extend_from_slice(&row(&[Some(b"ab")]));
    buf.extend_from_slice(&SENTINEL);
    let cols = decode_buffer(&buf, vec!["character"]).unwrap();
    assert_eq!(cols, vec![ColumnArray::Varchar(vec![Some("ab".to_owned())])]);
}

#[test]
fn float4_bits_decode() {
    let bits: u32 = 3.1415927f32.to_bits();
    let mut buf = header(0, &[]);
    buf.extend_from_slice(&row(&[Some(&bits.to_be_bytes())]));
    buf.extend_from_slice(&SENTINEL);
    let cols = decode_buffer(&buf, vec!["real"]).unwrap();
    assert_eq!(cols, vec![ColumnArray::Float4(vec![Some(bits)])]);
    match &cols[0] {
        ColumnArray::Float4(v) => assert_eq!(f32::from_bits(v[0].unwrap()), 3.1415927f32),
        _ => panic!("wrong column kind"),
    }
}

#[test]
fn float8_bits_decode() {
    let bits: u64 = 1.5f64.to_bits();
    let mut buf = header(0, &[]);
    buf.extend_from_slice(&row(&[Some(&bits.to_be_bytes())]));
    buf.extend_from_slice(&SENTINEL);
    let cols = decode_buffer(&buf, vec!["double precision"]).unwrap();
    assert_eq!(cols, vec![ColumnArray::Float8(vec![Some(bits)])]);
    match &cols[0] {
        ColumnArray::Float8(v) => assert_eq!(f64::from_bits(v[0].unwrap()), 1.5f64),
        _ => panic!("wrong column kind"),
    }
}

#[test]
fn field_length_mismatch_for_integer() {
    let mut buf = header(0, &[]);
    buf.extend_from_slice(&row(&[Some(&[0x00, 0x00, 0x01])]));
    buf.extend_from_slice(&SENTINEL);
    let err = decode_buffer(&buf, vec!["integer"]).unwrap_err();
    assert_eq!(
        err,
        DecodeError::FieldLengthMismatch {
            column: 0,
            expected: 4,
            got: 3
        }
    );
}

#[test]
fn invalid_utf8_is_reported_with_column() {
    let mut buf = header(0, &[]);
    buf.extend_from_slice(&row(&[
        Some(&7i32.to_be_bytes()),
        Some(&[0xFF, 0xFE]),
    ]));
    buf.extend_from_slice(&SENTINEL);
    let err = decode_buffer(&buf, vec!["integer", "character varying"]).unwrap_err();
    assert_eq!(err, DecodeError::InvalidUtf8 { column: 1 });
}

#[test]
fn decode_all_rows_rejects_null() {
    let mut buf = header(0, &[]);
    buf.extend_from_slice(&row(&[Some(&7i32.to_be_bytes())]));
    buf.extend_from_slice(&row(&[None]));
    buf.extend_from_slice(&SENTINEL);
    let err = decode_all_rows(&buf).unwrap_err();
    assert_eq!(err, DecodeError::UnexpectedNull { column: 0 });
}

#[test]
fn oid_flag_adds_a_leading_field() {
    // Bit 16 of the flags word announces a leading OID field per row; the
    // declared width must account for it, or the count check fails.
    let mut buf = header(1 << 16, &[]);
    // One declared (non-OID) field: the frame says 1, the reader expects
    // 1 + 1 fields against the type list.
    let mut frame = 1u16.to_be_bytes().to_vec();
    frame.extend_from_slice(&4u32.to_be_bytes());
    frame.extend_from_slice(&42u32.to_be_bytes());
    frame.extend_from_slice(&4u32.to_be_bytes());
    frame.extend_from_slice(&9i32.to_be_bytes());
    buf.extend_from_slice(&frame);
    buf.extend_from_slice(&SENTINEL);

    let err = decode_buffer(&buf, vec!["integer"]).unwrap_err();
    assert_eq!(
        err,
        DecodeError::FieldCountMismatch {
            expected: 1,
            got: 2
        }
    );

    let cols = decode_buffer(&buf, vec!["integer", "integer"]).unwrap();
    assert_eq!(
        cols,
        vec![
            ColumnArray::Int4(vec![Some(42)]),
            ColumnArray::Int4(vec![Some(9)])
        ]
    );
}

#[test]
fn reader_repeats_failure_and_end() {
    let mut buf = header(0, &[]);
    buf.extend_from_slice(&SENTINEL);
    buf[0] = 0x51;
    let mut it = BinaryCopyOutIter::new(buf, vec![PgType::Int4]);
    match it.next() {
        Some(Err(DecodeError::InvalidMagic)) => {}
        other => panic!("expected InvalidMagic, got {:?}", other),
    }
    match it.next() {
        Some(Err(DecodeError::InvalidMagic)) => {}
        other => panic!("expected InvalidMagic again, got {:?}", other),
    }

    let mut buf = header(0, &[]);
    buf.extend_from_slice(&SENTINEL);
    let mut it = BinaryCopyOutIter::new(buf, vec![]);
    assert!(it.next().is_none());
    assert!(it.next().is_none());
}

#[test]
fn row_try_get_and_get() {
    let mut buf = header(0, &[]);
    buf.extend_from_slice(&row(&[Some(&7i32.to_be_bytes()), None]));
    buf.extend_from_slice(&SENTINEL);
    let mut it = BinaryCopyOutIter::new(buf, vec![PgType::Int4, PgType::Int4]);
    let r = it.next().unwrap().unwrap();
    assert_eq!(r.try_get(0).unwrap(), Some(SqlValue::Int4(7)));
    assert_eq!(r.try_get(1).unwrap(), None);
    assert_eq!(r.get(0), Some(SqlValue::Int4(7)));
    assert_eq!(
        r.try_get(5).unwrap_err(),
        DecodeError::RowIndexOutOfRange { len: 2, index: 5 }
    );
    assert!(it.next().is_none());
}

#[test]
fn negative_and_extreme_integers() {
    let mut buf = header(0, &[]);
    buf.extend_from_slice(&row(&[Some(&i32::MIN.to_be_bytes())]));
    buf.extend_from_slice(&row(&[Some(&i32::MAX.to_be_bytes())]));
    buf.extend_from_slice(&row(&[Some(&(-1i32).to_be_bytes())]));
    buf.extend_from_slice(&SENTINEL);
    let cols = decode_buffer(&buf, vec!["integer"]).unwrap();
    assert_eq!(
        cols,
        vec![ColumnArray::Int4(vec![
            Some(i32::MIN),
            Some(i32::MAX),
            Some(-1)
        ])]
    );
}

#[test]
fn error_in_row_wins_over_later_frame_error() {
    // Row 0 carries a bad integer width; the stream is also truncated
    // after it.  The reported error is the row's, not the framing one.
    let mut buf = header(0, &[]);
    buf.extend_from_slice(&row(&[Some(&[0x01, 0x02])]));
    let err = decode_buffer(&buf, vec!["integer"]).unwrap_err();
    assert_eq!(
        err,
        DecodeError::FieldLengthMismatch {
            column: 0,
            expected: 4,
            got: 2
        }
    );
}

#[test]
fn truncated_mid_payload_is_eof() {
    let mut buf = header(0, &[]);
    let mut frame = 1u16.to_be_bytes().to_vec();
    frame.extend_from_slice(&4u32.to_be_bytes());
    frame.extend_from_slice(&[0x00, 0x01]); // two of four payload bytes
    buf.extend_from_slice(&frame);
    let err = decode_buffer(&buf, vec!["integer"]).unwrap_err();
    assert_eq!(err, DecodeError::UnexpectedEof);
}

#[test]
fn truncated_header_is_eof() {
    let buf = b"PGCOPY\n\xff".to_vec();
    let err = decode_buffer(&buf, vec!["integer"]).unwrap_err();
    assert_eq!(err, DecodeError::UnexpectedEof);
}

#[test]
fn mixed_columns_round_trip() {
    // Two rows across all four supported types, with a NULL per row;
    // every column must come back with exactly the encoded cells and the
    // same length.
    let pi: u32 = 3.14f32.to_bits();
    let e: u64 = 2.718f64.to_bits();
    let mut buf = header(0, &[]);
    buf.extend_from_slice(&row(&[
        Some(&7i32.to_be_bytes()),
        Some(&pi.to_be_bytes()),
        None,
        Some(b"sol"),
    ]));
    buf.extend_from_slice(&row(&[
        None,
        None,
        Some(&e.to_be_bytes()),
        None,
    ]));
    buf.extend_from_slice(&SENTINEL);
    let cols = decode_buffer(
        &buf,
        vec!["integer", "real", "double precision", "character varying"],
    )
    .unwrap();
    assert_eq!(
        cols,
        vec![
            ColumnArray::Int4(vec![Some(7), None]),
            ColumnArray::Float4(vec![Some(pi), None]),
            ColumnArray::Float8(vec![None, Some(e)]),
            ColumnArray::Varchar(vec![Some("sol".to_owned()), None]),
        ]
    );
}

#[test]
fn decoding_twice_is_bit_identical() {
    let mut buf = header(0, &[]);
    buf.extend_from_slice(&row(&[Some(&9i32.to_be_bytes()), Some(b"x")]));
    buf.extend_from_slice(&SENTINEL);
    let once = decode_buffer(&buf, vec!["integer", "character varying"]).unwrap();
    let twice = decode_buffer(&buf, vec!["integer", "character varying"]).unwrap();
    assert_eq!(once, twice);
}

#[test]
fn error_messages_are_exact() {
    assert_eq!(
        DecodeError::FieldCountMismatch {
            expected: 1,
            got: 2
        }
        .message(),
        "expected 1 values but got 2"
    );
    assert_eq!(
        DecodeError::UnknownTypeName {
            name: "bigint".to_owned()
        }
        .message(),
        "unknown type bigint, available types: integer, real, double precision, \
         character varying, character"
    );
    assert_eq!(DecodeError::InvalidMagic.message(), "invalid magic value");
    assert_eq!(
        DecodeError::RowIndexOutOfRange { len: 2, index: 5 }.message(),
        "row has only 2 items, tried to get index 5"
    );
    assert_eq!(
        DecodeError::InvalidUtf8 { column: 10 }.message(),
        "column 10: invalid utf-8"
    );
}

#[test]
fn decimal_rendering() {
    assert_eq!(usize_to_decimal(0), "0");
    assert_eq!(usize_to_decimal(7), "7");
    assert_eq!(usize_to_decimal(10), "10");
    assert_eq!(usize_to_decimal(40907), "40907");
}
