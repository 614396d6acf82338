use haesli::error::{ConException, ProtocolError, TransError};
use haesli::field::{parse_field_value, serialize_field_value, table, write_table, FieldValue};
use haesli::wire::{bit, long, longlong, longstr, short, shortstr};

fn syntax_error() -> TransError {
    TransError::Invalid(ProtocolError::ConException(ConException::SyntaxError))
}

fn nested_table() -> FieldValue {
    FieldValue::FieldTable(vec![
        ("x-str".to_owned(), FieldValue::LongString(b"hi".to_vec())),
        (
            "x-nest".to_owned(),
            FieldValue::FieldTable(vec![("n".to_owned(), FieldValue::LongInt(-7))]),
        ),
    ])
}

#[test]
fn table_round_trip() {
    let bytes = serialize_field_value(&nested_table());
    assert_eq!(parse_field_value(&bytes).unwrap(), nested_table());
}

#[test]
fn table_encoding_is_exact() {
    let t = vec![("n".to_owned(), FieldValue::LongInt(-7))];
    let mut out = Vec::new();
    write_table(&mut out, &t);
    assert_eq!(out, vec![0, 0, 0, 7, 1, b'n', b'I', 0xFF, 0xFF, 0xFF, 0xF9]);
    let (rest, parsed) = table(&out).unwrap();
    assert!(rest.is_empty());
    assert_eq!(parsed, t);
}

#[test]
fn every_kind_of_value_round_trips() {
    let values = vec![
        FieldValue::Boolean(true),
        FieldValue::ShortShortInt(-3),
        FieldValue::ShortShortUInt(200),
        FieldValue::ShortInt(-300),
        FieldValue::ShortUInt(60000),
        FieldValue::LongInt(-70000),
        FieldValue::LongUInt(4_000_000_000),
        FieldValue::LongLongInt(-5_000_000_000),
        FieldValue::LongLongUInt(u64::MAX),
        FieldValue::Float(1.5f32.to_bits()),
        FieldValue::Double((-2.25f64).to_bits()),
        FieldValue::DecimalValue(2, 12345),
        FieldValue::ShortString("héllo".to_owned()),
        FieldValue::LongString(vec![0, 1, 255]),
        FieldValue::FieldArray(vec![FieldValue::Void, FieldValue::Boolean(false)]),
        FieldValue::Timestamp(1_700_000_000),
        nested_table(),
        FieldValue::Void,
    ];
    for v in values {
        let bytes = serialize_field_value(&v);
        assert_eq!(parse_field_value(&bytes).unwrap(), v);
    }
}

#[test]
fn float_keeps_its_bits() {
    let bytes = serialize_field_value(&FieldValue::Float(1.5f32.to_bits()));
    assert_eq!(bytes, vec![b'f', 0x3F, 0xC0, 0, 0]);
}

#[test]
fn unknown_tag_and_bad_boolean_are_syntax_errors() {
    assert_eq!(parse_field_value(&[b'x']), Err(syntax_error()));
    assert_eq!(parse_field_value(&[b't', 2]), Err(syntax_error()));
    assert_eq!(parse_field_value(&[b'I', 0, 0]), Err(syntax_error()));
    assert_eq!(parse_field_value(&[b'V', 0]), Err(syntax_error()));
    assert_eq!(parse_field_value(&[b's', 2, 0xFF, 0xFE]), Err(syntax_error()));
}

#[test]
fn primitives_are_big_endian() {
    let (rest, v) = short(&[0x12, 0x34, 9]).unwrap();
    assert_eq!((rest, v), (&[9u8][..], 0x1234));
    assert_eq!(long(&[0xDE, 0xAD, 0xBE, 0xEF]).unwrap().1, 0xDEADBEEF);
    assert_eq!(longlong(&[1, 2, 3, 4, 5, 6, 7, 8]).unwrap().1, 0x0102030405060708);
    assert_eq!(short(&[1]), Err(syntax_error()));
}

#[test]
fn strings_are_length_prefixed() {
    let (rest, s) = shortstr(&[3, b'a', b'b', b'c', 7]).unwrap();
    assert_eq!(s, "abc");
    assert_eq!(rest, &[7]);
    assert_eq!(shortstr(&[4, b'a']), Err(syntax_error()));
    let (rest, b) = longstr(&[0, 0, 0, 2, 0xFF, 0, 1]).unwrap();
    assert_eq!(b, vec![0xFF, 0]);
    assert_eq!(rest, &[1]);
}

#[test]
fn bits_unpack_least_significant_first() {
    let (rest, bits) = bit(&[0b0000_0101, 0b1, 9], 9).unwrap();
    assert_eq!(bits, vec![true, false, true, false, false, false, false, false, true]);
    assert_eq!(rest, &[9]);
    assert_eq!(bit(&[0xFF], 9), Err(syntax_error()));
}
