use bytes::Bytes;
use haesli::connection::connection_start;
use haesli::error::{ConException, ProtocolError, TransError};
use haesli::field::FieldValue;
use haesli::frame::{read_frame, write_frame, Frame, FrameType};
use haesli::methods::{method_signature, parse_method, serialize_method, ArgKind, Argument, Method};

#[test]
fn connection_start_travels_in_a_method_frame() {
    let payload = serialize_method(&connection_start());
    let frame = Frame { kind: FrameType::Method, channel: 0, payload: Bytes::from(payload) };
    let bytes = write_frame(&frame).unwrap();
    let received = read_frame(&bytes, 0).unwrap();
    assert_eq!(received.channel, 0);
    let method = parse_method(&received.payload).unwrap();
    assert_eq!((method.class_id, method.method_id), (10, 10));
    assert_eq!(method.arguments[3], Argument::LongStr(b"PLAIN".to_vec()));
}

#[test]
fn queue_declare_round_trips() {
    let declare = Method {
        class_id: 50,
        method_id: 10,
        arguments: vec![
            Argument::Short(0),
            Argument::ShortStr("hello".to_owned()),
            Argument::Bits(vec![false, true, false, true, false]),
            Argument::Table(vec![("x-max".to_owned(), FieldValue::LongInt(10))]),
        ],
    };
    let bytes = serialize_method(&declare);
    assert_eq!(&bytes[..4], &[0, 50, 0, 10]);
    assert_eq!(bytes[4 + 2 + 6], 0b0000_1010);
    let parsed = parse_method(&bytes).unwrap();
    assert_eq!(parsed, declare);
}

#[test]
fn declare_ok_encoding_is_exact() {
    let ok = Method {
        class_id: 50,
        method_id: 11,
        arguments: vec![Argument::ShortStr("hello".to_owned()), Argument::Long(0), Argument::Long(0)],
    };
    let bytes = serialize_method(&ok);
    assert_eq!(bytes, vec![0, 50, 0, 11, 5, b'h', b'e', b'l', b'l', b'o', 0, 0, 0, 0, 0, 0, 0, 0]);
    assert_eq!(parse_method(&bytes).unwrap(), ok);
}

#[test]
fn every_known_signature_round_trips_with_plain_arguments() {
    for class_id in [10u16, 20, 40, 50, 60, 85, 90] {
        for method_id in 0u16..130 {
            let Some(kinds) = method_signature(class_id, method_id) else { continue };
            let arguments = kinds
                .iter()
                .map(|k| match k {
                    ArgKind::Octet => Argument::Octet(7),
                    ArgKind::Short => Argument::Short(0x1234),
                    ArgKind::Long => Argument::Long(0xDEADBEEF),
                    ArgKind::LongLong => Argument::LongLong(u64::MAX - 1),
                    ArgKind::ShortStr => Argument::ShortStr("name".to_owned()),
                    ArgKind::LongStr => Argument::LongStr(vec![0, 1, 2]),
                    ArgKind::Bits(n) => Argument::Bits((0..*n).map(|i| i % 2 == 0).collect()),
                    ArgKind::Table => Argument::Table(vec![("k".to_owned(), FieldValue::Void)]),
                })
                .collect();
            let method = Method { class_id, method_id, arguments };
            let bytes = serialize_method(&method);
            assert_eq!(parse_method(&bytes).unwrap(), method);
        }
    }
}

#[test]
fn unknown_method_and_trailing_bytes_are_refused() {
    assert_eq!(
        parse_method(&[0, 99, 0, 1]),
        Err(TransError::Invalid(ProtocolError::ConException(ConException::CommandInvalid)))
    );
    assert_eq!(
        parse_method(&[0, 10, 0, 51, 0]),
        Err(TransError::Invalid(ProtocolError::ConException(ConException::SyntaxError)))
    );
    assert!(parse_method(&[0, 10, 0, 51]).is_ok());
    let syntax = Err(TransError::Invalid(ProtocolError::ConException(ConException::SyntaxError)));
    assert_eq!(parse_method(&[0, 10]), syntax);
    assert_eq!(parse_method(&[0, 10, 0, 30, 0]), syntax);
    let mut with_extra = serialize_method(&connection_start());
    with_extra.push(0);
    assert_eq!(parse_method(&with_extra), syntax);
}
