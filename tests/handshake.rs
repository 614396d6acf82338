use haesli::connection::{negotiate_version, protocol_header, VersionOutcome};
use haesli::error::{ConException, ProtocolError, TransError};
use haesli::sasl::parse_sasl_plain_response;

#[test]
fn version_handshake_success() {
    let header = [0x41, 0x4D, 0x51, 0x50, 0x00, 0x00, 0x09, 0x01];
    assert_eq!(negotiate_version(&header), VersionOutcome::Proceed);
}

#[test]
fn version_handshake_mismatch() {
    let header = [0x41, 0x4D, 0x51, 0x50, 0x00, 0x00, 0x09, 0x00];
    assert_eq!(negotiate_version(&header), VersionOutcome::Reject);
    assert_eq!(protocol_header(), vec![0x41, 0x4D, 0x51, 0x50, 0x00, 0x00, 0x09, 0x01]);
}

#[test]
fn wrong_protocol_name_is_rejected() {
    assert_eq!(negotiate_version(b"HTTP\0\0\x09\x01"), VersionOutcome::Reject);
    assert_eq!(negotiate_version(b"AMQP\x01\0\x09\x01"), VersionOutcome::Reject);
    assert_eq!(negotiate_version(b"AMQP"), VersionOutcome::Reject);
}

#[test]
fn sasl_plain_response_is_split_at_nul() {
    let user = parse_sasl_plain_response(b"\0admin\0guest\0secret").unwrap();
    assert_eq!(user.authorization_identity, "admin");
    assert_eq!(user.authentication_identity, "guest");
    assert_eq!(user.password, "secret");
    let user = parse_sasl_plain_response(b"\0\0guest\0pw").unwrap();
    assert_eq!(user.authorization_identity, "");
    assert_eq!(user.authentication_identity, "guest");
    assert_eq!(user.password, "pw");
}

#[test]
fn malformed_sasl_plain_response_is_refused() {
    let err = TransError::Invalid(ProtocolError::ConException(ConException::SyntaxError));
    assert_eq!(parse_sasl_plain_response(b"\0guest\0").err(), Some(err));
    assert_eq!(parse_sasl_plain_response(b"x\0a\0b\0c").err(), Some(err));
    assert_eq!(parse_sasl_plain_response(b"\0a\0b\0\xFF").err(), Some(err));
}
