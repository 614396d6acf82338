use bytes::Bytes;
use haesli::error::{ConException, ProtocolError, TransError};
use haesli::frame::{parse_frame_type, read_frame, write_frame, Frame, FrameType, REQUIRED_FRAME_END};

fn frame_error() -> TransError {
    TransError::Invalid(ProtocolError::ConException(ConException::FrameError))
}

#[test]
fn read_small_body() {
    let bytes: &[u8] = &[
        /*type*/
        1,
        /*channel*/
        0,
        0,
        /*size*/
        0,
        0,
        0,
        3,
        /*payload*/
        1,
        2,
        3,
        /*frame-end*/
        REQUIRED_FRAME_END,
    ];

    let frame = read_frame(bytes, 10000).unwrap();
    assert_eq!(
        frame,
        Frame {
            kind: FrameType::Method,
            channel: 0,
            payload: Bytes::from_static(&[1, 2, 3]),
        }
    );
}

#[test]
fn write_then_read_gives_the_frame_back() {
    let frame = Frame { kind: FrameType::Body, channel: 7, payload: Bytes::from_static(b"world") };
    let bytes = write_frame(&frame).unwrap();
    assert_eq!(bytes, vec![3, 0, 7, 0, 0, 0, 5, b'w', b'o', b'r', b'l', b'd', 0xCE]);
    assert_eq!(read_frame(&bytes, 0).unwrap(), frame);
    assert_eq!(read_frame(&bytes, 5).unwrap(), frame);
}

#[test]
fn frame_end_violation_is_a_frame_error() {
    let bytes = [1, 0, 1, 0, 0, 0, 4, 0, 10, 0, 10, 0x00];
    assert_eq!(read_frame(&bytes, 0), Err(frame_error()));
}

#[test]
fn heartbeat_off_channel_zero_is_a_frame_error() {
    let bytes = [8, 0, 1, 0, 0, 0, 0, 0xCE];
    assert_eq!(read_frame(&bytes, 0), Err(frame_error()));
    let ok = [8, 0, 0, 0, 0, 0, 0, 0xCE];
    assert_eq!(read_frame(&ok, 0).unwrap().kind, FrameType::Heartbeat);
}

#[test]
fn payload_over_the_maximum_is_a_frame_error() {
    let bytes = [3, 0, 1, 0, 0, 0, 4, 1, 2, 3, 4, 0xCE];
    assert_eq!(read_frame(&bytes, 3), Err(frame_error()));
    assert!(read_frame(&bytes, 4).is_ok());
}

#[test]
fn short_input_is_a_transport_error() {
    assert_eq!(read_frame(&[1, 0, 0, 0, 0, 0, 3, 1, 2], 0), Err(TransError::Other));
    assert_eq!(read_frame(&[1, 0], 0), Err(TransError::Other));
}

#[test]
fn unknown_frame_type_is_a_frame_error() {
    assert_eq!(parse_frame_type(4, 0), Err(frame_error()));
    assert_eq!(parse_frame_type(2, 5), Ok(FrameType::Header));
    assert_eq!(ConException::FrameError.code(), 501);
}
