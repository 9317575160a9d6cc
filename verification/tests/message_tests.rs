use proto_server::codec::{encode_frame, LengthDelimitedCodec};
use proto_server::error::Error;
use proto_server::message::{AuthRequestMessage, Header, RequestMessage};

#[test]
fn test_read_auth_request_message() {
    let raw_data: Vec<u8> = vec![
        0x32, 0xB1, 0xDF, 0x00, 0x07, 0x01, 0x0C, 0x61, 0x62, 0x63, 0x64, 0x65, 0x66, 0x67,
        0x68, 0x69, 0x6A, 0x6B, 0x6C, 0x00, 0x35, 0x66,
    ];
    let header = Header {
        raw_data,
        msg_type: 0x01,
        msg_seq: 11,
        msg_len: 12,
        msg_crc: 0x6c6b,
    };
    let auth_request_message = AuthRequestMessage::read(header).unwrap();
    assert_eq!(auth_request_message.auth_type, 1);
    assert_eq!(auth_request_message.connect_code, "abcdefghijkl");
    assert_eq!(auth_request_message.connect_id, "");
}

#[test]
fn test_read_unknown_message_type() {
    let raw_data: Vec<u8> = vec![0x02, 0x00, 0x00, 0x00, 0x00, 0x00, 0x00];
    let header = Header {
        raw_data,
        msg_type: 0x02,
        msg_seq: 0,
        msg_len: 0,
        msg_crc: 0,
    };
    let request_message = RequestMessage::read(&header.raw_data).unwrap();
    assert!(request_message.is_none());
}

#[test]
fn test_read_auth_request_message_with_invalid_data() {
    let raw_data: Vec<u8> = vec![0x01, 0x00, 0x01, 0x00, 0x00, 0x00];
    let header = Header {
        raw_data,
        msg_type: 0x01,
        msg_seq: 1,
        msg_len: 0,
        msg_crc: 0,
    };
    let auth_request_message = AuthRequestMessage::read(header);
    assert!(auth_request_message.is_err());
}

#[test]
fn test_auth_decode_example() {
    let mut buf: Vec<u8> = vec![
        0x01, 0x00, 0x01, 0x00, 0x06, 0x01, 0x02, 0x41, 0x42, 0x01, 0x58, 0xA5, 0xDB,
    ];
    let mut codec = LengthDelimitedCodec;
    let frame = codec.decode(&mut buf).expect("a whole valid frame must decode");
    assert!(buf.is_empty());
    let msg = RequestMessage::read(&frame).unwrap().unwrap();
    match msg {
        RequestMessage::Auth(a) => {
            assert_eq!(a.auth_type, 1);
            assert_eq!(a.connect_code, "AB");
            assert_eq!(a.connect_id, "X");
        },
        RequestMessage::HeartBeat(_) => panic!("expected an auth request"),
    }
}

#[test]
fn test_unknown_type_passthrough() {
    let payload: Vec<u8> = vec![0x00, 0x01, 0x02];
    let mut buf = encode_frame(0x02, 1, &payload);
    let mut codec = LengthDelimitedCodec;
    let frame = codec.decode(&mut buf).expect("a whole valid frame must decode");
    assert!(buf.is_empty());
    let r = RequestMessage::read(&frame);
    assert!(matches!(r, Ok(None)));
}

#[test]
fn test_malformed_auth_is_io_error() {
    let payload: Vec<u8> = vec![0x01, 0x20, 0x41];
    let frame = encode_frame(0x01, 1, &payload);
    let r = RequestMessage::read(&frame);
    assert!(matches!(r, Err(Error::IoError)));
}

#[test]
fn test_header_too_short_is_error() {
    let raw: Vec<u8> = vec![0x01, 0x00];
    assert!(matches!(RequestMessage::read(&raw), Err(Error::IoError)));
}
