use proto_server::codec::{encode_frame, LengthDelimitedCodec};

#[test]
fn test_frame_round_trip() {
    let payload: Vec<u8> = vec![0xDE, 0xAD, 0xBE, 0xEF];
    let frame = encode_frame(0x01, 7, &payload);
    assert_eq!(frame.len(), 5 + 4 + 2);
    let mut buf = frame.clone();
    buf.push(0x99);
    buf.push(0x88);
    let mut codec = LengthDelimitedCodec;
    let got = codec.decode(&mut buf);
    assert_eq!(got, Some(frame));
    assert_eq!(buf, vec![0x99, 0x88]);
}

#[test]
fn test_empty_payload_round_trip() {
    let payload: Vec<u8> = vec![];
    let frame = encode_frame(0x03, 0, &payload);
    assert_eq!(frame.len(), 7);
    let mut buf = frame.clone();
    let mut codec = LengthDelimitedCodec;
    assert_eq!(codec.decode(&mut buf), Some(frame));
    assert!(buf.is_empty());
}

#[test]
fn test_partial_delivery() {
    let payload: Vec<u8> = vec![1, 2, 3];
    let frame = encode_frame(0x01, 1, &payload);
    let mut codec = LengthDelimitedCodec;
    let mut buf: Vec<u8> = Vec::new();
    for i in 0..frame.len() {
        buf.push(frame[i]);
        let r = codec.decode(&mut buf);
        if i + 1 < frame.len() {
            assert!(r.is_none());
            assert_eq!(buf.len(), i + 1);
        } else {
            assert_eq!(r, Some(frame.clone()));
            assert!(buf.is_empty());
        }
    }
}

#[test]
fn test_checksum_rejection_wipes_buffer() {
    let mut corrupt = encode_frame(0x01, 1, &vec![0x10, 0x20]);
    corrupt[5] ^= 0xFF;
    let valid = encode_frame(0x01, 2, &vec![0x30]);
    let mut buf = corrupt.clone();
    for b in &valid {
        buf.push(*b);
    }
    let mut codec = LengthDelimitedCodec;
    let r = codec.decode(&mut buf);
    assert!(r.is_none());
    assert!(buf.is_empty());
}

#[test]
fn test_encode_frame_exact_bytes() {
    let payload: Vec<u8> = vec![0x01, 0x02, 0x41, 0x42, 0x01, 0x58];
    let frame = encode_frame(0x01, 0x0001, &payload);
    let expected: Vec<u8> = vec![
        0x01, 0x00, 0x01, 0x00, 0x06, 0x01, 0x02, 0x41, 0x42, 0x01, 0x58, 0xA5, 0xDB,
    ];
    assert_eq!(frame, expected);
}

#[test]
fn test_two_buffered_frames_decode_in_order() {
    let first = encode_frame(0x01, 1, &vec![0xAA]);
    let second = encode_frame(0x01, 2, &vec![0xBB, 0xCC]);
    let mut buf = first.clone();
    for b in &second {
        buf.push(*b);
    }
    let mut codec = LengthDelimitedCodec;
    assert_eq!(codec.decode(&mut buf), Some(first));
    assert_eq!(codec.decode(&mut buf), Some(second));
    assert!(codec.decode(&mut buf).is_none());
    assert!(buf.is_empty());
}
