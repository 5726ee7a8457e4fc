use beamng_proto::{read_frame, write_frame, BngError};

#[test]
fn test_roundtrip() {
    let payload = b"hello world".to_vec();
    let buf = write_frame(&payload);

    assert_eq!(buf.len(), 4 + payload.len());
    // Verify big-endian length prefix
    let len = u32::from_be_bytes([buf[0], buf[1], buf[2], buf[3]]);
    assert_eq!(len as usize, payload.len());

    let result = read_frame(&buf, 0).unwrap();
    assert_eq!(result.0, payload);
    assert_eq!(result.1, buf.len());
}

#[test]
fn test_empty_payload() {
    let payload: Vec<u8> = Vec::new();
    let buf = write_frame(&payload);

    let result = read_frame(&buf, 0).unwrap();
    assert!(result.0.is_empty());
    assert_eq!(result.1, 4);
}

#[test]
fn big_endian_prefix_is_exact() {
    let payload = vec![0u8; 0x0102];
    let buf = write_frame(&payload);
    assert_eq!(&buf[0..4], &[0x00, 0x00, 0x01, 0x02]);
    assert_eq!(buf.len(), 4 + 0x0102);
}

#[test]
fn close_mid_header_is_disconnection() {
    // Only 2 of the 4 header bytes arrived before the stream closed.
    let data = vec![0x00, 0x00];
    let err = read_frame(&data, 0).unwrap_err();
    assert!(matches!(err, BngError::Disconnected(_)));
    match err {
        BngError::Disconnected(m) => {
            assert_eq!(m, "Connection closed while reading frame header")
        }
        _ => unreachable!(),
    }
}

#[test]
fn close_mid_body_is_disconnection() {
    // Header announces 10 bytes; only 3 arrived.
    let data = vec![0x00, 0x00, 0x00, 0x0a, 0x01, 0x02, 0x03];
    let err = read_frame(&data, 0).unwrap_err();
    match err {
        BngError::Disconnected(m) => assert_eq!(m, "Connection closed while reading frame body"),
        other => panic!("expected disconnection, got {:?}", other),
    }
}

#[test]
fn frames_read_in_sequence() {
    let mut data = write_frame(&vec![1, 2, 3]);
    data.extend_from_slice(&write_frame(&vec![4, 5]));
    let (p1, pos1) = read_frame(&data, 0).unwrap();
    assert_eq!(p1, vec![1, 2, 3]);
    let (p2, pos2) = read_frame(&data, pos1).unwrap();
    assert_eq!(p2, vec![4, 5]);
    assert_eq!(pos2, data.len());
}
