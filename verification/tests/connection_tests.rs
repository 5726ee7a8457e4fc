use beamng_proto::{
    decode_message, encode_message, read_frame, value_as_u64, value_to_str_dict, value_to_string,
    write_frame, BngError, Connection, MsgValue, StrDict, PROTOCOL_VERSION,
};

fn msg(pairs: Vec<(&str, MsgValue)>) -> MsgValue {
    MsgValue::Dict(
        pairs
            .into_iter()
            .map(|(k, v)| (MsgValue::Text(k.to_owned()), v))
            .collect(),
    )
}

fn frame_msg(v: &MsgValue) -> Vec<u8> {
    write_frame(&encode_message(v).unwrap())
}

fn text(s: &str) -> MsgValue {
    MsgValue::Text(s.to_owned())
}

fn dict_text(d: &StrDict, key: &str) -> Option<String> {
    value_to_string(d.get(&key.to_owned())?)
}

/// The response a well-behaved peer sends to the handshake of a fresh
/// connection.
fn hello_response() -> Vec<u8> {
    frame_msg(&msg(vec![
        ("type", text("Hello")),
        ("_id", MsgValue::UInt(0)),
        ("protocolVersion", text(PROTOCOL_VERSION)),
    ]))
}

#[test]
fn test_connect_and_hello() {
    let mut conn = Connection::new();
    let data = hello_response();
    let mut pos = 0usize;
    conn.hello(&data, &mut pos).unwrap();

    // Connection should have id counter at 1 after hello.
    assert_eq!(conn.next_request_id(), 1);

    // The handshake request itself went out framed, carrying type, identity
    // and version.
    let out = conn.take_outbox();
    let (payload, consumed) = read_frame(&out, 0).unwrap();
    assert_eq!(consumed, out.len());
    let req = value_to_str_dict(decode_message(&payload).unwrap()).unwrap();
    assert_eq!(dict_text(&req, "type"), Some("Hello".to_owned()));
    assert_eq!(value_as_u64(req.get(&"_id".to_owned()).unwrap()), Some(0));
    assert_eq!(
        dict_text(&req, "protocolVersion"),
        Some(PROTOCOL_VERSION.to_owned())
    );
}

#[test]
fn test_protocol_mismatch() {
    let mut conn = Connection::new();
    let data = frame_msg(&msg(vec![
        ("type", text("Hello")),
        ("_id", MsgValue::UInt(0)),
        ("protocolVersion", text("v0.99")),
    ]));
    let mut pos = 0usize;
    let result = conn.hello(&data, &mut pos);
    assert!(matches!(result, Err(BngError::ProtocolMismatch(_))));
    match result.unwrap_err() {
        BngError::ProtocolMismatch(m) => {
            assert_eq!(m, "BeamNGpy's is: v1.26, BeamNG.tech's is: v0.99")
        }
        _ => unreachable!(),
    }
}

#[test]
fn test_request_response_correlation() {
    let mut conn = Connection::new();
    let data = hello_response();
    let mut pos = 0usize;
    conn.hello(&data, &mut pos).unwrap();

    // The peer responds out of order: first a response for id 99, then the
    // one actually awaited (the Pause request gets id 1).
    let mut data = frame_msg(&msg(vec![
        ("type", text("Future")),
        ("_id", MsgValue::UInt(99)),
    ]));
    data.extend_from_slice(&frame_msg(&msg(vec![
        ("type", text("Paused")),
        ("_id", MsgValue::UInt(1)),
    ])));
    let mut pos = 0usize;
    let resp = conn.request("Pause", vec![], &data, &mut pos).unwrap();
    assert_eq!(dict_text(&resp, "type"), Some("Paused".to_owned()));

    // The out-of-order message should be buffered.
    assert!(conn.has_buffered(99));
}

#[test]
fn buffered_response_is_consumed_without_reading() {
    let mut conn = Connection::new();
    let mut pos = 0usize;
    conn.hello(&hello_response(), &mut pos).unwrap();

    // Send two requests; their responses arrive swapped.
    let id_a = conn.send_raw("A", vec![]).unwrap();
    let id_b = conn.send_raw("B", vec![]).unwrap();
    assert_eq!((id_a, id_b), (1, 2));

    // A's response arrives first; whoever is reading for B classifies and
    // buffers it.
    let mut data = frame_msg(&msg(vec![("type", text("A")), ("_id", MsgValue::UInt(1))]));
    data.extend_from_slice(&frame_msg(&msg(vec![
        ("type", text("B")),
        ("_id", MsgValue::UInt(2)),
    ])));

    let mut pos = 0usize;
    let resp_b = conn.recv(id_b, &data, &mut pos).unwrap();
    assert_eq!(dict_text(&resp_b, "type"), Some("B".to_owned()));
    assert!(!conn.has_buffered(id_b));
    assert!(conn.has_buffered(id_a));

    // The response for the first request is already buffered: this recv
    // consumes nothing more from the stream.
    let pos_before = pos;
    let empty: Vec<u8> = Vec::new();
    let mut pos2 = 0usize;
    let resp_a = conn.recv(id_a, &empty, &mut pos2).unwrap();
    assert_eq!(dict_text(&resp_a, "type"), Some("A".to_owned()));
    assert_eq!(pos_before, data.len());
    assert!(!conn.has_buffered(id_a));
}

#[test]
fn identity_coercion_matches_float_ids() {
    let mut conn = Connection::new();
    let mut pos = 0usize;
    conn.hello(&hello_response(), &mut pos).unwrap();

    // The peer encodes the echoed identity as a floating-point number.
    let id = conn.send_raw("Ping", vec![]).unwrap();
    let data = frame_msg(&msg(vec![
        ("type", text("Pong")),
        ("_id", MsgValue::Float((id as f64).to_bits())),
    ]));
    let mut pos = 0usize;
    let resp = conn.recv(id, &data, &mut pos).unwrap();
    assert_eq!(dict_text(&resp, "type"), Some("Pong".to_owned()));
}

#[test]
fn simulator_error_surfaces_as_its_own_kind() {
    let mut conn = Connection::new();
    let data = frame_msg(&msg(vec![
        ("_id", MsgValue::UInt(0)),
        ("bngError", text("engine fault")),
    ]));
    let mut pos = 0usize;
    let id = conn.send_raw("Step", vec![]).unwrap();
    let err = conn.recv(id, &data, &mut pos).unwrap_err();
    match err {
        BngError::SimulatorError(m) => assert_eq!(m, "engine fault"),
        other => panic!("expected a simulator error, got {:?}", other),
    }
}

#[test]
fn value_error_is_distinct_from_simulator_error() {
    let mut conn = Connection::new();
    let data = frame_msg(&msg(vec![
        ("_id", MsgValue::UInt(0)),
        ("bngValueError", text("bad input")),
    ]));
    let mut pos = 0usize;
    let id = conn.send_raw("Spawn", vec![]).unwrap();
    let err = conn.recv(id, &data, &mut pos).unwrap_err();
    match err {
        BngError::ValueError(m) => assert_eq!(m, "bad input"),
        other => panic!("expected a value error, got {:?}", other),
    }
}

#[test]
fn buffered_simulator_error_replays_on_recv() {
    let mut conn = Connection::new();
    let a = conn.send_raw("A", vec![]).unwrap();
    let b = conn.send_raw("B", vec![]).unwrap();

    // The error response for B arrives while A's caller is reading.
    let mut data = frame_msg(&msg(vec![
        ("_id", MsgValue::UInt(b)),
        ("bngError", text("later")),
    ]));
    data.extend_from_slice(&frame_msg(&msg(vec![
        ("type", text("Done")),
        ("_id", MsgValue::UInt(a)),
    ])));
    let mut pos = 0usize;
    conn.recv(a, &data, &mut pos).unwrap();
    assert!(conn.has_buffered(b));

    let empty: Vec<u8> = Vec::new();
    let mut pos2 = 0usize;
    let err = conn.recv(b, &empty, &mut pos2).unwrap_err();
    assert!(matches!(err, BngError::SimulatorError(_)));
    assert!(!conn.has_buffered(b));
}

#[test]
fn missing_identity_is_a_compatibility_failure() {
    let mut conn = Connection::new();
    let id = conn.send_raw("Info", vec![]).unwrap();

    // No _id at all.
    let data = frame_msg(&msg(vec![("type", text("Info"))]));
    let mut pos = 0usize;
    assert!(matches!(
        conn.recv(id, &data, &mut pos),
        Err(BngError::MissingId)
    ));

    // An identity that does not read as a number.
    let data = frame_msg(&msg(vec![("_id", text("one"))]));
    let mut pos = 0usize;
    assert!(matches!(
        conn.recv(id, &data, &mut pos),
        Err(BngError::MissingId)
    ));

    // A response that is not a map at all.
    let data = write_frame(&encode_message(&MsgValue::UInt(7)).unwrap());
    let mut pos = 0usize;
    assert!(matches!(
        conn.recv(id, &data, &mut pos),
        Err(BngError::MissingId)
    ));
}

#[test]
fn undecodable_frame_is_a_decode_failure() {
    let mut conn = Connection::new();
    let id = conn.send_raw("Info", vec![]).unwrap();
    let data = write_frame(&vec![0xd9]);
    let mut pos = 0usize;
    assert!(matches!(
        conn.recv(id, &data, &mut pos),
        Err(BngError::MsgpackDecode(_))
    ));
}

#[test]
fn recv_reports_disconnection_mid_frame() {
    let mut conn = Connection::new();
    let id = conn.send_raw("Info", vec![]).unwrap();
    let data = vec![0x00, 0x00];
    let mut pos = 0usize;
    match conn.recv(id, &data, &mut pos) {
        Err(BngError::Disconnected(m)) => {
            assert_eq!(m, "Connection closed while reading frame header")
        }
        other => panic!("expected disconnection, got {:?}", other),
    }
}

#[test]
fn ack_checks_the_response_type() {
    let mut conn = Connection::new();
    let data = frame_msg(&msg(vec![
        ("type", text("Paused")),
        ("_id", MsgValue::UInt(0)),
    ]));
    let mut pos = 0usize;
    conn.ack("Pause", "Paused", vec![], &data, &mut pos).unwrap();

    let data = frame_msg(&msg(vec![
        ("type", text("Resumed")),
        ("_id", MsgValue::UInt(1)),
    ]));
    let mut pos = 0usize;
    let err = conn.ack("Pause", "Paused", vec![], &data, &mut pos).unwrap_err();
    match err {
        BngError::UnexpectedResponseType { expected, got } => {
            assert_eq!(expected, "Paused");
            assert_eq!(got, "Resumed");
        }
        other => panic!("expected a type mismatch, got {:?}", other),
    }
}

#[test]
fn message_extracts_the_result_field() {
    let mut conn = Connection::new();
    let data = frame_msg(&msg(vec![
        ("type", text("GetLevels")),
        ("_id", MsgValue::UInt(0)),
        ("result", MsgValue::Arr(vec![text("italy")])),
    ]));
    let mut pos = 0usize;
    let r = conn
        .message("GetLevels", vec![], &data, &mut pos)
        .unwrap()
        .unwrap();
    assert!(matches!(r, MsgValue::Arr(_)));

    // A response without a result field yields nothing.
    let data = frame_msg(&msg(vec![
        ("type", text("HideHUD")),
        ("_id", MsgValue::UInt(1)),
    ]));
    let mut pos = 0usize;
    let r = conn.message("HideHUD", vec![], &data, &mut pos).unwrap();
    assert!(r.is_none());
}

#[test]
fn requests_carry_type_identity_then_fields() {
    let mut conn = Connection::new();
    let id = conn
        .send_raw(
            "Step",
            vec![
                ("count".to_owned(), MsgValue::UInt(60)),
                ("ack".to_owned(), MsgValue::Bool(true)),
            ],
        )
        .unwrap();
    assert_eq!(id, 0);
    let out = conn.take_outbox();
    let (payload, _) = read_frame(&out, 0).unwrap();

    let reference = rmpv::Value::Map(vec![
        (rmpv::Value::from("type"), rmpv::Value::from("Step")),
        (rmpv::Value::from("_id"), rmpv::Value::from(0u64)),
        (rmpv::Value::from("count"), rmpv::Value::from(60u64)),
        (rmpv::Value::from("ack"), rmpv::Value::from(true)),
    ]);
    let mut expected = Vec::new();
    rmpv::encode::write_value(&mut expected, &reference).unwrap();
    assert_eq!(payload, expected);

    // A second take hands out nothing.
    assert!(conn.take_outbox().is_empty());
}

#[test]
fn error_messages_name_their_kind() {
    assert_eq!(
        BngError::SimulatorError("x".to_owned()).message(),
        "Simulator error: x"
    );
    assert_eq!(BngError::ValueError("v".to_owned()).message(), "Value error: v");
    assert_eq!(
        BngError::Disconnected("gone".to_owned()).message(),
        "Disconnected: gone"
    );
    assert_eq!(
        BngError::ProtocolMismatch("both".to_owned()).message(),
        "Protocol mismatch: both"
    );
    assert_eq!(
        BngError::UnexpectedResponseType {
            expected: "A".to_owned(),
            got: "B".to_owned()
        }
        .message(),
        "Unexpected response type: expected \"A\", got \"B\""
    );
    assert_eq!(
        BngError::MissingId.message(),
        "Invalid message: missing _id field. The version of BeamNG.tech may be incompatible."
    );
    assert_eq!(BngError::Io("broken".to_owned()).message(), "I/O error: broken");
    assert_eq!(
        BngError::MsgpackEncode("big".to_owned()).message(),
        "Msgpack encode error: big"
    );
    assert_eq!(
        BngError::MsgpackDecode("bad".to_owned()).message(),
        "Msgpack decode error: bad"
    );
    assert_eq!(BngError::Timeout("slow".to_owned()).message(), "Timeout: slow");
}

#[test]
fn message_checks_the_response_type() {
    let mut conn = Connection::new();
    let data = frame_msg(&msg(vec![
        ("type", text("SomethingElse")),
        ("_id", MsgValue::UInt(0)),
        ("result", MsgValue::UInt(1)),
    ]));
    let mut pos = 0usize;
    let err = conn
        .message("GetLevels", vec![], &data, &mut pos)
        .unwrap_err();
    match err {
        BngError::UnexpectedResponseType { expected, got } => {
            assert_eq!(expected, "GetLevels");
            assert_eq!(got, "SomethingElse");
        }
        other => panic!("expected a type mismatch, got {:?}", other),
    }
}
