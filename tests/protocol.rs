use ptt_relay::protocol::{
    decode, encode, AckPayload, DecodeError, EncodeError, FinalPayload, HelloPayload, Json, Message,
    PartialPayload, PttStartPayload,
};

fn s(v: &str) -> Json {
    Json::Str(v.to_string())
}

fn obj(members: Vec<(&str, Json)>) -> Json {
    Json::Object(members.into_iter().map(|(k, v)| (k.to_string(), v)).collect())
}

fn hello_frame() -> Json {
    obj(vec![
        ("type", s("HELLO")),
        ("clientId", s("phone-01")),
        (
            "payload",
            obj(vec![
                ("deviceModel", s("Galaxy S23")),
                ("engine", s("Google")),
                ("capabilities", Json::Array(vec![s("WS")])),
            ]),
        ),
    ])
}

#[test]
fn test_parse_hello() {
    let msg = decode(&hello_frame()).unwrap();
    match msg {
        Message::Hello { client_id, payload } => {
            assert_eq!(client_id, "phone-01");
            assert_eq!(payload.device_model, "Galaxy S23");
            assert_eq!(payload.engine, "Google");
            assert_eq!(payload.capabilities, vec!["WS"]);
        }
        _ => panic!("expected Hello variant"),
    }
}

#[test]
fn test_parse_ptt_start() {
    let frame = obj(vec![
        ("type", s("PTT_START")),
        ("clientId", s("phone-01")),
        ("payload", obj(vec![("sessionId", s("s-abc123"))])),
    ]);
    let msg = decode(&frame).unwrap();
    match msg {
        Message::PttStart { client_id, payload } => {
            assert_eq!(client_id, "phone-01");
            assert_eq!(payload.session_id, "s-abc123");
        }
        _ => panic!("expected PttStart variant"),
    }
}

#[test]
fn test_parse_partial() {
    let frame = obj(vec![
        ("type", s("PARTIAL")),
        ("clientId", s("phone-01")),
        ("timestamp", Json::Number { int: Some(1670000000000), bits: None }),
        (
            "payload",
            obj(vec![
                ("sessionId", s("s-abc123")),
                ("seq", Json::Number { int: Some(12), bits: None }),
                ("text", s("안녕하세요 오늘")),
                ("confidence", Json::Number { int: None, bits: Some(0.60f64.to_bits()) }),
            ]),
        ),
    ]);
    let msg = decode(&frame).unwrap();
    match msg {
        Message::Partial {
            client_id,
            timestamp,
            payload,
        } => {
            assert_eq!(client_id, "phone-01");
            assert_eq!(timestamp, 1670000000000);
            assert_eq!(payload.session_id, "s-abc123");
            assert_eq!(payload.seq, 12);
            assert_eq!(payload.text, "안녕하세요 오늘");
            assert!((f64::from_bits(payload.confidence_bits) - 0.60).abs() < f64::EPSILON);
        }
        _ => panic!("expected Partial variant"),
    }
}

#[test]
fn test_parse_final() {
    let frame = obj(vec![
        ("type", s("FINAL")),
        ("clientId", s("phone-01")),
        ("timestamp", Json::Number { int: Some(1670000000000), bits: None }),
        (
            "payload",
            obj(vec![
                ("sessionId", s("s-abc123")),
                ("text", s("안녕하세요. 오늘 회의는 오후 3시입니다.")),
                ("confidence", Json::Number { int: None, bits: Some(0.93f64.to_bits()) }),
            ]),
        ),
    ]);
    let msg = decode(&frame).unwrap();
    match msg {
        Message::Final {
            client_id,
            timestamp,
            payload,
        } => {
            assert_eq!(client_id, "phone-01");
            assert_eq!(timestamp, 1670000000000);
            assert_eq!(payload.session_id, "s-abc123");
            assert_eq!(payload.text, "안녕하세요. 오늘 회의는 오후 3시입니다.");
            assert!((f64::from_bits(payload.confidence_bits) - 0.93).abs() < f64::EPSILON);
        }
        _ => panic!("expected Final variant"),
    }
}

#[test]
fn test_parse_heartbeat() {
    let frame = obj(vec![("type", s("HEARTBEAT")), ("clientId", s("phone-01"))]);
    let msg = decode(&frame).unwrap();
    match msg {
        Message::Heartbeat { client_id } => {
            assert_eq!(client_id, "phone-01");
        }
        _ => panic!("expected Heartbeat variant"),
    }
}

#[test]
fn test_serialize_ack_roundtrip() {
    let msg = Message::Ack {
        client_id: "phone-01".to_string(),
        payload: AckPayload {
            ack_type: "HELLO".to_string(),
        },
    };
    let json = encode(&msg).unwrap();
    let parsed = decode(&json).unwrap();
    assert_eq!(msg, parsed);
}

#[test]
fn test_parse_invalid_type() {
    let frame = obj(vec![("type", s("UNKNOWN")), ("clientId", s("phone-01"))]);
    assert!(decode(&frame).is_err());
}

fn every_kind() -> Vec<Message> {
    vec![
        Message::Hello {
            client_id: "phone-01".to_string(),
            payload: HelloPayload {
                device_model: "Galaxy S23".to_string(),
                engine: "Google".to_string(),
                capabilities: vec!["WS".to_string(), "ÜTF-8 ✓".to_string()],
            },
        },
        Message::PttStart {
            client_id: "phone-01".to_string(),
            payload: PttStartPayload {
                session_id: "s-abc123".to_string(),
            },
        },
        Message::Partial {
            client_id: "phone-01".to_string(),
            timestamp: u64::MAX,
            payload: PartialPayload {
                session_id: "s-abc123".to_string(),
                seq: 7,
                text: "안녕하세요".to_string(),
                confidence_bits: 0.1234567890123f64.to_bits(),
            },
        },
        Message::Final {
            client_id: "phone-01".to_string(),
            timestamp: 0,
            payload: FinalPayload {
                session_id: "s-abc123".to_string(),
                text: "Hello world".to_string(),
                confidence_bits: 0.95f64.to_bits(),
            },
        },
        Message::Heartbeat {
            client_id: "".to_string(),
        },
        Message::Ack {
            client_id: "phone-01".to_string(),
            payload: AckPayload {
                ack_type: "FINAL".to_string(),
            },
        },
    ]
}

#[test]
fn every_kind_round_trips_exactly() {
    for m in every_kind() {
        assert_eq!(decode(&encode(&m).unwrap()), Ok(m.clone()));
    }
}

#[test]
fn encode_writes_the_wire_shape() {
    let m = Message::Final {
        client_id: "phone-01".to_string(),
        timestamp: 1670000000000,
        payload: FinalPayload {
            session_id: "s-abc123".to_string(),
            text: "Hello world".to_string(),
            confidence_bits: 0.95f64.to_bits(),
        },
    };
    let expected = obj(vec![
        ("type", s("FINAL")),
        ("clientId", s("phone-01")),
        ("timestamp", Json::Number { int: Some(1670000000000), bits: None }),
        (
            "payload",
            obj(vec![
                ("sessionId", s("s-abc123")),
                ("text", s("Hello world")),
                ("confidence", Json::Number { int: None, bits: Some(0.95f64.to_bits()) }),
            ]),
        ),
    ]);
    assert_eq!(encode(&m).unwrap(), expected);
}

#[test]
fn missing_or_mistyped_fields_are_rejected() {
    assert_eq!(decode(&Json::Null), Err(DecodeError));
    assert_eq!(decode(&Json::Array(vec![])), Err(DecodeError));
    // no clientId
    assert!(decode(&obj(vec![("type", s("HEARTBEAT"))])).is_err());
    // clientId of the wrong type
    assert!(decode(&obj(vec![("type", s("HEARTBEAT")), ("clientId", Json::Number { int: Some(1), bits: None })])).is_err());
    // HELLO without payload
    assert!(decode(&obj(vec![("type", s("HELLO")), ("clientId", s("a"))])).is_err());
    // capabilities holding a number
    let bad_caps = obj(vec![
        ("type", s("HELLO")),
        ("clientId", s("a")),
        (
            "payload",
            obj(vec![
                ("deviceModel", s("m")),
                ("engine", s("e")),
                ("capabilities", Json::Array(vec![s("WS"), Json::Number { int: Some(3), bits: None }])),
            ]),
        ),
    ]);
    assert!(decode(&bad_caps).is_err());
    // PARTIAL without timestamp
    let no_ts = obj(vec![
        ("type", s("PARTIAL")),
        ("clientId", s("a")),
        (
            "payload",
            obj(vec![
                ("sessionId", s("s")),
                ("seq", Json::Number { int: Some(1), bits: None }),
                ("text", s("t")),
                ("confidence", Json::Number { int: None, bits: Some(0.5f64.to_bits()) }),
            ]),
        ),
    ]);
    assert!(decode(&no_ts).is_err());
}

#[test]
fn unknown_members_are_ignored_and_first_member_wins() {
    let frame = obj(vec![
        ("type", s("HEARTBEAT")),
        ("clientId", s("first")),
        ("clientId", s("second")),
        ("extra", Json::Bool(true)),
    ]);
    assert_eq!(
        decode(&frame),
        Ok(Message::Heartbeat {
            client_id: "first".to_string()
        })
    );
}

fn parsed_number(n: u64) -> Json {
    Json::Number {
        int: Some(n),
        bits: Some((n as f64).to_bits()),
    }
}

#[test]
fn integer_confidence_is_accepted() {
    let frame = obj(vec![
        ("type", s("FINAL")),
        ("clientId", s("phone-01")),
        ("timestamp", parsed_number(1670000000000)),
        (
            "payload",
            obj(vec![
                ("sessionId", s("s-abc123")),
                ("text", s("Hello world")),
                ("confidence", parsed_number(1)),
            ]),
        ),
    ]);
    match decode(&frame).unwrap() {
        Message::Final { timestamp, payload, .. } => {
            assert_eq!(timestamp, 1670000000000);
            assert_eq!(f64::from_bits(payload.confidence_bits), 1.0);
        }
        _ => panic!("expected Final variant"),
    }
}

#[test]
fn fractional_timestamp_is_rejected() {
    let frame = obj(vec![
        ("type", s("FINAL")),
        ("clientId", s("phone-01")),
        (
            "timestamp",
            Json::Number {
                int: None,
                bits: Some(1.5f64.to_bits()),
            },
        ),
        (
            "payload",
            obj(vec![
                ("sessionId", s("s")),
                ("text", s("t")),
                ("confidence", parsed_number(0)),
            ]),
        ),
    ]);
    assert_eq!(decode(&frame), Err(DecodeError));
}

#[test]
fn non_finite_confidence_cannot_be_encoded() {
    for bits in [f64::NAN.to_bits(), f64::INFINITY.to_bits(), f64::NEG_INFINITY.to_bits()] {
        let m = Message::Partial {
            client_id: "p".to_string(),
            timestamp: 1,
            payload: PartialPayload {
                session_id: "s".to_string(),
                seq: 1,
                text: "t".to_string(),
                confidence_bits: bits,
            },
        };
        assert_eq!(encode(&m), Err(EncodeError));
    }
    let largest = Message::Final {
        client_id: "p".to_string(),
        timestamp: 1,
        payload: FinalPayload {
            session_id: "s".to_string(),
            text: "t".to_string(),
            confidence_bits: f64::MAX.to_bits(),
        },
    };
    assert!(encode(&largest).is_ok());
}

#[test]
fn ack_is_written_with_wire_names() {
    let msg = Message::Ack {
        client_id: "phone-01".to_string(),
        payload: AckPayload {
            ack_type: "HELLO".to_string(),
        },
    };
    let expected = obj(vec![
        ("type", s("ACK")),
        ("clientId", s("phone-01")),
        ("payload", obj(vec![("ackType", s("HELLO"))])),
    ]);
    assert_eq!(encode(&msg), Ok(expected));
}
