use ptt_relay::connection::{Connection, Reaction, ServerEvent};
use ptt_relay::injection::TextInjector;
use ptt_relay::protocol::{encode, AckPayload, Json, Message};
use ptt_relay::registry::ClientRegistry;
use ptt_relay::server::{carry_out, sweep_timed_out, EventEmitter};
use std::cell::RefCell;

struct RecordingEmitter {
    events: RefCell<Vec<ServerEvent>>,
}

impl EventEmitter for RecordingEmitter {
    fn emit(&self, event: ServerEvent) {
        self.events.borrow_mut().push(event);
    }
}

struct RecordingInjector {
    injected: RefCell<Vec<String>>,
    should_fail: bool,
}

impl TextInjector for RecordingInjector {
    fn inject(&self, text: &str) -> Result<(), String> {
        if self.should_fail {
            return Err("Mock injection failure".to_string());
        }
        self.injected.borrow_mut().push(text.to_string());
        Ok(())
    }
}

fn emitter() -> RecordingEmitter {
    RecordingEmitter {
        events: RefCell::new(Vec::new()),
    }
}

fn injector(should_fail: bool) -> RecordingInjector {
    RecordingInjector {
        injected: RefCell::new(Vec::new()),
        should_fail,
    }
}

fn s(v: &str) -> Json {
    Json::Str(v.to_string())
}

fn obj(members: Vec<(&str, Json)>) -> Json {
    Json::Object(members.into_iter().map(|(k, v)| (k.to_string(), v)).collect())
}

fn hello(id: &str, model: &str) -> Json {
    obj(vec![
        ("type", s("HELLO")),
        ("clientId", s(id)),
        (
            "payload",
            obj(vec![
                ("deviceModel", s(model)),
                ("engine", s("Google")),
                ("capabilities", Json::Array(vec![s("WS")])),
            ]),
        ),
    ])
}

fn final_frame(id: &str, text: &str) -> Json {
    obj(vec![
        ("type", s("FINAL")),
        ("clientId", s(id)),
        ("timestamp", Json::Number { int: Some(1670000000000), bits: None }),
        (
            "payload",
            obj(vec![
                ("sessionId", s("s-abc123")),
                ("text", s(text)),
                ("confidence", Json::Number { int: None, bits: Some(0.95f64.to_bits()) }),
            ]),
        ),
    ])
}

fn ptt_start(id: &str, session: &str) -> Json {
    obj(vec![
        ("type", s("PTT_START")),
        ("clientId", s(id)),
        ("payload", obj(vec![("sessionId", s(session))])),
    ])
}

fn ack(id: &str, kind: &str) -> Message {
    Message::Ack {
        client_id: id.to_string(),
        payload: AckPayload {
            ack_type: kind.to_string(),
        },
    }
}

fn run(
    conn: &mut Connection,
    reg: &mut ClientRegistry,
    frame: &Json,
    inj: &RecordingInjector,
    em: &RecordingEmitter,
) -> Option<Message> {
    let reaction = conn.handle_frame(frame, reg, 0);
    carry_out(reaction, inj, em)
}

#[test]
fn test_hello_ack_roundtrip() {
    let mut reg = ClientRegistry::new(30);
    let em = emitter();
    let inj = injector(false);
    let mut conn = Connection::new();

    let reply = run(&mut conn, &mut reg, &hello("phone-01", "Galaxy S23"), &inj, &em);
    match reply {
        Some(Message::Ack { payload, .. }) => assert_eq!(payload.ack_type, "HELLO"),
        _ => panic!("expected ACK message"),
    }
    assert_eq!(reg.connected_count(), 1);
    assert!(reg.get("phone-01").is_some());

    let evts = em.events.borrow();
    assert_eq!(evts.len(), 1);
    match &evts[0] {
        ServerEvent::ClientConnected {
            client_id,
            device_model,
        } => {
            assert_eq!(client_id, "phone-01");
            assert_eq!(device_model, "Galaxy S23");
        }
        other => panic!("expected ClientConnected, got {:?}", other),
    }
}

#[test]
fn test_final_triggers_injection() {
    let mut reg = ClientRegistry::new(30);
    let em = emitter();
    let inj = injector(false);
    let mut conn = Connection::new();

    let _ = run(&mut conn, &mut reg, &hello("phone-01", "Galaxy S23"), &inj, &em);
    let _ = run(&mut conn, &mut reg, &ptt_start("phone-01", "s-abc123"), &inj, &em);
    assert!(reg.get("phone-01").unwrap().current_session.is_some());

    let reply = run(&mut conn, &mut reg, &final_frame("phone-01", "Hello world"), &inj, &em);
    match reply {
        Some(Message::Ack { payload, .. }) => assert_eq!(payload.ack_type, "FINAL"),
        _ => panic!("expected ACK message"),
    }
    let texts = inj.injected.borrow();
    assert_eq!(texts.len(), 1);
    assert_eq!(texts[0], "Hello world");
    assert!(reg.get("phone-01").unwrap().current_session.is_none());
    assert!(reg.get("phone-01").unwrap().last_partial_text.is_none());
}

#[test]
fn failed_injection_still_acknowledges() {
    let mut reg = ClientRegistry::new(30);
    let em = emitter();
    let inj = injector(true);
    let mut conn = Connection::new();
    let _ = run(&mut conn, &mut reg, &hello("phone-01", "Galaxy S23"), &inj, &em);
    let reply = run(&mut conn, &mut reg, &final_frame("phone-01", "Hello world"), &inj, &em);
    assert_eq!(reply, Some(ack("phone-01", "FINAL")));
    assert!(inj.injected.borrow().is_empty());
    assert_eq!(em.events.borrow().len(), 2);
}

#[test]
fn bad_frame_between_good_ones_is_skipped() {
    let mut reg = ClientRegistry::new(30);
    let em = emitter();
    let inj = injector(false);
    let mut conn = Connection::new();
    let r1 = run(&mut conn, &mut reg, &hello("phone-01", "Galaxy S23"), &inj, &em);
    assert_eq!(r1, Some(ack("phone-01", "HELLO")));
    let bad = obj(vec![("type", s("UNKNOWN")), ("clientId", s("phone-01"))]);
    let r2 = run(&mut conn, &mut reg, &bad, &inj, &em);
    assert_eq!(r2, None);
    assert_eq!(em.events.borrow().len(), 1);
    let r3 = run(&mut conn, &mut reg, &final_frame("phone-01", "Hello world"), &inj, &em);
    assert_eq!(r3, Some(ack("phone-01", "FINAL")));
    assert_eq!(inj.injected.borrow().clone(), vec!["Hello world".to_string()]);
}

#[test]
fn reconnect_survives_close_of_stale_connection() {
    let mut reg = ClientRegistry::new(30);
    let mut first = Connection::new();
    let mut second = Connection::new();
    let _ = first.handle_frame(&hello("phone-01", "Galaxy S23"), &mut reg, 1);
    let _ = first.handle_frame(&ptt_start("phone-01", "s-1"), &mut reg, 2);
    let _ = second.handle_frame(&hello("phone-01", "Galaxy S24"), &mut reg, 3);
    assert!(reg.get("phone-01").unwrap().current_session.is_none());

    assert_eq!(first.close(&mut reg), None);
    let info = reg.get("phone-01").unwrap();
    assert_eq!(info.device_model, "Galaxy S24");
    assert_eq!(reg.connected_count(), 1);

    assert_eq!(
        second.close(&mut reg),
        Some(ServerEvent::ClientDisconnected {
            client_id: "phone-01".to_string()
        })
    );
    assert_eq!(reg.connected_count(), 0);
}

#[test]
fn close_without_greeting_does_nothing() {
    let mut reg = ClientRegistry::new(30);
    reg.register_at("other", "m", "e", 0);
    let mut conn = Connection::new();
    assert_eq!(conn.client_id(), None);
    assert_eq!(conn.close(&mut reg), None);
    assert_eq!(reg.connected_count(), 1);
}

#[test]
fn session_partial_and_heartbeat_update_the_record() {
    let mut reg = ClientRegistry::new(30);
    let mut conn = Connection::new();
    let _ = conn.handle_frame(&hello("p", "m"), &mut reg, 10);
    assert_eq!(conn.client_id().map(|c| c.as_str()), Some("p"));
    let r = conn.handle_frame(&ptt_start("p", "s-1"), &mut reg, 11);
    assert_eq!(
        r.event,
        Some(ServerEvent::PttStarted {
            client_id: "p".to_string(),
            session_id: "s-1".to_string()
        })
    );
    assert!(r.reply.is_none());
    let partial = Message::Partial {
        client_id: "p".to_string(),
        timestamp: 5,
        payload: ptt_relay::protocol::PartialPayload {
            session_id: "s-1".to_string(),
            seq: 3,
            text: "hel".to_string(),
            confidence_bits: 0.5f64.to_bits(),
        },
    };
    let r: Reaction = conn.handle_frame(&encode(&partial).unwrap(), &mut reg, 12);
    assert_eq!(
        r.event,
        Some(ServerEvent::PartialText {
            client_id: "p".to_string(),
            session_id: "s-1".to_string(),
            text: "hel".to_string(),
            seq: 3,
            confidence_bits: 0.5f64.to_bits()
        })
    );
    assert!(r.inject.is_none());
    let info = reg.get("p").unwrap();
    assert_eq!(info.current_session.as_deref(), Some("s-1"));
    assert_eq!(info.last_partial_text.as_deref(), Some("hel"));

    let hb = obj(vec![("type", s("HEARTBEAT")), ("clientId", s("p"))]);
    let r = conn.handle_frame(&hb, &mut reg, 99);
    assert!(r.event.is_none() && r.reply.is_none() && r.inject.is_none());
    assert_eq!(reg.get("p").unwrap().last_heartbeat, 99);

    let r = conn.handle_frame(&encode(&ack("p", "HELLO")).unwrap(), &mut reg, 100);
    assert!(r.event.is_none() && r.reply.is_none() && r.inject.is_none());
}

#[test]
fn sweep_removes_only_silent_clients() {
    let mut reg = ClientRegistry::new(10);
    reg.register_at("quiet", "m", "e", 0);
    reg.register_at("alive", "m", "e", 0);
    assert!(reg.heartbeat_at("alive", 9_000));
    let events = sweep_timed_out(&mut reg, 10_001);
    assert_eq!(
        events,
        vec![ServerEvent::ClientDisconnected {
            client_id: "quiet".to_string()
        }]
    );
    assert!(reg.get("quiet").is_none());
    assert!(reg.get("alive").is_some());
    assert!(sweep_timed_out(&mut reg, 10_001).is_empty());
}

#[test]
fn test_mock_injector_records_text() {
    let mock = injector(false);
    mock.inject("hello world").unwrap();
    mock.inject("second text").unwrap();

    let recorded = mock.injected.borrow();
    assert_eq!(recorded.len(), 2);
    assert_eq!(recorded[0], "hello world");
    assert_eq!(recorded[1], "second text");
}

#[test]
fn test_mock_injector_failure() {
    let mock = injector(true);
    let result = mock.inject("should fail");
    assert!(result.is_err());
    assert_eq!(result.unwrap_err(), "Mock injection failure");
}

#[test]
fn test_trait_object_dispatch() {
    let mock = injector(false);
    {
        let injector: &dyn TextInjector = &mock;
        injector.inject("via trait object").unwrap();
    }
    let recorded = mock.injected.borrow();
    assert_eq!(recorded.len(), 1);
    assert_eq!(recorded[0], "via trait object");
}

#[test]
fn partial_outside_a_session_is_not_recorded() {
    let mut reg = ClientRegistry::new(30);
    let mut conn = Connection::new();
    let _ = conn.handle_frame(&hello("p", "m"), &mut reg, 10);
    let partial = Message::Partial {
        client_id: "p".to_string(),
        timestamp: 5,
        payload: ptt_relay::protocol::PartialPayload {
            session_id: "s-1".to_string(),
            seq: 1,
            text: "stray".to_string(),
            confidence_bits: 0.5f64.to_bits(),
        },
    };
    let r = conn.handle_frame(&encode(&partial).unwrap(), &mut reg, 11);
    assert!(r.event.is_some());
    assert!(reg.get("p").unwrap().last_partial_text.is_none());
}
