//! The wire protocol: six tagged messages, and their mapping to and from a
//! JSON document tree.
use vstd::prelude::*;

verus! {

/// A JSON document. A number carries each form it is known in: its value
/// as an unsigned 64-bit integer, when it is one, and the IEEE-754 bit
/// pattern of its value as a double.
#[derive(Debug, PartialEq)]
pub enum Json {
    Null,
    Bool(bool),
    Number { int: Option<u64>, bits: Option<u64> },
    Str(String),
    Array(Vec<Json>),
    Object(Vec<(String, Json)>),
}

#[derive(Debug, Clone, PartialEq)]
pub struct HelloPayload {
    pub device_model: String,
    pub engine: String,
    pub capabilities: Vec<String>,
}

#[derive(Debug, Clone, PartialEq)]
pub struct PttStartPayload {
    pub session_id: String,
}

/// An incremental transcript; `confidence_bits` is the IEEE-754 bit pattern
/// of the confidence, so that it travels without rounding.
#[derive(Debug, Clone, PartialEq)]
pub struct PartialPayload {
    pub session_id: String,
    pub seq: u64,
    pub text: String,
    pub confidence_bits: u64,
}

/// A final transcript; `confidence_bits` as in `PartialPayload`.
#[derive(Debug, Clone, PartialEq)]
pub struct FinalPayload {
    pub session_id: String,
    pub text: String,
    pub confidence_bits: u64,
}

#[derive(Debug, Clone, PartialEq)]
pub struct AckPayload {
    pub ack_type: String,
}

#[derive(Debug, Clone, PartialEq)]
pub enum Message {
    Hello { client_id: String, payload: HelloPayload },
    PttStart { client_id: String, payload: PttStartPayload },
    Partial { client_id: String, timestamp: u64, payload: PartialPayload },
    Final { client_id: String, timestamp: u64, payload: FinalPayload },
    Heartbeat { client_id: String },
    Ack { client_id: String, payload: AckPayload },
}

/// A frame that is not one of the six messages.
#[derive(Debug, Clone, PartialEq)]
pub struct DecodeError;

/// A message holding a number that JSON cannot write (NaN or an infinity).
#[derive(Debug, Clone, PartialEq)]
pub struct EncodeError;

/// The mathematical model of a `Message`.
pub enum MessageModel {
    Hello {
        client_id: Seq<char>,
        device_model: Seq<char>,
        engine: Seq<char>,
        capabilities: Seq<Seq<char>>,
    },
    PttStart { client_id: Seq<char>, session_id: Seq<char> },
    Partial {
        client_id: Seq<char>,
        timestamp: u64,
        session_id: Seq<char>,
        seq: u64,
        text: Seq<char>,
        confidence_bits: u64,
    },
    Final {
        client_id: Seq<char>,
        timestamp: u64,
        session_id: Seq<char>,
        text: Seq<char>,
        confidence_bits: u64,
    },
    Heartbeat { client_id: Seq<char> },
    Ack { client_id: Seq<char>, ack_type: Seq<char> },
}

pub open spec fn texts_view(v: Seq<String>) -> Seq<Seq<char>> {
    v.map_values(|s: String| s@)
}

impl View for Message {
    type V = MessageModel;

    open spec fn view(&self) -> MessageModel {
        match self {
            Message::Hello { client_id, payload } => MessageModel::Hello {
                client_id: client_id@,
                device_model: payload.device_model@,
                engine: payload.engine@,
                capabilities: texts_view(payload.capabilities@),
            },
            Message::PttStart { client_id, payload } => MessageModel::PttStart {
                client_id: client_id@,
                session_id: payload.session_id@,
            },
            Message::Partial { client_id, timestamp, payload } => MessageModel::Partial {
                client_id: client_id@,
                timestamp: *timestamp,
                session_id: payload.session_id@,
                seq: payload.seq,
                text: payload.text@,
                confidence_bits: payload.confidence_bits,
            },
            Message::Final { client_id, timestamp, payload } => MessageModel::Final {
                client_id: client_id@,
                timestamp: *timestamp,
                session_id: payload.session_id@,
                text: payload.text@,
                confidence_bits: payload.confidence_bits,
            },
            Message::Heartbeat { client_id } => MessageModel::Heartbeat { client_id: client_id@ },
            Message::Ack { client_id, payload } => MessageModel::Ack {
                client_id: client_id@,
                ack_type: payload.ack_type@,
            },
        }
    }
}

/// `i` is the first position of `fs` whose name is `key`.
pub open spec fn is_first_key(fs: Seq<(String, Json)>, key: Seq<char>, i: int) -> bool {
    &&& 0 <= i < fs.len()
    &&& fs[i].0@ == key
    &&& forall|j: int| 0 <= j < i ==> fs[j].0@ != key
}

/// The value of the first member of an object named `key`, if any.
pub open spec fn member(fs: Seq<(String, Json)>, key: Seq<char>) -> Option<Json> {
    if exists|i: int| is_first_key(fs, key, i) {
        Some(fs[choose|i: int| is_first_key(fs, key, i)].1)
    } else {
        None
    }
}

pub open spec fn text_member(fs: Seq<(String, Json)>, key: Seq<char>) -> Option<Seq<char>> {
    match member(fs, key) {
        Some(Json::Str(s)) => Some(s@),
        _ => None,
    }
}

pub open spec fn uint_member(fs: Seq<(String, Json)>, key: Seq<char>) -> Option<u64> {
    match member(fs, key) {
        Some(Json::Number { int: Some(n), .. }) => Some(n),
        _ => None,
    }
}

pub open spec fn float_member(fs: Seq<(String, Json)>, key: Seq<char>) -> Option<u64> {
    match member(fs, key) {
        Some(Json::Number { bits: Some(b), .. }) => Some(b),
        _ => None,
    }
}

pub open spec fn object_member(fs: Seq<(String, Json)>, key: Seq<char>) -> Option<
    Seq<(String, Json)>,
> {
    match member(fs, key) {
        Some(Json::Object(o)) => Some(o@),
        _ => None,
    }
}

/// Every item is a string.
pub open spec fn all_texts(items: Seq<Json>) -> bool {
    forall|i: int| 0 <= i < items.len() ==> items[i] is Str
}

pub open spec fn texts_of(items: Seq<Json>) -> Seq<Seq<char>> {
    items.map_values(|j: Json| j->Str_0@)
}

pub open spec fn texts_member(fs: Seq<(String, Json)>, key: Seq<char>) -> Option<Seq<Seq<char>>> {
    match member(fs, key) {
        Some(Json::Array(a)) => if all_texts(a@) {
            Some(texts_of(a@))
        } else {
            None
        },
        _ => None,
    }
}

/// The message a payload object carries, given the tag and client id.
pub open spec fn decode_payload(
    tag: Seq<char>,
    client_id: Seq<char>,
    top: Seq<(String, Json)>,
) -> Option<MessageModel> {
    if tag == "HEARTBEAT"@ {
        Some(MessageModel::Heartbeat { client_id })
    } else {
        match object_member(top, "payload"@) {
            None => None,
            Some(p) => if tag == "HELLO"@ {
                match (
                    text_member(p, "deviceModel"@),
                    text_member(p, "engine"@),
                    texts_member(p, "capabilities"@),
                ) {
                    (Some(device_model), Some(engine), Some(capabilities)) => Some(
                        MessageModel::Hello { client_id, device_model, engine, capabilities },
                    ),
                    _ => None,
                }
            } else if tag == "PTT_START"@ {
                match text_member(p, "sessionId"@) {
                    Some(session_id) => Some(MessageModel::PttStart { client_id, session_id }),
                    None => None,
                }
            } else if tag == "PARTIAL"@ {
                match (
                    uint_member(top, "timestamp"@),
                    text_member(p, "sessionId"@),
                    uint_member(p, "seq"@),
                    text_member(p, "text"@),
                    float_member(p, "confidence"@),
                ) {
                    (
                        Some(timestamp),
                        Some(session_id),
                        Some(seq),
                        Some(text),
                        Some(confidence_bits),
                    ) => Some(
                        MessageModel::Partial {
                            client_id,
                            timestamp,
                            session_id,
                            seq,
                            text,
                            confidence_bits,
                        },
                    ),
                    _ => None,
                }
            } else if tag == "FINAL"@ {
                match (
                    uint_member(top, "timestamp"@),
                    text_member(p, "sessionId"@),
                    text_member(p, "text"@),
                    float_member(p, "confidence"@),
                ) {
                    (Some(timestamp), Some(session_id), Some(text), Some(confidence_bits)) => Some(
                        MessageModel::Final {
                            client_id,
                            timestamp,
                            session_id,
                            text,
                            confidence_bits,
                        },
                    ),
                    _ => None,
                }
            } else if tag == "ACK"@ {
                match text_member(p, "ackType"@) {
                    Some(ack_type) => Some(MessageModel::Ack { client_id, ack_type }),
                    None => None,
                }
            } else {
                None
            },
        }
    }
}

/// The message a JSON document is, if it is one: an object whose `type`
/// names one of the six kinds and that holds every field of that kind with
/// the right shape. Members it does not read are ignored.
pub open spec fn decode_spec(j: Json) -> Option<MessageModel> {
    match j {
        Json::Object(fs) => match (text_member(fs@, "type"@), text_member(fs@, "clientId"@)) {
            (Some(tag), Some(client_id)) => decode_payload(tag, client_id, fs@),
            _ => None,
        },
        _ => None,
    }
}

/// The bit pattern is that of a finite double: not all exponent bits set.
pub open spec fn finite_bits(bits: u64) -> bool {
    (bits >> 52u64) & 0x7ffu64 != 0x7ffu64
}

/// JSON can write the message: every confidence is finite.
pub open spec fn encodable(m: MessageModel) -> bool {
    match m {
        MessageModel::Partial { confidence_bits, .. } => finite_bits(confidence_bits),
        MessageModel::Final { confidence_bits, .. } => finite_bits(confidence_bits),
        _ => true,
    }
}

/// A member named `key` whose value is the string `t`.
pub open spec fn text_entry(e: (String, Json), key: Seq<char>, t: Seq<char>) -> bool {
    e.0@ == key && e.1 is Str && e.1->Str_0@ == t
}

/// A member named `key` whose value is the integer `n`.
pub open spec fn int_entry(e: (String, Json), key: Seq<char>, n: u64) -> bool {
    e.0@ == key && e.1 == (Json::Number { int: Some(n), bits: None })
}

/// A member named `key` whose value is the double with bit pattern `b`.
pub open spec fn double_entry(e: (String, Json), key: Seq<char>, b: u64) -> bool {
    e.0@ == key && e.1 == (Json::Number { int: None, bits: Some(b) })
}

/// A member named `key` whose value is an array of the strings `ts`.
pub open spec fn texts_entry(e: (String, Json), key: Seq<char>, ts: Seq<Seq<char>>) -> bool {
    e.0@ == key && e.1 is Array && all_texts(e.1->Array_0@) && texts_of(e.1->Array_0@) == ts
}

/// A member named `payload` whose value is an object with the members `p`.
pub open spec fn payload_entry(e: (String, Json), p: Seq<(String, Json)>) -> bool {
    e.0@ == "payload"@ && e.1 is Object && e.1->Object_0@ == p
}

/// The object's first members are `type` and `clientId`.
pub open spec fn head_entries(fs: Seq<(String, Json)>, tag: Seq<char>, client_id: Seq<char>) -> bool {
    fs.len() >= 2 && text_entry(fs[0], "type"@, tag) && text_entry(fs[1], "clientId"@, client_id)
}

/// The document is exactly the wire form of `m`: an object with `type`,
/// `clientId`, then `timestamp` where the kind has one, then `payload`
/// where the kind has one, holding the kind's fields in order.
pub open spec fn is_wire_form(j: Json, m: MessageModel) -> bool {
    j is Object && {
        let fs = j->Object_0@;
        match m {
            MessageModel::Hello { client_id, device_model, engine, capabilities } => {
                &&& fs.len() == 3
                &&& head_entries(fs, "HELLO"@, client_id)
                &&& fs[2].0@ == "payload"@ && fs[2].1 is Object
                &&& {
                    let p = fs[2].1->Object_0@;
                    &&& p.len() == 3
                    &&& text_entry(p[0], "deviceModel"@, device_model)
                    &&& text_entry(p[1], "engine"@, engine)
                    &&& texts_entry(p[2], "capabilities"@, capabilities)
                }
            },
            MessageModel::PttStart { client_id, session_id } => {
                &&& fs.len() == 3
                &&& head_entries(fs, "PTT_START"@, client_id)
                &&& fs[2].0@ == "payload"@ && fs[2].1 is Object
                &&& {
                    let p = fs[2].1->Object_0@;
                    p.len() == 1 && text_entry(p[0], "sessionId"@, session_id)
                }
            },
            MessageModel::Partial { client_id, timestamp, session_id, seq, text, confidence_bits } => {
                &&& fs.len() == 4
                &&& head_entries(fs, "PARTIAL"@, client_id)
                &&& int_entry(fs[2], "timestamp"@, timestamp)
                &&& fs[3].0@ == "payload"@ && fs[3].1 is Object
                &&& {
                    let p = fs[3].1->Object_0@;
                    &&& p.len() == 4
                    &&& text_entry(p[0], "sessionId"@, session_id)
                    &&& int_entry(p[1], "seq"@, seq)
                    &&& text_entry(p[2], "text"@, text)
                    &&& double_entry(p[3], "confidence"@, confidence_bits)
                }
            },
            MessageModel::Final { client_id, timestamp, session_id, text, confidence_bits } => {
                &&& fs.len() == 4
                &&& head_entries(fs, "FINAL"@, client_id)
                &&& int_entry(fs[2], "timestamp"@, timestamp)
                &&& fs[3].0@ == "payload"@ && fs[3].1 is Object
                &&& {
                    let p = fs[3].1->Object_0@;
                    &&& p.len() == 3
                    &&& text_entry(p[0], "sessionId"@, session_id)
                    &&& text_entry(p[1], "text"@, text)
                    &&& double_entry(p[2], "confidence"@, confidence_bits)
                }
            },
            MessageModel::Heartbeat { client_id } => fs.len() == 2 && head_entries(
                fs,
                "HEARTBEAT"@,
                client_id,
            ),
            MessageModel::Ack { client_id, ack_type } => {
                &&& fs.len() == 3
                &&& head_entries(fs, "ACK"@, client_id)
                &&& fs[2].0@ == "payload"@ && fs[2].1 is Object
                &&& {
                    let p = fs[2].1->Object_0@;
                    p.len() == 1 && text_entry(p[0], "ackType"@, ack_type)
                }
            },
        }
    }
}

proof fn lemma_first_key(fs: Seq<(String, Json)>, key: Seq<char>, i: int)
    requires
        is_first_key(fs, key, i),
    ensures
        member(fs, key) == Some(fs[i].1),
{
    let c = choose|c: int| is_first_key(fs, key, c);
    if c < i {
        assert(fs[c].0@ != key);
    } else if c > i {
        assert(fs[i].0@ != key);
    }
}

/// Whether `s` reads exactly `lit`.
fn text_is(s: &String, lit: &str) -> (r: bool)
    ensures
        r == (s@ == lit@),
{
    *s == lit.to_owned()
}

/// The value of the first member named `key`.
fn get_member<'a>(fs: &'a Vec<(String, Json)>, key: &str) -> (r: Option<&'a Json>)
    ensures
        match r {
            Some(v) => member(fs@, key@) == Some(*v),
            None => member(fs@, key@) is None,
        },
{
    let k = key.to_owned();
    let mut i: usize = 0;
    while i < fs.len()
        invariant
            i <= fs@.len(),
            k@ == key@,
            forall|j: int| 0 <= j < i ==> fs@[j].0@ != key@,
        decreases fs@.len() - i,
    {
        if fs[i].0 == k {
            proof {
                lemma_first_key(fs@, key@, i as int);
            }
            return Some(&fs[i].1);
        }
        i += 1;
    }
    None
}

fn get_text<'a>(fs: &'a Vec<(String, Json)>, key: &str) -> (r: Option<&'a String>)
    ensures
        match r {
            Some(s) => text_member(fs@, key@) == Some(s@),
            None => text_member(fs@, key@) is None,
        },
{
    match get_member(fs, key) {
        Some(Json::Str(s)) => Some(s),
        _ => None,
    }
}

fn get_uint(fs: &Vec<(String, Json)>, key: &str) -> (r: Option<u64>)
    ensures
        r == uint_member(fs@, key@),
{
    match get_member(fs, key) {
        Some(Json::Number { int: Some(n), .. }) => Some(*n),
        _ => None,
    }
}

fn get_float(fs: &Vec<(String, Json)>, key: &str) -> (r: Option<u64>)
    ensures
        r == float_member(fs@, key@),
{
    match get_member(fs, key) {
        Some(Json::Number { bits: Some(b), .. }) => Some(*b),
        _ => None,
    }
}

fn get_object<'a>(fs: &'a Vec<(String, Json)>, key: &str) -> (r: Option<&'a Vec<(String, Json)>>)
    ensures
        match r {
            Some(o) => object_member(fs@, key@) == Some(o@),
            None => object_member(fs@, key@) is None,
        },
{
    match get_member(fs, key) {
        Some(Json::Object(o)) => Some(o),
        _ => None,
    }
}

fn get_texts(fs: &Vec<(String, Json)>, key: &str) -> (r: Option<Vec<String>>)
    ensures
        match r {
            Some(v) => texts_member(fs@, key@) == Some(texts_view(v@)),
            None => texts_member(fs@, key@) is None,
        },
{
    let items = match get_member(fs, key) {
        Some(Json::Array(a)) => a,
        _ => return None,
    };
    assert(member(fs@, key@) == Some(Json::Array(*items)));
    let mut out: Vec<String> = Vec::new();
    let mut i: usize = 0;
    while i < items.len()
        invariant
            i <= items@.len(),
            member(fs@, key@) == Some(Json::Array(*items)),
            all_texts(items@.take(i as int)),
            texts_view(out@) == texts_of(items@.take(i as int)),
        decreases items@.len() - i,
    {
        match &items[i] {
            Json::Str(t) => {
                let ghost before = out@;
                out.push(t.clone());
                assert(items@.take(i + 1) =~= items@.take(i as int).push(items@[i as int]));
                assert(texts_view(out@) =~= texts_view(before).push(t@));
            },
            _ => {
                assert(items@[i as int] !is Str);
                assert(!all_texts(items@));
                return None;
            },
        }
        i += 1;
    }
    assert(items@.take(i as int) =~= items@);
    Some(out)
}

/// Reads a message out of a JSON document.
pub fn decode(frame: &Json) -> (r: Result<Message, DecodeError>)
    ensures
        match r {
            Ok(m) => decode_spec(*frame) == Some(m@),
            Err(_) => decode_spec(*frame) is None,
        },
{
    let fs = match frame {
        Json::Object(fs) => fs,
        _ => return Err(DecodeError),
    };
    let tag = match get_text(fs, "type") {
        Some(t) => t,
        None => return Err(DecodeError),
    };
    let client_id = match get_text(fs, "clientId") {
        Some(c) => c.clone(),
        None => return Err(DecodeError),
    };
    if text_is(tag, "HEARTBEAT") {
        return Ok(Message::Heartbeat { client_id });
    }
    let p = match get_object(fs, "payload") {
        Some(p) => p,
        None => return Err(DecodeError),
    };
    if text_is(tag, "HELLO") {
        let device_model = match get_text(p, "deviceModel") {
            Some(d) => d.clone(),
            None => return Err(DecodeError),
        };
        let engine = match get_text(p, "engine") {
            Some(e) => e.clone(),
            None => return Err(DecodeError),
        };
        let capabilities = match get_texts(p, "capabilities") {
            Some(c) => c,
            None => return Err(DecodeError),
        };
        Ok(Message::Hello { client_id, payload: HelloPayload { device_model, engine, capabilities } })
    } else if text_is(tag, "PTT_START") {
        match get_text(p, "sessionId") {
            Some(sid) => Ok(
                Message::PttStart { client_id, payload: PttStartPayload { session_id: sid.clone() } },
            ),
            None => Err(DecodeError),
        }
    } else if text_is(tag, "PARTIAL") {
        match (
            get_uint(fs, "timestamp"),
            get_text(p, "sessionId"),
            get_uint(p, "seq"),
            get_text(p, "text"),
            get_float(p, "confidence"),
        ) {
            (Some(timestamp), Some(sid), Some(seq), Some(text), Some(confidence_bits)) => Ok(
                Message::Partial {
                    client_id,
                    timestamp,
                    payload: PartialPayload {
                        session_id: sid.clone(),
                        seq,
                        text: text.clone(),
                        confidence_bits,
                    },
                },
            ),
            _ => Err(DecodeError),
        }
    } else if text_is(tag, "FINAL") {
        match (
            get_uint(fs, "timestamp"),
            get_text(p, "sessionId"),
            get_text(p, "text"),
            get_float(p, "confidence"),
        ) {
            (Some(timestamp), Some(sid), Some(text), Some(confidence_bits)) => Ok(
                Message::Final {
                    client_id,
                    timestamp,
                    payload: FinalPayload {
                        session_id: sid.clone(),
                        text: text.clone(),
                        confidence_bits,
                    },
                },
            ),
            _ => Err(DecodeError),
        }
    } else if text_is(tag, "ACK") {
        match get_text(p, "ackType") {
            Some(a) => Ok(Message::Ack { client_id, payload: AckPayload { ack_type: a.clone() } }),
            None => Err(DecodeError),
        }
    } else {
        Err(DecodeError)
    }
}

fn entry(key: &str, value: Json) -> (r: (String, Json))
    ensures
        r.0@ == key@,
        r.1 == value,
{
    (key.to_owned(), value)
}

fn text(s: &String) -> (r: Json)
    ensures
        r == Json::Str(*s),
{
    Json::Str(s.clone())
}

fn int_json(n: u64) -> (r: Json)
    ensures
        r == (Json::Number { int: Some(n), bits: None }),
{
    Json::Number { int: Some(n), bits: None }
}

fn double_json(bits: u64) -> (r: Json)
    ensures
        r == (Json::Number { int: None, bits: Some(bits) }),
{
    Json::Number { int: None, bits: Some(bits) }
}

fn texts_json(v: &Vec<String>) -> (r: Vec<Json>)
    ensures
        all_texts(r@),
        texts_of(r@) == texts_view(v@),
{
    let mut out: Vec<Json> = Vec::new();
    let mut i: usize = 0;
    while i < v.len()
        invariant
            i <= v@.len(),
            all_texts(out@),
            texts_of(out@) == texts_view(v@.take(i as int)),
        decreases v@.len() - i,
    {
        let ghost before = out@;
        out.push(Json::Str(v[i].clone()));
        assert(texts_of(out@) =~= texts_of(before).push(v@[i as int]@));
        assert(texts_view(v@.take(i + 1)) =~= texts_view(v@.take(i as int)).push(v@[i as int]@));
        i += 1;
    }
    assert(v@.take(i as int) =~= v@);
    out
}

/// The lengths of the wire names, and the differences between names of
/// equal length that decoding tells apart.
proof fn lemma_wire_names()
    ensures
        "type"@.len() == 4,
        "clientId"@.len() == 8,
        "payload"@.len() == 7,
        "timestamp"@.len() == 9,
        "deviceModel"@.len() == 11,
        "engine"@.len() == 6,
        "capabilities"@.len() == 12,
        "sessionId"@.len() == 9,
        "seq"@.len() == 3,
        "text"@.len() == 4,
        "confidence"@.len() == 10,
        "ackType"@.len() == 7,
        "HELLO"@.len() == 5,
        "PTT_START"@.len() == 9,
        "PARTIAL"@.len() == 7,
        "FINAL"@.len() == 5,
        "HEARTBEAT"@.len() == 9,
        "ACK"@.len() == 3,
        "type"@ != "text"@,
        "payload"@ != "ackType"@,
        "timestamp"@ != "sessionId"@,
        "HELLO"@ != "FINAL"@,
        "PTT_START"@ != "HEARTBEAT"@,
{
    reveal_strlit("type");
    reveal_strlit("clientId");
    reveal_strlit("payload");
    reveal_strlit("timestamp");
    reveal_strlit("deviceModel");
    reveal_strlit("engine");
    reveal_strlit("capabilities");
    reveal_strlit("sessionId");
    reveal_strlit("seq");
    reveal_strlit("text");
    reveal_strlit("confidence");
    reveal_strlit("ackType");
    reveal_strlit("HELLO");
    reveal_strlit("PTT_START");
    reveal_strlit("PARTIAL");
    reveal_strlit("FINAL");
    reveal_strlit("HEARTBEAT");
    reveal_strlit("ACK");
    assert("type"@[1] != "text"@[1]);
    assert("payload"@[0] != "ackType"@[0]);
    assert("timestamp"@[0] != "sessionId"@[0]);
    assert("HELLO"@[0] != "FINAL"@[0]);
    assert("PTT_START"@[0] != "HEARTBEAT"@[0]);
}

/// Writes a message as its JSON wire form; reading it back gives the same
/// message. Fails exactly when a confidence is not finite.
pub fn encode(m: &Message) -> (r: Result<Json, EncodeError>)
    ensures
        match r {
            Ok(j) => encodable(m@) && is_wire_form(j, m@) && decode_spec(j) == Some(m@),
            Err(_) => !encodable(m@),
        },
{
    proof {
        lemma_wire_names();
    }
    let confidence = match m {
        Message::Partial { payload, .. } => Some(payload.confidence_bits),
        Message::Final { payload, .. } => Some(payload.confidence_bits),
        _ => None,
    };
    match confidence {
        Some(bits) => {
            if (bits >> 52u64) & 0x7ffu64 == 0x7ffu64 {
                return Err(EncodeError);
            }
        },
        None => {},
    }
    let j = match m {
        Message::Hello { client_id, payload } => {
            let p = vec![
                entry("deviceModel", text(&payload.device_model)),
                entry("engine", text(&payload.engine)),
                entry("capabilities", Json::Array(texts_json(&payload.capabilities))),
            ];
            let fs = vec![
                entry("type", Json::Str("HELLO".to_owned())),
                entry("clientId", text(client_id)),
                entry("payload", Json::Object(p)),
            ];
            proof {
                lemma_first_key(fs@, "type"@, 0);
                lemma_first_key(fs@, "clientId"@, 1);
                lemma_first_key(fs@, "payload"@, 2);
                lemma_first_key(p@, "deviceModel"@, 0);
                lemma_first_key(p@, "engine"@, 1);
                lemma_first_key(p@, "capabilities"@, 2);
            }
            Json::Object(fs)
        },
        Message::PttStart { client_id, payload } => {
            let p = vec![entry("sessionId", text(&payload.session_id))];
            let fs = vec![
                entry("type", Json::Str("PTT_START".to_owned())),
                entry("clientId", text(client_id)),
                entry("payload", Json::Object(p)),
            ];
            proof {
                lemma_first_key(fs@, "type"@, 0);
                lemma_first_key(fs@, "clientId"@, 1);
                lemma_first_key(fs@, "payload"@, 2);
                lemma_first_key(p@, "sessionId"@, 0);
            }
            Json::Object(fs)
        },
        Message::Partial { client_id, timestamp, payload } => {
            let p = vec![
                entry("sessionId", text(&payload.session_id)),
                entry("seq", int_json(payload.seq)),
                entry("text", text(&payload.text)),
                entry("confidence", double_json(payload.confidence_bits)),
            ];
            let fs = vec![
                entry("type", Json::Str("PARTIAL".to_owned())),
                entry("clientId", text(client_id)),
                entry("timestamp", int_json(*timestamp)),
                entry("payload", Json::Object(p)),
            ];
            proof {
                lemma_first_key(fs@, "type"@, 0);
                lemma_first_key(fs@, "clientId"@, 1);
                lemma_first_key(fs@, "timestamp"@, 2);
                lemma_first_key(fs@, "payload"@, 3);
                lemma_first_key(p@, "sessionId"@, 0);
                lemma_first_key(p@, "seq"@, 1);
                lemma_first_key(p@, "text"@, 2);
                lemma_first_key(p@, "confidence"@, 3);
            }
            Json::Object(fs)
        },
        Message::Final { client_id, timestamp, payload } => {
            let p = vec![
                entry("sessionId", text(&payload.session_id)),
                entry("text", text(&payload.text)),
                entry("confidence", double_json(payload.confidence_bits)),
            ];
            let fs = vec![
                entry("type", Json::Str("FINAL".to_owned())),
                entry("clientId", text(client_id)),
                entry("timestamp", int_json(*timestamp)),
                entry("payload", Json::Object(p)),
            ];
            proof {
                lemma_first_key(fs@, "type"@, 0);
                lemma_first_key(fs@, "clientId"@, 1);
                lemma_first_key(fs@, "timestamp"@, 2);
                lemma_first_key(fs@, "payload"@, 3);
                lemma_first_key(p@, "sessionId"@, 0);
                lemma_first_key(p@, "text"@, 1);
                lemma_first_key(p@, "confidence"@, 2);
            }
            Json::Object(fs)
        },
        Message::Heartbeat { client_id } => {
            let fs = vec![
                entry("type", Json::Str("HEARTBEAT".to_owned())),
                entry("clientId", text(client_id)),
            ];
            proof {
                lemma_first_key(fs@, "type"@, 0);
                lemma_first_key(fs@, "clientId"@, 1);
            }
            Json::Object(fs)
        },
        Message::Ack { client_id, payload } => {
            let p = vec![entry("ackType", text(&payload.ack_type))];
            let fs = vec![
                entry("type", Json::Str("ACK".to_owned())),
                entry("clientId", text(client_id)),
                entry("payload", Json::Object(p)),
            ];
            proof {
                lemma_first_key(fs@, "type"@, 0);
                lemma_first_key(fs@, "clientId"@, 1);
                lemma_first_key(fs@, "payload"@, 2);
                lemma_first_key(p@, "ackType"@, 0);
            }
            Json::Object(fs)
        },
    };
    Ok(j)
}

} // verus!
