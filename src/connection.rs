//! The per-connection state machine: what each inbound message does to the
//! registry, which event it raises, what is handed to the text injector and
//! what is sent back.
use crate::protocol::{decode, decode_spec, AckPayload, Json, Message, MessageModel};
use crate::registry::{
    heartbeaten, partial_text_set, registered, removed_if_current, session_set, ClientRegistry,
};
use vstd::prelude::*;

verus! {

/// What the event sink is told.
#[derive(Debug, Clone, PartialEq)]
pub enum ServerEvent {
    ClientConnected { client_id: String, device_model: String },
    ClientDisconnected { client_id: String },
    PartialText {
        client_id: String,
        session_id: String,
        text: String,
        seq: u64,
        confidence_bits: u64,
    },
    FinalText { client_id: String, session_id: String, text: String, confidence_bits: u64 },
    PttStarted { client_id: String, session_id: String },
}

/// The mathematical model of a `ServerEvent`.
pub enum EventModel {
    ClientConnected { client_id: Seq<char>, device_model: Seq<char> },
    ClientDisconnected { client_id: Seq<char> },
    PartialText {
        client_id: Seq<char>,
        session_id: Seq<char>,
        text: Seq<char>,
        seq: u64,
        confidence_bits: u64,
    },
    FinalText {
        client_id: Seq<char>,
        session_id: Seq<char>,
        text: Seq<char>,
        confidence_bits: u64,
    },
    PttStarted { client_id: Seq<char>, session_id: Seq<char> },
}

impl View for ServerEvent {
    type V = EventModel;

    open spec fn view(&self) -> EventModel {
        match self {
            ServerEvent::ClientConnected { client_id, device_model } => EventModel::ClientConnected {
                client_id: client_id@,
                device_model: device_model@,
            },
            ServerEvent::ClientDisconnected { client_id } => EventModel::ClientDisconnected {
                client_id: client_id@,
            },
            ServerEvent::PartialText { client_id, session_id, text, seq, confidence_bits } =>
                EventModel::PartialText {
                client_id: client_id@,
                session_id: session_id@,
                text: text@,
                seq: *seq,
                confidence_bits: *confidence_bits,
            },
            ServerEvent::FinalText { client_id, session_id, text, confidence_bits } =>
                EventModel::FinalText {
                client_id: client_id@,
                session_id: session_id@,
                text: text@,
                confidence_bits: *confidence_bits,
            },
            ServerEvent::PttStarted { client_id, session_id } => EventModel::PttStarted {
                client_id: client_id@,
                session_id: session_id@,
            },
        }
    }
}

/// Handles on the outside world that one inbound message calls for, to be
/// carried out in this order: the text to inject, the event to emit, the
/// reply to send.
#[derive(Debug)]
pub struct Reaction {
    pub inject: Option<String>,
    pub event: Option<ServerEvent>,
    pub reply: Option<Message>,
}

/// The mathematical model of a `Reaction`.
pub struct ReactionModel {
    pub inject: Option<Seq<char>>,
    pub event: Option<EventModel>,
    pub reply: Option<MessageModel>,
}

impl View for Reaction {
    type V = ReactionModel;

    open spec fn view(&self) -> ReactionModel {
        ReactionModel {
            inject: match self.inject {
                Some(t) => Some(t@),
                None => None,
            },
            event: match self.event {
                Some(e) => Some(e@),
                None => None,
            },
            reply: match self.reply {
                Some(m) => Some(m@),
                None => None,
            },
        }
    }
}

impl ReactionModel {
    pub open spec fn nothing() -> ReactionModel {
        ReactionModel { inject: None, event: None, reply: None }
    }
}

/// The client id this connection greeted as, and the generation of the
/// registration that greeting made.
pub struct Binding {
    pub client_id: String,
    pub generation: u64,
}

/// One connection's state: unbound until its first greeting.
pub struct Connection {
    bound: Option<Binding>,
}

impl View for Connection {
    type V = Option<(Seq<char>, u64)>;

    closed spec fn view(&self) -> Option<(Seq<char>, u64)> {
        match self.bound {
            Some(b) => Some((b.client_id@, b.generation)),
            None => None,
        }
    }
}

/// The registry table after `msg` arrives at time `now`, where `generation`
/// is the one the next registration carries. A transcript fragment is kept
/// only while its client has an active session.
pub open spec fn table_after(
    m: Map<Seq<char>, crate::registry::ClientRecord>,
    generation: u64,
    msg: MessageModel,
    now: u64,
) -> Map<Seq<char>, crate::registry::ClientRecord> {
    match msg {
        MessageModel::Hello { client_id, device_model, engine, .. } => registered(
            m,
            client_id,
            device_model,
            engine,
            now,
            generation,
        ),
        MessageModel::PttStart { client_id, session_id } => partial_text_set(
            session_set(m, client_id, Some(session_id)),
            client_id,
            None,
        ),
        MessageModel::Partial { client_id, text, .. } => if m.contains_key(client_id)
            && m[client_id].current_session is Some {
            partial_text_set(m, client_id, Some(text))
        } else {
            m
        },
        MessageModel::Final { client_id, .. } => partial_text_set(
            session_set(m, client_id, None),
            client_id,
            None,
        ),
        MessageModel::Heartbeat { client_id } => heartbeaten(m, client_id, now),
        MessageModel::Ack { .. } => m,
    }
}

/// The connection's binding after `msg`: a greeting binds it to the new
/// registration, every other message leaves it as it was.
pub open spec fn binding_after(
    b: Option<(Seq<char>, u64)>,
    generation: u64,
    msg: MessageModel,
) -> Option<(Seq<char>, u64)> {
    match msg {
        MessageModel::Hello { client_id, .. } => Some((client_id, generation)),
        _ => b,
    }
}

/// What `msg` calls for: an event for every kind but heartbeats and
/// acknowledgments, the text of a final transcript to inject, and an
/// acknowledgment of greetings and final transcripts.
pub open spec fn reaction_to(msg: MessageModel) -> ReactionModel {
    match msg {
        MessageModel::Hello { client_id, device_model, .. } => ReactionModel {
            inject: None,
            event: Some(EventModel::ClientConnected { client_id, device_model }),
            reply: Some(MessageModel::Ack { client_id, ack_type: "HELLO"@ }),
        },
        MessageModel::PttStart { client_id, session_id } => ReactionModel {
            inject: None,
            event: Some(EventModel::PttStarted { client_id, session_id }),
            reply: None,
        },
        MessageModel::Partial { client_id, session_id, text, seq, confidence_bits, .. } =>
            ReactionModel {
            inject: None,
            event: Some(EventModel::PartialText { client_id, session_id, text, seq, confidence_bits }),
            reply: None,
        },
        MessageModel::Final { client_id, session_id, text, confidence_bits, .. } => ReactionModel {
            inject: Some(text),
            event: Some(EventModel::FinalText { client_id, session_id, text, confidence_bits }),
            reply: Some(MessageModel::Ack { client_id, ack_type: "FINAL"@ }),
        },
        MessageModel::Heartbeat { .. } => ReactionModel::nothing(),
        MessageModel::Ack { .. } => ReactionModel::nothing(),
    }
}

/// The generation the registry will hand out after `msg`.
pub open spec fn generation_after(generation: u64, msg: MessageModel) -> u64 {
    match msg {
        MessageModel::Hello { .. } => if generation < u64::MAX {
            (generation + 1) as u64
        } else {
            0
        },
        _ => generation,
    }
}

/// What one connection's handling reads and changes: the registry's table,
/// the generation its next registration carries, and the connection's binding.
pub struct ConnectionState {
    pub table: Map<Seq<char>, crate::registry::ClientRecord>,
    pub next_generation: u64,
    pub binding: Option<(Seq<char>, u64)>,
}

/// The state after one inbound frame at time `now`, and what it calls for.
pub open spec fn after_frame(s: ConnectionState, frame: Json, now: u64) -> (
    ConnectionState,
    ReactionModel,
) {
    match decode_spec(frame) {
        Some(msg) => (
            ConnectionState {
                table: table_after(s.table, s.next_generation, msg, now),
                next_generation: generation_after(s.next_generation, msg),
                binding: binding_after(s.binding, s.next_generation, msg),
            },
            reaction_to(msg),
        ),
        None => (s, ReactionModel::nothing()),
    }
}

impl Connection {
    /// A connection that has not greeted yet.
    pub fn new() -> (r: Connection)
        ensures
            r@ is None,
    {
        Connection { bound: None }
    }

    /// The client id this connection greeted as, if it has.
    pub fn client_id(&self) -> (r: Option<&String>)
        ensures
            match r {
                Some(id) => self@ is Some && self@->Some_0.0 == id@,
                None => self@ is None,
            },
    {
        match &self.bound {
            Some(b) => Some(&b.client_id),
            None => None,
        }
    }

    /// Handles one decoded inbound message at time `now`.
    pub fn handle_message(&mut self, message: Message, registry: &mut ClientRegistry, now: u64) -> (r:
        Reaction)
        requires
            old(registry).wf(),
        ensures
            final(registry).wf(),
            final(registry).timeout() == old(registry).timeout(),
            final(registry)@ == table_after(
                old(registry)@,
                old(registry).next_generation(),
                message@,
                now,
            ),
            final(registry).next_generation() == generation_after(
                old(registry).next_generation(),
                message@,
            ),
            final(self)@ == binding_after(old(self)@, old(registry).next_generation(), message@),
            r@ == reaction_to(message@),
    {
        match message {
            Message::Hello { client_id, payload } => {
                let generation = registry.register_at(
                    client_id.as_str(),
                    payload.device_model.as_str(),
                    payload.engine.as_str(),
                    now,
                );
                self.bound = Some(Binding { client_id: client_id.clone(), generation });
                let reply = Message::Ack {
                    client_id: client_id.clone(),
                    payload: AckPayload { ack_type: "HELLO".to_owned() },
                };
                Reaction {
                    inject: None,
                    event: Some(
                        ServerEvent::ClientConnected { client_id, device_model: payload.device_model },
                    ),
                    reply: Some(reply),
                }
            },
            Message::PttStart { client_id, payload } => {
                registry.set_session(client_id.as_str(), Some(payload.session_id.clone()));
                registry.set_partial_text(client_id.as_str(), None);
                Reaction {
                    inject: None,
                    event: Some(
                        ServerEvent::PttStarted { client_id, session_id: payload.session_id },
                    ),
                    reply: None,
                }
            },
            Message::Partial { client_id, payload, .. } => {
                let in_session = match registry.get(client_id.as_str()) {
                    Some(info) => info.current_session.is_some(),
                    None => false,
                };
                if in_session {
                    registry.set_partial_text(client_id.as_str(), Some(payload.text.clone()));
                }
                Reaction {
                    inject: None,
                    event: Some(
                        ServerEvent::PartialText {
                            client_id,
                            session_id: payload.session_id,
                            text: payload.text,
                            seq: payload.seq,
                            confidence_bits: payload.confidence_bits,
                        },
                    ),
                    reply: None,
                }
            },
            Message::Final { client_id, payload, .. } => {
                registry.set_session(client_id.as_str(), None);
                registry.set_partial_text(client_id.as_str(), None);
                let reply = Message::Ack {
                    client_id: client_id.clone(),
                    payload: AckPayload { ack_type: "FINAL".to_owned() },
                };
                Reaction {
                    inject: Some(payload.text.clone()),
                    event: Some(
                        ServerEvent::FinalText {
                            client_id,
                            session_id: payload.session_id,
                            text: payload.text,
                            confidence_bits: payload.confidence_bits,
                        },
                    ),
                    reply: Some(reply),
                }
            },
            Message::Heartbeat { client_id } => {
                registry.heartbeat_at(client_id.as_str(), now);
                Reaction { inject: None, event: None, reply: None }
            },
            Message::Ack { .. } => Reaction { inject: None, event: None, reply: None },
        }
    }

    /// Handles one inbound frame at time `now`. A frame that is not a
    /// message changes nothing and calls for nothing; the connection goes on.
    pub fn handle_frame(&mut self, frame: &Json, registry: &mut ClientRegistry, now: u64) -> (r:
        Reaction)
        requires
            old(registry).wf(),
        ensures
            final(registry).wf(),
            final(registry).timeout() == old(registry).timeout(),
            (
                ConnectionState {
                    table: final(registry)@,
                    next_generation: final(registry).next_generation(),
                    binding: final(self)@,
                },
                r@,
            ) == after_frame(
                ConnectionState {
                    table: old(registry)@,
                    next_generation: old(registry).next_generation(),
                    binding: old(self)@,
                },
                *frame,
                now,
            ),
    {
        match decode(frame) {
            Ok(message) => self.handle_message(message, registry, now),
            Err(_) => Reaction { inject: None, event: None, reply: None },
        }
    }

    /// Cleans up when the connection ends. If it greeted, and the record of
    /// that greeting is still the current one under its id, the record is
    /// removed and a disconnection event is returned; a record that a later
    /// greeting replaced stays. The connection is unbound afterwards.
    pub fn close(&mut self, registry: &mut ClientRegistry) -> (r: Option<ServerEvent>)
        requires
            old(registry).wf(),
        ensures
            final(registry).wf(),
            final(registry).timeout() == old(registry).timeout(),
            final(registry).next_generation() == old(registry).next_generation(),
            final(self)@ is None,
            match old(self)@ {
                None => final(registry)@ == old(registry)@ && r is None,
                Some((id, generation)) => {
                    &&& final(registry)@ == removed_if_current(old(registry)@, id, generation)
                    &&& match r {
                        Some(e) => e@ == (EventModel::ClientDisconnected { client_id: id })
                            && old(registry)@.contains_key(id) && old(registry)@[id].generation
                            == generation,
                        None => !(old(registry)@.contains_key(id) && old(registry)@[id].generation
                            == generation),
                    }
                },
            },
    {
        match self.bound.take() {
            None => None,
            Some(b) => match registry.unregister_if_current(b.client_id.as_str(), b.generation) {
                Some(_) => Some(ServerEvent::ClientDisconnected { client_id: b.client_id }),
                None => None,
            },
        }
    }
}

/// The state after a run of frames, the one at position `i` arriving at
/// time `nows[i]`, and what each frame calls for, in order.
pub open spec fn after_frames(s: ConnectionState, frames: Seq<Json>, nows: Seq<u64>) -> (
    ConnectionState,
    Seq<ReactionModel>,
)
    decreases frames.len(),
{
    if frames.len() == 0 || nows.len() == 0 {
        (s, Seq::empty())
    } else {
        let first = after_frame(s, frames[0], nows[0]);
        let rest = after_frames(first.0, frames.drop_first(), nows.drop_first());
        (rest.0, seq![first.1] + rest.1)
    }
}

proof fn lemma_after_frames_len(s: ConnectionState, frames: Seq<Json>, nows: Seq<u64>)
    requires
        frames.len() == nows.len(),
    ensures
        after_frames(s, frames, nows).1.len() == frames.len(),
    decreases frames.len(),
{
    if frames.len() > 0 {
        let first = after_frame(s, frames[0], nows[0]);
        lemma_after_frames_len(first.0, frames.drop_first(), nows.drop_first());
    }
}

/// A frame that is not a message, put anywhere in a run of frames, changes
/// nothing and calls for nothing: the run ends in the same state, and every
/// other frame calls for what it called for without it.
pub proof fn lemma_bad_frame_skipped(
    start: ConnectionState,
    frames: Seq<Json>,
    nows: Seq<u64>,
    k: int,
    bad: Json,
    now: u64,
)
    requires
        decode_spec(bad) is None,
        frames.len() == nows.len(),
        0 <= k <= frames.len(),
    ensures
        ({
            let without = after_frames(start, frames, nows);
            let with = after_frames(start, frames.insert(k, bad), nows.insert(k, now));
            &&& with.0 == without.0
            &&& with.1 == without.1.insert(k, ReactionModel::nothing())
        }),
    decreases k,
{
    let fs = frames.insert(k, bad);
    let ns = nows.insert(k, now);
    let without = after_frames(start, frames, nows);
    if k == 0 {
        assert(fs.drop_first() =~= frames);
        assert(ns.drop_first() =~= nows);
        assert(seq![ReactionModel::nothing()] + without.1 =~= without.1.insert(
            0,
            ReactionModel::nothing(),
        ));
    } else {
        let first = after_frame(start, frames[0], nows[0]);
        lemma_bad_frame_skipped(first.0, frames.drop_first(), nows.drop_first(), k - 1, bad, now);
        assert(fs.drop_first() =~= frames.drop_first().insert(k - 1, bad));
        assert(ns.drop_first() =~= nows.drop_first().insert(k - 1, now));
        assert(fs[0] == frames[0]);
        assert(ns[0] == nows[0]);
        let rest = after_frames(first.0, frames.drop_first(), nows.drop_first());
        lemma_after_frames_len(first.0, frames.drop_first(), nows.drop_first());
        assert(seq![first.1] + rest.1.insert(k - 1, ReactionModel::nothing()) =~= (seq![first.1]
            + rest.1).insert(k, ReactionModel::nothing()));
    }
}

/// When a second connection greets with an id that a first connection
/// greeted with, the first connection's cleanup leaves the second's
/// registration in place, fresh.
pub proof fn lemma_reconnect_survives_stale_close(
    m: Map<Seq<char>, crate::registry::ClientRecord>,
    generation: u64,
    first: MessageModel,
    second: MessageModel,
    now1: u64,
    now2: u64,
)
    requires
        first is Hello,
        second is Hello,
        first->Hello_client_id == second->Hello_client_id,
    ensures
        ({
            let id = first->Hello_client_id;
            let first_binding = binding_after(None, generation, first);
            let t1 = table_after(m, generation, first, now1);
            let g1 = generation_after(generation, first);
            let t2 = table_after(t1, g1, second, now2);
            let t3 = removed_if_current(t2, id, first_binding->Some_0.1);
            &&& t3 == t2
            &&& t3.contains_key(id)
            &&& t3[id].generation == g1
            &&& t3[id].device_model == second->Hello_device_model
            &&& t3[id].current_session is None
            &&& t3[id].last_partial_text is None
        }),
{
}

/// No client has a partial transcript outside an active session.
pub open spec fn sessions_consistent(m: Map<Seq<char>, crate::registry::ClientRecord>) -> bool {
    forall|k: Seq<char>|
        #[trigger] m.contains_key(k) && m[k].last_partial_text is Some ==> m[k].current_session is Some
}

/// Every message keeps partial transcripts inside active sessions.
pub proof fn lemma_sessions_stay_consistent(
    m: Map<Seq<char>, crate::registry::ClientRecord>,
    generation: u64,
    msg: MessageModel,
    now: u64,
)
    requires
        sessions_consistent(m),
    ensures
        sessions_consistent(table_after(m, generation, msg, now)),
{
}

} // verus!
