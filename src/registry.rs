//! The table of connected clients, keyed by the id each client asserts in its
//! greeting, with heartbeat-based liveness.
use std::time::{Duration, Instant};
use vstd::prelude::*;

verus! {

/// Relies on std::time::Instant: a point of the monotonic clock, carried opaquely.
#[verifier::external_type_specification]
#[verifier::external_body]
pub struct ExInstant(Instant);

/// Relies on Instant::now to read the monotonic clock; nothing is promised of the value.
pub assume_specification[ Instant::now ]() -> Instant;

/// Relies on Instant::elapsed for the time since a reading; nothing is promised of it.
pub assume_specification[ Instant::elapsed ](this: &Instant) -> Duration;

/// Relies on Duration::as_millis for the whole milliseconds of a duration.
pub assume_specification[ Duration::as_millis ](this: &Duration) -> u128;

/// What the registry holds for one connected client.
pub struct ClientInfo {
    pub client_id: String,
    pub device_model: String,
    pub engine: String,
    /// Milliseconds on the registry's clock at registration.
    pub connected_at: u64,
    /// Milliseconds on the registry's clock at the last sign of life.
    pub last_heartbeat: u64,
    pub current_session: Option<String>,
    pub last_partial_text: Option<String>,
    /// Tells this registration apart from earlier ones under the same id.
    pub generation: u64,
}

/// The mathematical model of a `ClientInfo`.
pub struct ClientRecord {
    pub client_id: Seq<char>,
    pub device_model: Seq<char>,
    pub engine: Seq<char>,
    pub connected_at: u64,
    pub last_heartbeat: u64,
    pub current_session: Option<Seq<char>>,
    pub last_partial_text: Option<Seq<char>>,
    pub generation: u64,
}

pub open spec fn opt_view(o: Option<String>) -> Option<Seq<char>> {
    match o {
        Some(s) => Some(s@),
        None => None,
    }
}

impl View for ClientInfo {
    type V = ClientRecord;

    open spec fn view(&self) -> ClientRecord {
        ClientRecord {
            client_id: self.client_id@,
            device_model: self.device_model@,
            engine: self.engine@,
            connected_at: self.connected_at,
            last_heartbeat: self.last_heartbeat,
            current_session: opt_view(self.current_session),
            last_partial_text: opt_view(self.last_partial_text),
            generation: self.generation,
        }
    }
}

impl ClientRecord {
    /// The record a greeting creates: both timestamps at `now`, no session.
    pub open spec fn fresh(
        id: Seq<char>,
        device_model: Seq<char>,
        engine: Seq<char>,
        now: u64,
        generation: u64,
    ) -> ClientRecord {
        ClientRecord {
            client_id: id,
            device_model,
            engine,
            connected_at: now,
            last_heartbeat: now,
            current_session: None,
            last_partial_text: None,
            generation,
        }
    }

    /// The same record, with its last sign of life at `now`.
    pub open spec fn with_heartbeat(self, now: u64) -> ClientRecord {
        ClientRecord { last_heartbeat: now, ..self }
    }

    /// The same record, with the given active session.
    pub open spec fn with_session(self, session: Option<Seq<char>>) -> ClientRecord {
        ClientRecord { current_session: session, ..self }
    }

    /// The same record, with the given latest partial transcript.
    pub open spec fn with_partial_text(self, text: Option<Seq<char>>) -> ClientRecord {
        ClientRecord { last_partial_text: text, ..self }
    }

    /// More than `timeout` milliseconds of silence at time `now`.
    pub open spec fn is_timed_out(self, now: u64, timeout: u64) -> bool {
        now - self.last_heartbeat > timeout
    }
}

/// The table after a greeting: a fresh record under `id`, whatever was there.
pub open spec fn registered(
    m: Map<Seq<char>, ClientRecord>,
    id: Seq<char>,
    device_model: Seq<char>,
    engine: Seq<char>,
    now: u64,
    generation: u64,
) -> Map<Seq<char>, ClientRecord> {
    m.insert(id, ClientRecord::fresh(id, device_model, engine, now, generation))
}

/// The table after a heartbeat from `id` at `now`; unchanged for an unknown id.
pub open spec fn heartbeaten(m: Map<Seq<char>, ClientRecord>, id: Seq<char>, now: u64) -> Map<
    Seq<char>,
    ClientRecord,
> {
    if m.contains_key(id) {
        m.insert(id, m[id].with_heartbeat(now))
    } else {
        m
    }
}

/// The table with the session of `id` set; unchanged for an unknown id.
pub open spec fn session_set(
    m: Map<Seq<char>, ClientRecord>,
    id: Seq<char>,
    session: Option<Seq<char>>,
) -> Map<Seq<char>, ClientRecord> {
    if m.contains_key(id) {
        m.insert(id, m[id].with_session(session))
    } else {
        m
    }
}

/// The table with the partial transcript of `id` set; unchanged for an unknown id.
pub open spec fn partial_text_set(
    m: Map<Seq<char>, ClientRecord>,
    id: Seq<char>,
    text: Option<Seq<char>>,
) -> Map<Seq<char>, ClientRecord> {
    if m.contains_key(id) {
        m.insert(id, m[id].with_partial_text(text))
    } else {
        m
    }
}

/// The table without `id`, if its record is still of the given generation.
pub open spec fn removed_if_current(m: Map<Seq<char>, ClientRecord>, id: Seq<char>, generation: u64) -> Map<
    Seq<char>,
    ClientRecord,
> {
    if m.contains_key(id) && m[id].generation == generation {
        m.remove(id)
    } else {
        m
    }
}

/// The ids timed out at `now` under `timeout`.
pub open spec fn timed_out_set(m: Map<Seq<char>, ClientRecord>, now: u64, timeout: u64) -> Set<
    Seq<char>,
> {
    Set::new(|k: Seq<char>| m.contains_key(k) && m[k].is_timed_out(now, timeout))
}

pub open spec fn ids_of(s: Seq<ClientInfo>) -> Seq<Seq<char>> {
    s.map_values(|c: ClientInfo| c.client_id@)
}

pub open spec fn strings_view(v: Seq<String>) -> Seq<Seq<char>> {
    v.map_values(|s: String| s@)
}

/// Ids and records, one per client; every id at most once.
pub struct ClientRegistry {
    clients: Vec<ClientInfo>,
    heartbeat_timeout_ms: u64,
    next_generation: u64,
    /// The latest time this registry has seen, on its clock or from a caller.
    latest_ms: u64,
    clock: Instant,
}

impl View for ClientRegistry {
    type V = Map<Seq<char>, ClientRecord>;

    closed spec fn view(&self) -> Map<Seq<char>, ClientRecord> {
        model_of(self.clients@)
    }
}

/// The map from each id in `s` to the record stored under it.
pub open spec fn model_of(s: Seq<ClientInfo>) -> Map<Seq<char>, ClientRecord> {
    Map::new(
        |k: Seq<char>| ids_of(s).contains(k),
        |k: Seq<char>| s[ids_of(s).index_of(k)]@,
    )
}

/// The ids in `s` whose records are timed out at `now`, in order.
pub open spec fn timed_out_ids(s: Seq<ClientInfo>, now: u64, timeout: u64) -> Seq<Seq<char>>
    decreases s.len(),
{
    if s.len() == 0 {
        Seq::empty()
    } else {
        let rest = timed_out_ids(s.drop_last(), now, timeout);
        if s.last()@.is_timed_out(now, timeout) {
            rest.push(s.last().client_id@)
        } else {
            rest
        }
    }
}

proof fn lemma_timed_out_ids(s: Seq<ClientInfo>, now: u64, timeout: u64)
    requires
        ids_of(s).no_duplicates(),
    ensures
        timed_out_ids(s, now, timeout).no_duplicates(),
        forall|k: Seq<char>|
            #[trigger] timed_out_ids(s, now, timeout).contains(k) <==> (model_of(s).contains_key(k)
                && model_of(s)[k].is_timed_out(now, timeout)),
    decreases s.len(),
{
    if s.len() > 0 {
        let p = s.drop_last();
        let c = s.last();
        assert(s == p.push(c));
        assert(ids_of(p) =~= ids_of(s).drop_last());
        assert(ids_of(s)[s.len() - 1] == c.client_id@);
        assert(!ids_of(p).contains(c.client_id@)) by {
            if ids_of(p).contains(c.client_id@) {
                let j = ids_of(p).index_of(c.client_id@);
                assert(ids_of(s)[j] == c.client_id@);
            }
        }
        lemma_timed_out_ids(p, now, timeout);
        lemma_model_push(p, c);
        let rest = timed_out_ids(p, now, timeout);
        if c@.is_timed_out(now, timeout) {
            assert(!rest.contains(c.client_id@));
            assert forall|k: Seq<char>| #[trigger] rest.push(c.client_id@).contains(k) <==> rest.contains(k)
                || k == c.client_id@ by {
                if rest.push(c.client_id@).contains(k) {
                    let j = choose|j: int| 0 <= j < rest.len() + 1 && rest.push(c.client_id@)[j] == k;
                    if j < rest.len() {
                        assert(rest[j] == k);
                    }
                }
                if k == c.client_id@ {
                    assert(rest.push(c.client_id@)[rest.len() as int] == k);
                }
                if rest.contains(k) {
                    let j = choose|j: int| 0 <= j < rest.len() && rest[j] == k;
                    assert(rest.push(c.client_id@)[j] == k);
                }
            }
        }
    }
}

proof fn lemma_model_len(s: Seq<ClientInfo>)
    requires
        ids_of(s).no_duplicates(),
    ensures
        model_of(s).len() == s.len(),
        model_of(s).dom().finite(),
{
    ids_of(s).unique_seq_to_set();
    assert(model_of(s).dom() =~= ids_of(s).to_set());
}

proof fn lemma_model_at(s: Seq<ClientInfo>, i: int)
    requires
        ids_of(s).no_duplicates(),
        0 <= i < s.len(),
    ensures
        model_of(s).contains_key(s[i].client_id@),
        model_of(s)[s[i].client_id@] == s[i]@,
{
    let ids = ids_of(s);
    assert(ids[i] == s[i].client_id@);
    assert(ids.contains(ids[i]));
    let j = ids.index_of(ids[i]);
    assert(0 <= j < ids.len() && ids[j] == ids[i]);
}

proof fn lemma_model_update(s: Seq<ClientInfo>, i: int, c: ClientInfo)
    requires
        ids_of(s).no_duplicates(),
        0 <= i < s.len(),
        c.client_id@ == s[i].client_id@,
    ensures
        ids_of(s.update(i, c)) == ids_of(s),
        model_of(s.update(i, c)) == model_of(s).insert(c.client_id@, c@),
{
    let t = s.update(i, c);
    assert(ids_of(t) =~= ids_of(s));
    let ids = ids_of(s);
    assert forall|k: Seq<char>| #[trigger] model_of(t).contains_key(k) implies model_of(t)[k]
        == model_of(s).insert(c.client_id@, c@)[k] by {
        let j = ids.index_of(k);
        assert(0 <= j < ids.len() && ids[j] == k);
        if k == c.client_id@ {
            assert(ids[i] == k);
            assert(j == i);
        } else {
            assert(j != i);
            assert(ids.contains(k));
        }
    }
    assert(ids[i] == c.client_id@);
    assert(model_of(t) =~= model_of(s).insert(c.client_id@, c@));
}

proof fn lemma_model_push(s: Seq<ClientInfo>, c: ClientInfo)
    requires
        ids_of(s).no_duplicates(),
        !ids_of(s).contains(c.client_id@),
    ensures
        ids_of(s.push(c)).no_duplicates(),
        model_of(s.push(c)) == model_of(s).insert(c.client_id@, c@),
{
    let t = s.push(c);
    let ids = ids_of(s);
    assert(ids_of(t) =~= ids.push(c.client_id@));
    assert forall|k: Seq<char>| #[trigger] model_of(t).contains_key(k) implies model_of(t)[k]
        == model_of(s).insert(c.client_id@, c@)[k] by {
        let j = ids_of(t).index_of(k);
        assert(0 <= j < ids_of(t).len() && ids_of(t)[j] == k);
        if k == c.client_id@ {
            assert(ids_of(t)[s.len() as int] == k);
            if j < s.len() {
                assert(ids[j] == k);
            }
            assert(j == s.len());
        } else {
            assert(j < s.len());
            assert(ids[j] == k);
            assert(ids.contains(k));
            let j2 = ids.index_of(k);
            assert(0 <= j2 < ids.len() && ids[j2] == k);
            assert(j2 == j);
        }
    }
    assert forall|k: Seq<char>| model_of(s).insert(c.client_id@, c@).contains_key(k) implies
        #[trigger] model_of(t).contains_key(k) by {
        if k == c.client_id@ {
            assert(ids_of(t)[s.len() as int] == k);
        } else {
            let j = ids.index_of(k);
            assert(ids_of(t)[j] == k);
        }
    }
    assert(model_of(t) =~= model_of(s).insert(c.client_id@, c@));
}

proof fn lemma_model_remove(s: Seq<ClientInfo>, i: int)
    requires
        ids_of(s).no_duplicates(),
        0 <= i < s.len(),
    ensures
        ids_of(s.remove(i)).no_duplicates(),
        model_of(s.remove(i)) == model_of(s).remove(s[i].client_id@),
{
    let t = s.remove(i);
    let ids = ids_of(s);
    let id = s[i].client_id@;
    assert(ids_of(t) =~= ids.remove(i));
    assert forall|k: Seq<char>| #[trigger] model_of(t).contains_key(k) implies k != id
        && ids.contains(k) && model_of(t)[k] == model_of(s)[k] by {
        let j = ids_of(t).index_of(k);
        assert(0 <= j < ids_of(t).len() && ids_of(t)[j] == k);
        let oj = if j < i { j } else { j + 1 };
        assert(ids[oj] == k);
        assert(t[j] == s[oj]);
        assert(oj != i);
        assert(ids[i] == id);
        assert(ids.contains(k));
        let j2 = ids.index_of(k);
        assert(0 <= j2 < ids.len() && ids[j2] == k);
        assert(j2 == oj);
    }
    assert forall|k: Seq<char>| model_of(s).remove(id).contains_key(k) implies
        #[trigger] model_of(t).contains_key(k) by {
        let j = ids.index_of(k);
        assert(0 <= j < ids.len() && ids[j] == k);
        assert(j != i);
        let nj = if j < i { j } else { j - 1 };
        assert(ids_of(t)[nj] == k);
    }
    assert(model_of(t) =~= model_of(s).remove(id));
}

impl ClientRegistry {
    /// No id appears twice, and each record sits under its own id.
    pub closed spec fn wf(&self) -> bool {
        &&& ids_of(self.clients@).no_duplicates()
        &&& forall|i: int|
            0 <= i < self.clients@.len() ==> #[trigger] self.clients@[i].last_heartbeat
                <= self.latest_ms
    }

    /// The latest time this registry has seen; no heartbeat is later.
    pub closed spec fn latest(&self) -> u64 {
        self.latest_ms
    }

    /// No recorded heartbeat is later than the latest time seen.
    pub proof fn lemma_heartbeats_not_after_latest(&self)
        requires
            self.wf(),
        ensures
            forall|k: Seq<char>|
                #[trigger] self@.contains_key(k) ==> self@[k].last_heartbeat <= self.latest(),
    {
        assert forall|k: Seq<char>| #[trigger] self@.contains_key(k) implies self@[k].last_heartbeat
            <= self.latest() by {
            let j = ids_of(self.clients@).index_of(k);
            assert(0 <= j < self.clients@.len());
        }
    }

    /// `ids` holds, each once, exactly the registered ids that are timed out at `now`.
    pub open spec fn lists_timed_out(&self, ids: Seq<Seq<char>>, now: u64) -> bool {
        &&& ids.no_duplicates()
        &&& forall|k: Seq<char>|
            #[trigger] ids.contains(k) <==> (self@.contains_key(k) && self@[k].is_timed_out(
                now,
                self.timeout(),
            ))
    }

    /// The heartbeat timeout, in milliseconds.
    pub closed spec fn timeout(&self) -> u64 {
        self.heartbeat_timeout_ms
    }

    /// The generation the next registration will carry.
    pub closed spec fn next_generation(&self) -> u64 {
        self.next_generation
    }

    /// A registry with no clients, whose heartbeat timeout is
    /// `heartbeat_timeout_secs` seconds (in milliseconds, capped at `u64::MAX`).
    pub fn new(heartbeat_timeout_secs: u64) -> (r: ClientRegistry)
        ensures
            r.wf(),
            r@ == Map::<Seq<char>, ClientRecord>::empty(),
            r.timeout() as int == if heartbeat_timeout_secs * 1000 <= u64::MAX {
                heartbeat_timeout_secs * 1000
            } else {
                u64::MAX as int
            },
            r.next_generation() == 0,
    {
        let ms = match heartbeat_timeout_secs.checked_mul(1000) {
            Some(ms) => ms,
            None => u64::MAX,
        };
        let r = ClientRegistry {
            clients: Vec::new(),
            heartbeat_timeout_ms: ms,
            next_generation: 0,
            latest_ms: 0,
            clock: Instant::now(),
        };
        assert(r@ =~= Map::<Seq<char>, ClientRecord>::empty());
        r
    }

    /// Milliseconds on this registry's clock since it was created, never
    /// earlier than the latest time it has seen.
    pub fn now_ms(&self) -> (r: u64)
        ensures
            r >= self.latest(),
    {
        let elapsed = self.clock.elapsed();
        let millis = elapsed.as_millis();
        let ms = if millis > u64::MAX as u128 {
            u64::MAX
        } else {
            millis as u64
        };
        if ms < self.latest_ms {
            self.latest_ms
        } else {
            ms
        }
    }

    /// The position of the record under `id`, if there is one.
    fn find(&self, id: &String) -> (r: Option<usize>)
        requires
            self.wf(),
        ensures
            match r {
                Some(i) => i < self.clients@.len() && self.clients@[i as int].client_id@ == id@,
                None => !self@.contains_key(id@),
            },
    {
        let mut i: usize = 0;
        while i < self.clients.len()
            invariant
                i <= self.clients@.len(),
                forall|j: int| 0 <= j < i ==> self.clients@[j].client_id@ != id@,
            decreases self.clients@.len() - i,
        {
            if self.clients[i].client_id == *id {
                return Some(i);
            }
            i += 1;
        }
        proof {
            let ids = ids_of(self.clients@);
            assert forall|j: int| 0 <= j < ids.len() implies ids[j] != id@ by {
                assert(ids[j] == self.clients@[j].client_id@);
            }
        }
        None
    }

    /// Records a greeting at time `now`: the record under `client_id` is
    /// replaced by a fresh one with no session, whatever was there before.
    /// Returns the generation that the new record carries.
    pub fn register_at(&mut self, client_id: &str, device_model: &str, engine: &str, now: u64) -> (generation: u64)
        requires
            old(self).wf(),
        ensures
            final(self).wf(),
            generation == old(self).next_generation(),
            final(self)@ == registered(
                old(self)@,
                client_id@,
                device_model@,
                engine@,
                now,
                generation,
            ),
            final(self).next_generation() == if generation < u64::MAX {
                (generation + 1) as u64
            } else {
                0
            },
            final(self).timeout() == old(self).timeout(),
            final(self).latest() == if now > old(self).latest() {
                now
            } else {
                old(self).latest()
            },
    {
        if now > self.latest_ms {
            self.latest_ms = now;
        }
        let generation = self.next_generation;
        let info = ClientInfo {
            client_id: client_id.to_owned(),
            device_model: device_model.to_owned(),
            engine: engine.to_owned(),
            connected_at: now,
            last_heartbeat: now,
            current_session: None,
            last_partial_text: None,
            generation,
        };
        match self.find(&info.client_id) {
            Some(i) => {
                proof {
                    lemma_model_update(self.clients@, i as int, info);
                }
                self.clients.set(i, info);
            },
            None => {
                proof {
                    lemma_model_push(self.clients@, info);
                }
                self.clients.push(info);
            },
        }
        self.next_generation = if generation < u64::MAX {
            generation + 1
        } else {
            0
        };
        generation
    }

    /// Records a greeting now, on this registry's clock; see `register_at`.
    pub fn register(&mut self, client_id: &str, device_model: &str, engine: &str)
        requires
            old(self).wf(),
        ensures
            final(self).wf(),
            exists|now: u64|
                now >= old(self).latest() && final(self).latest() == now && final(self)@
                    == #[trigger] registered(
                    old(self)@,
                    client_id@,
                    device_model@,
                    engine@,
                    now,
                    old(self).next_generation(),
                ),
            final(self).next_generation() == if old(self).next_generation() < u64::MAX {
                (old(self).next_generation() + 1) as u64
            } else {
                0
            },
            final(self).timeout() == old(self).timeout(),
    {
        let now = self.now_ms();
        self.register_at(client_id, device_model, engine, now);
    }

    /// Removes the record under `client_id` and hands it back, if there is one.
    pub fn unregister(&mut self, client_id: &str) -> (r: Option<ClientInfo>)
        requires
            old(self).wf(),
        ensures
            final(self).wf(),
            final(self).timeout() == old(self).timeout(),
            final(self).next_generation() == old(self).next_generation(),
            final(self).latest() == old(self).latest(),
            match r {
                Some(info) => old(self)@.contains_key(client_id@) && info@ == old(self)@[client_id@]
                    && final(self)@ == old(self)@.remove(client_id@),
                None => !old(self)@.contains_key(client_id@) && final(self)@ == old(self)@,
            },
    {
        let key = client_id.to_owned();
        match self.find(&key) {
            Some(i) => {
                proof {
                    lemma_model_at(self.clients@, i as int);
                    lemma_model_remove(self.clients@, i as int);
                }
                Some(self.clients.remove(i))
            },
            None => None,
        }
    }

    /// Removes the record under `client_id` only while it is still the
    /// registration of the given generation, and hands it back.
    pub fn unregister_if_current(&mut self, client_id: &str, generation: u64) -> (r: Option<ClientInfo>)
        requires
            old(self).wf(),
        ensures
            final(self).wf(),
            final(self).timeout() == old(self).timeout(),
            final(self).next_generation() == old(self).next_generation(),
            final(self).latest() == old(self).latest(),
            match r {
                Some(info) => old(self)@.contains_key(client_id@) && info@ == old(self)@[client_id@]
                    && info.generation == generation
                    && final(self)@ == old(self)@.remove(client_id@),
                None => !(old(self)@.contains_key(client_id@) && old(self)@[client_id@].generation
                    == generation),
            },
            final(self)@ == removed_if_current(old(self)@, client_id@, generation),
    {
        let key = client_id.to_owned();
        match self.find(&key) {
            Some(i) => {
                proof {
                    lemma_model_at(self.clients@, i as int);
                }
                if self.clients[i].generation == generation {
                    proof {
                        lemma_model_remove(self.clients@, i as int);
                    }
                    Some(self.clients.remove(i))
                } else {
                    None
                }
            },
            None => None,
        }
    }

    /// The record under `client_id`, if there is one.
    pub fn get(&self, client_id: &str) -> (r: Option<&ClientInfo>)
        requires
            self.wf(),
        ensures
            match r {
                Some(info) => self@.contains_key(client_id@) && info@ == self@[client_id@],
                None => !self@.contains_key(client_id@),
            },
    {
        let key = client_id.to_owned();
        match self.find(&key) {
            Some(i) => {
                proof {
                    lemma_model_at(self.clients@, i as int);
                }
                Some(&self.clients[i])
            },
            None => None,
        }
    }

    /// The record under `client_id` for changing in place, if there is one.
    /// The table stays well formed as long as the record keeps its id and
    /// its heartbeat is not set later than the latest time seen.
    pub fn get_mut(&mut self, client_id: &str) -> (r: Option<&mut ClientInfo>)
        requires
            old(self).wf(),
        ensures
            final(self).timeout() == old(self).timeout(),
            final(self).next_generation() == old(self).next_generation(),
            final(self).latest() == old(self).latest(),
            match r {
                Some(info) => {
                    &&& old(self)@.contains_key(client_id@)
                    &&& info@ == old(self)@[client_id@]
                    &&& final(info).client_id@ == client_id@ && final(info).last_heartbeat
                        <= old(self).latest() ==> final(self).wf() && final(self)@ == old(
                        self,
                    )@.insert(client_id@, final(info)@)
                },
                None => !old(self)@.contains_key(client_id@) && final(self).wf() && final(self)@
                    == old(self)@,
            },
    {
        let key = client_id.to_owned();
        match self.find(&key) {
            Some(i) => {
                proof {
                    lemma_model_at(self.clients@, i as int);
                }
                proof {
                    let s = self.clients@;
                    assert forall|c: ClientInfo| c.client_id@ == client_id@ implies ids_of(
                        #[trigger] s.update(i as int, c),
                    ).no_duplicates() && model_of(s.update(i as int, c)) == model_of(s).insert(
                        client_id@,
                        c@,
                    ) by {
                        lemma_model_update(s, i as int, c);
                    }
                }
                Some(&mut self.clients[i])
            },
            None => None,
        }
    }

    /// Marks a sign of life from `client_id` at time `now`, if it is registered.
    /// Returns whether it was.
    pub fn heartbeat_at(&mut self, client_id: &str, now: u64) -> (r: bool)
        requires
            old(self).wf(),
        ensures
            final(self).wf(),
            final(self).timeout() == old(self).timeout(),
            final(self).next_generation() == old(self).next_generation(),
            r == old(self)@.contains_key(client_id@),
            final(self)@ == heartbeaten(old(self)@, client_id@, now),
            final(self).latest() == if now > old(self).latest() {
                now
            } else {
                old(self).latest()
            },
    {
        if now > self.latest_ms {
            self.latest_ms = now;
        }
        let key = client_id.to_owned();
        match self.find(&key) {
            Some(i) => {
                proof {
                    lemma_model_at(self.clients@, i as int);
                }
                self.clients[i].last_heartbeat = now;
                proof {
                    lemma_model_update(old(self).clients@, i as int, self.clients@[i as int]);
                }
                true
            },
            None => false,
        }
    }

    /// Marks a sign of life from `client_id` now, on this registry's clock;
    /// see `heartbeat_at`. The clock never goes back, so neither does the
    /// client's last heartbeat.
    pub fn heartbeat(&mut self, client_id: &str) -> (r: bool)
        requires
            old(self).wf(),
        ensures
            final(self).wf(),
            final(self).timeout() == old(self).timeout(),
            final(self).next_generation() == old(self).next_generation(),
            r == old(self)@.contains_key(client_id@),
            exists|now: u64|
                now >= old(self).latest() && final(self).latest() == now && final(self)@
                    == #[trigger] heartbeaten(old(self)@, client_id@, now),
            r ==> final(self)@[client_id@].last_heartbeat >= old(self)@[client_id@].last_heartbeat,
    {
        proof {
            self.lemma_heartbeats_not_after_latest();
        }
        let now = self.now_ms();
        self.heartbeat_at(client_id, now)
    }

    /// Sets or clears the active session of `client_id`, if it is registered.
    /// Returns whether it was.
    pub fn set_session(&mut self, client_id: &str, session_id: Option<String>) -> (r: bool)
        requires
            old(self).wf(),
        ensures
            final(self).wf(),
            final(self).timeout() == old(self).timeout(),
            final(self).next_generation() == old(self).next_generation(),
            final(self).latest() == old(self).latest(),
            r == old(self)@.contains_key(client_id@),
            final(self)@ == session_set(old(self)@, client_id@, opt_view(session_id)),
    {
        let key = client_id.to_owned();
        match self.find(&key) {
            Some(i) => {
                proof {
                    lemma_model_at(self.clients@, i as int);
                }
                self.clients[i].current_session = session_id;
                proof {
                    lemma_model_update(old(self).clients@, i as int, self.clients@[i as int]);
                }
                true
            },
            None => false,
        }
    }

    /// Sets or clears the latest partial transcript of `client_id`, if it is
    /// registered. Returns whether it was.
    pub fn set_partial_text(&mut self, client_id: &str, text: Option<String>) -> (r: bool)
        requires
            old(self).wf(),
        ensures
            final(self).wf(),
            final(self).timeout() == old(self).timeout(),
            final(self).next_generation() == old(self).next_generation(),
            final(self).latest() == old(self).latest(),
            r == old(self)@.contains_key(client_id@),
            final(self)@ == partial_text_set(old(self)@, client_id@, opt_view(text)),
    {
        let key = client_id.to_owned();
        match self.find(&key) {
            Some(i) => {
                proof {
                    lemma_model_at(self.clients@, i as int);
                }
                self.clients[i].last_partial_text = text;
                proof {
                    lemma_model_update(old(self).clients@, i as int, self.clients@[i as int]);
                }
                true
            },
            None => false,
        }
    }

    /// The ids whose last sign of life is more than the heartbeat timeout
    /// before `now`, each once. Reads only.
    pub fn timed_out_clients_at(&self, now: u64) -> (r: Vec<String>)
        requires
            self.wf(),
        ensures
            self.lists_timed_out(strings_view(r@), now),
    {
        let mut r: Vec<String> = Vec::new();
        let mut i: usize = 0;
        while i < self.clients.len()
            invariant
                i <= self.clients@.len(),
                strings_view(r@) == timed_out_ids(
                    self.clients@.take(i as int),
                    now,
                    self.heartbeat_timeout_ms,
                ),
            decreases self.clients@.len() - i,
        {
            assert(self.clients@.take(i + 1).drop_last() =~= self.clients@.take(i as int));
            let c = &self.clients[i];
            if now > c.last_heartbeat && now - c.last_heartbeat > self.heartbeat_timeout_ms {
                r.push(c.client_id.clone());
                assert(strings_view(r@) =~= timed_out_ids(
                    self.clients@.take(i as int),
                    now,
                    self.heartbeat_timeout_ms,
                ).push(c.client_id@));
            }
            i += 1;
        }
        proof {
            assert(self.clients@.take(i as int) =~= self.clients@);
            lemma_timed_out_ids(self.clients@, now, self.heartbeat_timeout_ms);
        }
        r
    }

    /// The ids timed out now, on this registry's clock; see `timed_out_clients_at`.
    pub fn timed_out_clients(&self) -> (r: Vec<String>)
        requires
            self.wf(),
        ensures
            exists|now: u64|
                now >= self.latest() && #[trigger] self.lists_timed_out(strings_view(r@), now),
    {
        let now = self.now_ms();
        self.timed_out_clients_at(now)
    }

    /// How many clients are registered.
    pub fn connected_count(&self) -> (r: usize)
        requires
            self.wf(),
        ensures
            r == self@.len(),
    {
        proof {
            lemma_model_len(self.clients@);
        }
        self.clients.len()
    }

    /// Every registered id, each once.
    pub fn all_client_ids(&self) -> (r: Vec<String>)
        requires
            self.wf(),
        ensures
            strings_view(r@).no_duplicates(),
            r@.len() == self@.len(),
            forall|k: Seq<char>| #[trigger] strings_view(r@).contains(k) <==> self@.contains_key(k),
    {
        let mut r: Vec<String> = Vec::new();
        let mut i: usize = 0;
        while i < self.clients.len()
            invariant
                i <= self.clients@.len(),
                strings_view(r@) == ids_of(self.clients@.take(i as int)),
            decreases self.clients@.len() - i,
        {
            let ghost before = r@;
            r.push(self.clients[i].client_id.clone());
            assert(strings_view(r@) =~= strings_view(before).push(self.clients@[i as int].client_id@));
            assert(ids_of(self.clients@.take(i + 1)) =~= ids_of(self.clients@.take(i as int)).push(
                self.clients@[i as int].client_id@,
            ));
            i += 1;
        }
        proof {
            assert(self.clients@.take(i as int) =~= self.clients@);
            lemma_model_len(self.clients@);
        }
        r
    }
}

/// A greeting leaves exactly one record under its id, with no session and
/// no partial transcript; the number of clients grows by one for a new id
/// and stays the same for a known one.
pub proof fn lemma_register_then_get(
    reg: ClientRegistry,
    id: Seq<char>,
    device_model: Seq<char>,
    engine: Seq<char>,
    now: u64,
)
    requires
        reg.wf(),
    ensures
        ({
            let after = registered(reg@, id, device_model, engine, now, reg.next_generation());
            &&& after.contains_key(id)
            &&& after[id].current_session is None
            &&& after[id].last_partial_text is None
            &&& after[id].device_model == device_model
            &&& after[id].engine == engine
            &&& after.len() == if reg@.contains_key(id) {
                reg@.len()
            } else {
                reg@.len() + 1
            }
        }),
{
    lemma_model_len(reg.clients@);
}

/// Heartbeats, session changes and partial transcripts for an id that is
/// not registered leave the table, and so its size, as they were.
pub proof fn lemma_unknown_id_untouched(
    m: Map<Seq<char>, ClientRecord>,
    id: Seq<char>,
    now: u64,
    session: Option<Seq<char>>,
    text: Option<Seq<char>>,
)
    requires
        !m.contains_key(id),
    ensures
        heartbeaten(m, id, now) == m,
        session_set(m, id, session) == m,
        partial_text_set(m, id, text) == m,
{
}

/// A registered client silent for more than the timeout is among the timed
/// out ids; right after a heartbeat at `now` it is not.
pub proof fn lemma_heartbeat_resets_timeout(
    m: Map<Seq<char>, ClientRecord>,
    id: Seq<char>,
    now: u64,
    timeout: u64,
)
    requires
        m.contains_key(id),
    ensures
        now - m[id].last_heartbeat > timeout ==> timed_out_set(m, now, timeout).contains(id),
        heartbeaten(m, id, now).contains_key(id),
        !timed_out_set(heartbeaten(m, id, now), now, timeout).contains(id),
{
}

} // verus!
