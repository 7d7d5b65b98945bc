//! What the server loop decides: carrying out a reaction against the
//! injector and the event sink, and the liveness sweep.
use crate::connection::{EventModel, Reaction, ServerEvent};
use crate::injection::TextInjector;
use crate::protocol::Message;
use crate::registry::{timed_out_set, ClientRegistry};
use vstd::prelude::*;

verus! {

/// Receives the server's events, fire and forget.
pub trait EventEmitter {
    fn emit(&self, event: ServerEvent);
}

/// Carries out a reaction: injects its text (a failure is ignored), emits
/// its event, and hands back its reply for sending.
pub fn carry_out<I: TextInjector + ?Sized, E: EventEmitter + ?Sized>(
    reaction: Reaction,
    injector: &I,
    emitter: &E,
) -> (r: Option<Message>)
    ensures
        r == reaction.reply,
{
    let Reaction { inject, event, reply } = reaction;
    match inject {
        Some(text) => {
            let _ = injector.inject(text.as_str());
        },
        None => {},
    }
    match event {
        Some(e) => emitter.emit(e),
        None => {},
    }
    reply
}

/// The ids that a list of events reports as disconnected, in order.
pub open spec fn disconnected_ids(events: Seq<ServerEvent>) -> Seq<Seq<char>> {
    events.map_values(|e: ServerEvent| e->ClientDisconnected_client_id@)
}

/// Every event of the list is a disconnection.
pub open spec fn all_disconnections(events: Seq<ServerEvent>) -> bool {
    forall|i: int| 0 <= i < events.len() ==> events[i] is ClientDisconnected
}

/// The liveness sweep at time `now`: every client whose heartbeat has timed
/// out is removed, and one disconnection event per removed client is
/// returned. The other clients stay as they were.
pub fn sweep_timed_out(registry: &mut ClientRegistry, now: u64) -> (r: Vec<ServerEvent>)
    requires
        old(registry).wf(),
    ensures
        final(registry).wf(),
        final(registry).timeout() == old(registry).timeout(),
        final(registry).next_generation() == old(registry).next_generation(),
        final(registry)@ == old(registry)@.remove_keys(
            timed_out_set(old(registry)@, now, old(registry).timeout()),
        ),
        all_disconnections(r@),
        disconnected_ids(r@).no_duplicates(),
        disconnected_ids(r@).to_set() == timed_out_set(old(registry)@, now, old(registry).timeout()),
{
    let ids = registry.timed_out_clients_at(now);
    let ghost start = registry@;
    let ghost gone = timed_out_set(start, now, registry.timeout());
    let mut events: Vec<ServerEvent> = Vec::new();
    let mut i: usize = 0;
    while i < ids.len()
        invariant
            i <= ids@.len(),
            registry.wf(),
            registry.timeout() == old(registry).timeout(),
            registry.next_generation() == old(registry).next_generation(),
            start == old(registry)@,
            gone == timed_out_set(start, now, registry.timeout()),
            old(registry).lists_timed_out(crate::registry::strings_view(ids@), now),
            registry@ == start.remove_keys(crate::registry::strings_view(ids@).take(i as int).to_set()),
            all_disconnections(events@),
            disconnected_ids(events@) == crate::registry::strings_view(ids@).take(i as int),
        decreases ids@.len() - i,
    {
        let ghost before = registry@;
        let ghost done = crate::registry::strings_view(ids@).take(i as int);
        registry.unregister(ids[i].as_str());
        let ghost evs = events@;
        events.push(ServerEvent::ClientDisconnected { client_id: ids[i].clone() });
        proof {
            let next = crate::registry::strings_view(ids@).take(i + 1);
            assert(next =~= done.push(ids@[i as int]@));
            done.lemma_push_to_set_commute(ids@[i as int]@);
            assert(next.to_set() =~= done.to_set().insert(ids@[i as int]@));
            assert(registry@ =~= start.remove_keys(next.to_set()));
            assert(disconnected_ids(events@) =~= disconnected_ids(evs).push(ids@[i as int]@));
        }
        i += 1;
    }
    proof {
        let all = crate::registry::strings_view(ids@);
        assert(all.take(i as int) =~= all);
        assert(all.to_set() =~= gone);
    }
    events
}

} // verus!
