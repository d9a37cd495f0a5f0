//! The dispatcher: the one place where the events of all sessions arrive,
//! and the table of handles through which the application answers.
//!
//! Every connection passes its events on to the dispatcher, marked with its
//! session id. The dispatcher takes them one by one in the order of their
//! arrival and hands each to the application together with the handle of
//! its session. A session's `Disconnected` is handed on once, and with it
//! the session leaves the table: whatever arrives for it later is dropped.

use std::collections::HashMap;
use vstd::prelude::*;

use crate::types::ClientEvent;

verus! {

broadcast use vstd::std_specs::hash::group_hash_axioms;

/// The port that a server listens on where none is chosen.
pub const DEFAULT_PORT: u16 = 33445;

/// How many new connections may wait to be accepted: a crude limit on what
/// the server admits at once.
pub const PENDING_CONNECTIONS: usize = 100;

/// Collects the settings of a server.
#[derive(Debug)]
pub struct MonolithBuilder {
    port: u16,
}

impl MonolithBuilder {
    /// The port that the server will listen on.
    pub closed spec fn chosen_port(&self) -> u16 {
        self.port
    }

    /// The settings of a server on the default port.
    pub fn new() -> (builder: MonolithBuilder)
        ensures
            builder.chosen_port() == DEFAULT_PORT,
    {
        MonolithBuilder { port: DEFAULT_PORT }
    }

    /// The same settings with another port.
    pub fn port(self, port: u16) -> (builder: MonolithBuilder)
        ensures
            builder.chosen_port() == port,
    {
        let mut builder = self;
        builder.port = port;
        builder
    }

    /// The dispatcher of a server with these settings: no session has been
    /// accepted, and the first will get the id 0.
    pub fn build<W>(self) -> (monolith: Monolith<W>)
        ensures
            monolith.port_number() == self.chosen_port(),
            monolith.next_id() == 0,
            monolith.writers() == Map::<usize, W>::empty(),
            monolith.well_formed(),
    {
        Monolith { port: self.port, next_client_id: 0, writers: HashMap::new() }
    }
}

/// The sessions that are in the table after `arrival` has been taken: a
/// `Disconnected` takes its session out, nothing else changes the table.
pub open spec fn registered_after(registered: Set<usize>, arrival: (usize, ClientEvent)) -> Set<
    usize,
> {
    if arrival.1 is Disconnected {
        registered.remove(arrival.0)
    } else {
        registered
    }
}

/// What the dispatcher hands to the application of `arrivals`, taken in
/// order, when the sessions of `registered` are in the table: each event
/// whose session is in the table at the time.
pub open spec fn delivered(registered: Set<usize>, arrivals: Seq<(usize, ClientEvent)>) -> Seq<
    (usize, ClientEvent),
>
    decreases arrivals.len(),
{
    if arrivals.len() == 0 {
        Seq::empty()
    } else {
        let rest = delivered(registered_after(registered, arrivals[0]), arrivals.drop_first());
        if registered.contains(arrivals[0].0) {
            seq![arrivals[0]] + rest
        } else {
            rest
        }
    }
}

/// The events of session `id` among `events`, in order.
pub open spec fn of_session(events: Seq<(usize, ClientEvent)>, id: usize) -> Seq<ClientEvent>
    decreases events.len(),
{
    if events.len() == 0 {
        Seq::empty()
    } else if events[0].0 == id {
        seq![events[0].1] + of_session(events.drop_first(), id)
    } else {
        of_session(events.drop_first(), id)
    }
}

/// The events of `events` up to the first `Disconnected`, and that one too.
pub open spec fn until_disconnected(events: Seq<ClientEvent>) -> Seq<ClientEvent>
    decreases events.len(),
{
    if events.len() == 0 {
        Seq::empty()
    } else if events[0] is Disconnected {
        seq![events[0]]
    } else {
        seq![events[0]] + until_disconnected(events.drop_first())
    }
}

/// Event order: of whatever arrives, in whatever order the sessions take
/// turns, the application gets the events of a session that is in the table
/// in the order of their arrival, up to the session's `Disconnected`; of a
/// session that is not in the table it gets nothing.
pub proof fn lemma_event_order(
    registered: Set<usize>,
    arrivals: Seq<(usize, ClientEvent)>,
    id: usize,
)
    ensures
        of_session(delivered(registered, arrivals), id) == if registered.contains(id) {
            until_disconnected(of_session(arrivals, id))
        } else {
            Seq::<ClientEvent>::empty()
        },
    decreases arrivals.len(),
{
    if arrivals.len() > 0 {
        let first = arrivals[0];
        let later = registered_after(registered, first);
        let rest = delivered(later, arrivals.drop_first());
        lemma_event_order(later, arrivals.drop_first(), id);
        if registered.contains(first.0) {
            assert((seq![first] + rest).drop_first() =~= rest);
            assert((seq![first] + rest)[0] == first);
        }
        if first.0 == id && registered.contains(id) {
            let mine = of_session(arrivals.drop_first(), id);
            assert((seq![first.1] + mine).drop_first() =~= mine);
            if first.1 is Disconnected {
                assert(seq![first.1] + Seq::<ClientEvent>::empty() =~= seq![first.1]);
            }
        }
    }
}

/// The dispatcher. `W` is the handle through which the application answers
/// a session.
#[derive(Debug)]
pub struct Monolith<W> {
    port: u16,
    next_client_id: usize,
    writers: HashMap<usize, W>,
}

impl<W> Monolith<W> {
    /// The port that the server listens on.
    pub closed spec fn port_number(&self) -> u16 {
        self.port
    }

    /// The id that the next accepted session gets.
    pub closed spec fn next_id(&self) -> usize {
        self.next_client_id
    }

    /// The table: the handle of each session that is connected.
    pub closed spec fn writers(&self) -> Map<usize, W> {
        self.writers@
    }

    /// Every session in the table has an id that was given out before. The
    /// dispatcher that a builder makes is well formed, and every method
    /// keeps it so.
    pub open spec fn well_formed(&self) -> bool {
        forall|id: usize| #[trigger] self.writers().contains_key(id) ==> id < self.next_id()
    }

    /// The port that the server listens on.
    pub fn port(&self) -> (port: u16)
        ensures
            port == self.port_number(),
    {
        self.port
    }

    /// The table of handles.
    pub fn get_writers(&self) -> (writers: &HashMap<usize, W>)
        ensures
            writers@ == self.writers(),
    {
        &self.writers
    }

    /// Takes a new session into the table under the next id and answers
    /// with that id. Ids count up from 0 and none is given twice. When the
    /// ids are used up, the session is refused and nothing changes.
    pub fn accept_client(&mut self, writer: W) -> (id: Option<usize>)
        requires
            old(self).well_formed(),
        ensures
            final(self).well_formed(),
            id == if old(self).next_id() < usize::MAX {
                Some(old(self).next_id())
            } else {
                None
            },
            id matches Some(given) ==> !old(self).writers().contains_key(given),
            id is Some ==> final(self).next_id() == old(self).next_id() + 1 && final(self).writers()
                == old(self).writers().insert(old(self).next_id(), writer),
            id is None ==> final(self).next_id() == old(self).next_id() && final(self).writers()
                == old(self).writers(),
            final(self).port_number() == old(self).port_number(),
    {
        if self.next_client_id == usize::MAX {
            return None;
        }
        let id = self.next_client_id;
        self.writers.insert(id, writer);
        self.next_client_id = id + 1;
        assert forall|other: usize| #[trigger] self.writers().contains_key(other) implies other
            < self.next_id() by {
            if other != id {
                assert(old(self).writers().contains_key(other));
            }
        }
        Some(id)
    }
}

impl<W: Clone> Monolith<W> {
    /// Takes the next arrival and answers with what the application gets:
    /// the event with a handle of its session, or nothing where the session
    /// is not in the table. With its `Disconnected` a session leaves the
    /// table.
    pub fn recv_next(&mut self, id: usize, event: ClientEvent) -> (next: Option<
        (W, ClientEvent),
    >)
        requires
            old(self).well_formed(),
        ensures
            final(self).well_formed(),
            next is Some <==> old(self).writers().contains_key(id),
            next matches Some((writer, handed)) ==> handed == event && cloned(
                old(self).writers()[id],
                writer,
            ),
            final(self).writers().dom() == registered_after(old(self).writers().dom(), (id, event)),
            forall|other: usize| #[trigger]
                final(self).writers().contains_key(other) ==> final(self).writers()[other] == old(
                    self,
                ).writers()[other],
            final(self).next_id() == old(self).next_id(),
            final(self).port_number() == old(self).port_number(),
    {
        let last = match &event {
            ClientEvent::Disconnected => true,
            _ => false,
        };
        if last {
            let removed = self.writers.remove(&id);
            assert(self.writers@.dom() =~= old(self).writers@.dom().remove(id));
            assert forall|other: usize| #[trigger] self.writers().contains_key(other) implies other
                < self.next_id() by {
                assert(old(self).writers().contains_key(other));
            }
            match removed {
                Some(writer) => Some((writer, event)),
                None => None,
            }
        } else {
            let found = self.writers.get(&id);
            match found {
                Some(writer) => Some((writer.clone(), event)),
                None => None,
            }
        }
    }
}

} // verus!
