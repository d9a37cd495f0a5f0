//! The transport actor: the decisions of one connection.
//!
//! The actor stands between the message transport of one client and the
//! rest of the server. It never touches the transport itself: its caller
//! reads and writes, tells the actor what happened, and does what the actor
//! answers. A connection begins `Connecting`, is `Active` once the channel
//! in both directions is there, and ends `Disconnected`, for good.

use vstd::prelude::*;

use crate::gui::Item;
use crate::session::outgoing;
use crate::session::remembered;
use crate::session::Session;
use crate::types::patch_models;
use crate::types::ClientAction;
use crate::types::ClientEvent;

verus! {

/// Where a connection stands.
#[derive(Debug, PartialEq, Eq, Clone, Copy, Structural)]
pub enum Phase {
    /// The handshake with the client is under way.
    Connecting,
    /// Frames flow in both directions.
    Active,
    /// The connection is over.
    Disconnected,
}

/// What one read of the transport gave.
#[derive(Debug)]
pub enum Inbound {
    /// A frame that holds these events, in this order.
    Events(Vec<ClientEvent>),
    /// A frame that holds no list of events.
    Malformed,
    /// A frame that is not meant for the session, such as a ping.
    Control,
    /// The read failed.
    Failed,
    /// The client closed the connection.
    Closed,
}

/// What the application asks of a connection.
#[derive(Debug)]
pub enum Command {
    /// Show this tree.
    Render(Item),
}

/// The events of `events`, each marked as coming from session `id`.
pub open spec fn tagged(id: usize, events: Seq<ClientEvent>) -> Seq<(usize, ClientEvent)> {
    Seq::new(events.len(), |i: int| (id, events[i]))
}

/// What an actor of session `id` in `phase` passes on to the dispatcher
/// after a read: the events of a frame in their order, nothing for a frame
/// that it cannot use, and the one made-up `Disconnected` when the
/// connection ends. An actor that is not active passes nothing on.
pub open spec fn forwarded(id: usize, phase: Phase, inbound: Inbound) -> Seq<
    (usize, ClientEvent),
> {
    if phase == Phase::Active {
        match inbound {
            Inbound::Events(events) => tagged(id, events@),
            Inbound::Malformed => Seq::empty(),
            Inbound::Control => Seq::empty(),
            Inbound::Failed => seq![(id, ClientEvent::Disconnected)],
            Inbound::Closed => seq![(id, ClientEvent::Disconnected)],
        }
    } else {
        Seq::empty()
    }
}

/// The phase after a read: a failed read or a closed connection ends an
/// active connection; nothing else changes the phase.
pub open spec fn phase_after(phase: Phase, inbound: Inbound) -> Phase {
    if phase == Phase::Active && (inbound is Failed || inbound is Closed) {
        Phase::Disconnected
    } else {
        phase
    }
}

/// The actor of one connection: its session id, where it stands, and what
/// the client last received.
#[derive(Debug)]
pub struct Worker {
    id: usize,
    phase: Phase,
    session: Session,
}

impl Worker {
    /// The session id.
    pub closed spec fn session_id(&self) -> usize {
        self.id
    }

    /// Where the connection stands.
    pub closed spec fn current(&self) -> Phase {
        self.phase
    }

    /// The tree that the client last received.
    pub closed spec fn last(&self) -> Option<crate::gui::Tree> {
        self.session.last()
    }

    /// The actor of a connection whose handshake has begun.
    pub fn new(id: usize) -> (worker: Worker)
        ensures
            worker.session_id() == id,
            worker.current() == Phase::Connecting,
            worker.last() is None,
    {
        Worker { id, phase: Phase::Connecting, session: Session::new() }
    }

    /// The session id.
    pub fn id(&self) -> (id: usize)
        ensures
            id == self.session_id(),
    {
        self.id
    }

    /// Where the connection stands.
    pub fn phase(&self) -> (phase: Phase)
        ensures
            phase == self.current(),
    {
        self.phase
    }

    /// The handshake is done: a connecting actor becomes active. In any
    /// other phase nothing changes.
    pub fn upgraded(&mut self)
        ensures
            final(self).current() == if old(self).current() == Phase::Connecting {
                Phase::Active
            } else {
                old(self).current()
            },
            final(self).session_id() == old(self).session_id(),
            final(self).last() == old(self).last(),
    {
        if self.phase == Phase::Connecting {
            self.phase = Phase::Active;
        }
    }

    /// Takes what one read of the transport gave and answers with the
    /// events to pass on to the dispatcher, in order.
    pub fn handle_websocket(&mut self, inbound: Inbound) -> (events: Vec<(usize, ClientEvent)>)
        ensures
            events@ == forwarded(old(self).session_id(), old(self).current(), inbound),
            final(self).current() == phase_after(old(self).current(), inbound),
            final(self).session_id() == old(self).session_id(),
            final(self).last() == old(self).last(),
    {
        let mut events: Vec<(usize, ClientEvent)> = Vec::new();
        if self.phase != Phase::Active {
            return events;
        }
        match inbound {
            Inbound::Events(received) => {
                let ghost frame = received@;
                let id = self.id;
                for event in iter: received
                    invariant
                        iter.seq() == frame,
                        events@ == tagged(id, frame.take(iter.index())),
                {
                    events.push((id, event));
                    assert(events@ =~= tagged(id, frame.take(iter.index() + 1)));
                }
                assert(frame.take(frame.len() as int) =~= frame);
            },
            Inbound::Malformed => {},
            Inbound::Control => {},
            Inbound::Failed => {
                self.phase = Phase::Disconnected;
                events.push((self.id, ClientEvent::Disconnected));
            },
            Inbound::Closed => {
                self.phase = Phase::Disconnected;
                events.push((self.id, ClientEvent::Disconnected));
            },
        }
        events
    }

    /// The way out is gone: a write failed, or nobody holds a handle to the
    /// session any more. An active actor ends and answers with the one
    /// `Disconnected` to pass on; in any other phase nothing happens.
    pub fn writer_gone(&mut self) -> (event: Option<(usize, ClientEvent)>)
        ensures
            event == if old(self).current() == Phase::Active {
                Some((old(self).session_id(), ClientEvent::Disconnected))
            } else {
                None
            },
            final(self).current() == if old(self).current() == Phase::Active {
                Phase::Disconnected
            } else {
                old(self).current()
            },
            final(self).session_id() == old(self).session_id(),
            final(self).last() == old(self).last(),
    {
        if self.phase == Phase::Active {
            self.phase = Phase::Disconnected;
            Some((self.id, ClientEvent::Disconnected))
        } else {
            None
        }
    }

    /// Carries out a command of the application. An active actor renders
    /// and answers with the batch to write as one frame, if there is one;
    /// in any other phase the command is dropped.
    pub fn handle_command(&mut self, command: Command) -> (frame: Option<Vec<ClientAction>>)
        ensures
            old(self).current() != Phase::Active ==> frame is None && final(self).last() == old(
                self,
            ).last(),
            old(self).current() == Phase::Active ==> {
                &&& frame is None <==> outgoing(old(self).last(), command->Render_0@).len() == 0
                &&& frame matches Some(batch) ==> patch_models(batch@) == outgoing(
                    old(self).last(),
                    command->Render_0@,
                )
                &&& final(self).last() == remembered(old(self).last(), command->Render_0@)
            },
            final(self).current() == old(self).current(),
            final(self).session_id() == old(self).session_id(),
    {
        if self.phase != Phase::Active {
            return None;
        }
        match command {
            Command::Render(root) => self.session.render(root),
        }
    }
}

} // verus!
