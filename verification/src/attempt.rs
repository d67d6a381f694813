//! One discovery attempt as a state machine.
//!
//! The machine decides; its caller owns the socket and the clock. The caller
//! reports what happened as an [`Event`] and carries out the [`Action`] that
//! comes back. An attempt runs once: it never returns to `Idle`, and once it
//! has ended every further event is ignored.

use crate::client::{
    outcome_view, parse_reply, reply_model, Discovered, DiscoveryError, DiscoveryResult,
};
use crate::codec::{encode, DiscoveryRequest};
use crate::wire::request_wire;
use vstd::prelude::*;

verus! {

/// Where an attempt stands.
#[derive(Clone, Copy, Debug, PartialEq, Eq, Structural)]
pub enum Phase {
    /// Nothing was sent yet.
    Idle,
    /// The request is out and a reply is awaited.
    Sent,
    /// A reply came and named a server.
    Succeeded,
    /// The socket failed, or a reply came that could not be used.
    Failed(DiscoveryError),
    /// No reply came in time.
    TimedOut,
}

/// Whether an attempt in `phase` has ended.
pub open spec fn is_terminal(phase: Phase) -> bool {
    phase is Succeeded || phase is Failed || phase is TimedOut
}

/// What the caller reports to the machine.
#[derive(Debug, PartialEq, Eq)]
pub enum Event {
    /// The caller is ready to send.
    Begin,
    /// The endpoint could not be acquired or configured, or sending failed.
    SocketFailed,
    /// A datagram arrived; this is its payload.
    Datagram(Vec<u8>),
    /// This many milliseconds went by since the request was sent, and no
    /// datagram arrived.
    Waited(u64),
}

/// An event as a mathematical value.
pub enum EventView {
    Begin,
    SocketFailed,
    Datagram(Seq<u8>),
    Waited(u64),
}

impl View for Event {
    type V = EventView;

    open spec fn view(&self) -> EventView {
        match self {
            Event::Begin => EventView::Begin,
            Event::SocketFailed => EventView::SocketFailed,
            Event::Datagram(payload) => EventView::Datagram(payload@),
            Event::Waited(ms) => EventView::Waited(*ms),
        }
    }
}

/// What the machine asks of its caller.
#[derive(Debug, PartialEq, Eq)]
pub enum Action {
    /// Broadcast this datagram to the discovery port, then wait for one
    /// reply, at most for the time allowed.
    Broadcast(Vec<u8>),
    /// Keep waiting for a reply, at most for this many milliseconds more.
    Wait(u64),
    /// Release the endpoint and hand this outcome to whoever asked.
    Finish(Result<DiscoveryResult, DiscoveryError>),
    /// The event means nothing in this phase; there is nothing to do.
    Ignore,
}

/// An action as a mathematical value.
pub enum ActionView {
    Broadcast(Seq<u8>),
    Wait(u64),
    Finish(Result<Discovered, DiscoveryError>),
    Ignore,
}

impl View for Action {
    type V = ActionView;

    open spec fn view(&self) -> ActionView {
        match self {
            Action::Broadcast(frame) => ActionView::Broadcast(frame@),
            Action::Wait(ms) => ActionView::Wait(*ms),
            Action::Finish(outcome) => ActionView::Finish(outcome_view(*outcome)),
            Action::Ignore => ActionView::Ignore,
        }
    }
}

/// The phase that follows and the action that is due, when `event` is
/// reported to an attempt that stands in `phase`, asks for `names` and
/// allows `timeout_ms` milliseconds for the reply.
pub open spec fn next(names: Seq<Seq<u8>>, timeout_ms: u64, phase: Phase, event: EventView) -> (
    Phase,
    ActionView,
) {
    match phase {
        Phase::Idle => match event {
            EventView::Begin => (Phase::Sent, ActionView::Broadcast(request_wire(names))),
            EventView::SocketFailed => (
                Phase::Failed(DiscoveryError::SocketError),
                ActionView::Finish(Err(DiscoveryError::SocketError)),
            ),
            _ => (Phase::Idle, ActionView::Ignore),
        },
        Phase::Sent => match event {
            EventView::Begin => (Phase::Sent, ActionView::Ignore),
            EventView::SocketFailed => (
                Phase::Failed(DiscoveryError::SocketError),
                ActionView::Finish(Err(DiscoveryError::SocketError)),
            ),
            EventView::Datagram(payload) => match reply_model(names, payload) {
                Ok(found) => (Phase::Succeeded, ActionView::Finish(Ok(found))),
                Err(e) => (Phase::Failed(e), ActionView::Finish(Err(e))),
            },
            EventView::Waited(ms) => if ms >= timeout_ms {
                (Phase::TimedOut, ActionView::Finish(Err(DiscoveryError::Timeout)))
            } else {
                (Phase::Sent, ActionView::Wait((timeout_ms - ms) as u64))
            },
        },
        _ => (phase, ActionView::Ignore),
    }
}

/// One discovery attempt: what it asks for, how long it waits, and where it
/// stands.
#[derive(Debug)]
pub struct Attempt {
    request: DiscoveryRequest,
    timeout_ms: u64,
    phase: Phase,
}

impl Attempt {
    /// The names that the attempt asks for.
    pub closed spec fn names(&self) -> Seq<Seq<u8>> {
        self.request.names()
    }

    /// The time allowed for the reply, in milliseconds.
    pub closed spec fn timeout(&self) -> u64 {
        self.timeout_ms
    }

    /// Where the attempt stands.
    pub closed spec fn state(&self) -> Phase {
        self.phase
    }

    /// A fresh attempt. Nothing is sent before the first `Begin`.
    pub fn new(request: DiscoveryRequest, timeout_ms: u64) -> (attempt: Attempt)
        ensures
            attempt.names() == request.names(),
            attempt.timeout() == timeout_ms,
            attempt.state() == Phase::Idle,
    {
        Attempt { request, timeout_ms, phase: Phase::Idle }
    }

    /// Where the attempt stands.
    pub fn phase(&self) -> (phase: Phase)
        ensures
            phase == self.state(),
    {
        self.phase
    }

    /// Takes one event and says what to do next.
    pub fn step(&mut self, event: Event) -> (action: Action)
        ensures
            final(self).names() == old(self).names(),
            final(self).timeout() == old(self).timeout(),
            (final(self).state(), action@) == next(
                old(self).names(),
                old(self).timeout(),
                old(self).state(),
                event@,
            ),
    {
        match self.phase {
            Phase::Idle => match event {
                Event::Begin => {
                    self.phase = Phase::Sent;
                    Action::Broadcast(encode(&self.request))
                },
                Event::SocketFailed => {
                    self.phase = Phase::Failed(DiscoveryError::SocketError);
                    Action::Finish(Err(DiscoveryError::SocketError))
                },
                _ => Action::Ignore,
            },
            Phase::Sent => match event {
                Event::Begin => Action::Ignore,
                Event::SocketFailed => {
                    self.phase = Phase::Failed(DiscoveryError::SocketError);
                    Action::Finish(Err(DiscoveryError::SocketError))
                },
                Event::Datagram(payload) => {
                    let outcome = parse_reply(&self.request, payload.as_slice());
                    match &outcome {
                        Ok(_) => {
                            self.phase = Phase::Succeeded;
                        },
                        Err(e) => {
                            self.phase = Phase::Failed(*e);
                        },
                    }
                    Action::Finish(outcome)
                },
                Event::Waited(ms) => {
                    if ms >= self.timeout_ms {
                        self.phase = Phase::TimedOut;
                        Action::Finish(Err(DiscoveryError::Timeout))
                    } else {
                        Action::Wait(self.timeout_ms - ms)
                    }
                },
            },
            _ => Action::Ignore,
        }
    }
}

} // verus!
