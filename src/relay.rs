//! The relay's decisions against the shared registry: admitting a connection
//! after its handshake, and acting on one event of a connection's reader.
use vstd::prelude::*;
use crate::reader::{step, transition, Action, Payload, ReadEvent, ReaderState};
use crate::registry::Registry;

verus! {

/// How the protocol upgrade of an accepted stream ended: with the new client's
/// send handle, or refused (malformed request, wrong protocol).
#[derive(Debug)]
pub enum Handshake<T> {
    Upgraded(T),
    Refused,
}

/// What the listener did with a handshake. Either way it goes on accepting.
#[derive(Debug, Clone, Copy, PartialEq, Eq, Structural)]
pub enum Admission {
    /// The client now receives broadcasts under this identity.
    Registered(u64),
    /// The stream is dropped; the registry is unchanged.
    Rejected,
}

/// What a reader's caller does after one event.
#[derive(Debug, PartialEq, Eq)]
pub enum Dispatch<T> {
    /// Send the payload to each of these clients; a failed send is skipped.
    Deliver { payload: Payload, targets: Vec<u64> },
    /// Nothing to send.
    Idle,
    /// The client was removed; this is its released send handle, if it was
    /// still registered.
    Released(Option<T>),
}

/// Registers the client of a completed handshake; a refused one changes nothing.
pub fn accept_client<T>(registry: &mut Registry<T>, handshake: Handshake<T>) -> (r: Admission)
    requires
        old(registry).wf(),
        handshake is Upgraded ==> old(registry)@.issued < u64::MAX,
    ensures
        final(registry).wf(),
        match handshake {
            Handshake::Upgraded(client) => {
                &&& r == Admission::Registered(old(registry)@.issued as u64)
                &&& final(registry)@ == old(registry)@.connected(client)
            },
            Handshake::Refused => r == Admission::Rejected && final(registry)@ == old(registry)@,
        },
{
    match handshake {
        Handshake::Upgraded(client) => Admission::Registered(registry.insert(client)),
        Handshake::Refused => Admission::Rejected,
    }
}

/// Acts on one event of the reader of client `from`: a text or binary frame
/// is delivered to every other registered client, a control frame is dropped,
/// and a close, an error or the end of the stream removes the client.
pub fn dispatch<T>(registry: &mut Registry<T>, from: u64, state: ReaderState, event: ReadEvent) -> (r: (
    ReaderState,
    Dispatch<T>,
))
    requires
        old(registry).wf(),
    ensures
        final(registry).wf(),
        r.0 == transition(state, event).0,
        match transition(state, event).1 {
            Action::Broadcast(p) => {
                &&& final(registry)@ == old(registry)@
                &&& r.1 is Deliver
                &&& r.1->payload == p
                &&& r.1->targets@.no_duplicates()
                &&& r.1->targets@.to_set() == old(registry)@.targets(from)
            },
            Action::Ignore => r.1 is Idle && final(registry)@ == old(registry)@,
            Action::Teardown => {
                &&& r.1 == Dispatch::<T>::Released(old(registry)@.lookup(from))
                &&& final(registry)@ == old(registry)@.disconnected(from)
            },
        },
{
    let (next, action) = step(state, event);
    match action {
        Action::Broadcast(payload) => {
            let targets = registry.broadcast_targets(from);
            (next, Dispatch::Deliver { payload, targets })
        },
        Action::Ignore => (next, Dispatch::Idle),
        Action::Teardown => (next, Dispatch::Released(registry.remove(from))),
    }
}

} // verus!
