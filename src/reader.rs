//! The per-connection reader: what to do with each inbound event.
use vstd::prelude::*;

verus! {

/// Why a peer closed its connection: the close code and its text.
#[derive(Debug, PartialEq, Eq)]
pub struct CloseReason {
    pub code: u16,
    pub reason: String,
}

/// An inbound frame as the application sees it.
#[derive(Debug, PartialEq, Eq)]
pub enum Frame {
    Text(String),
    Binary(Vec<u8>),
    Close(Option<CloseReason>),
    /// A protocol-control frame (ping, pong, raw): never forwarded.
    Other,
}

/// What a broadcast carries: the payload of a text or binary frame, unchanged.
#[derive(Debug, Clone, PartialEq, Eq)]
pub enum Payload {
    Text(String),
    Binary(Vec<u8>),
}

/// What the reader of one connection observes next.
#[derive(Debug, PartialEq, Eq)]
pub enum ReadEvent {
    Frame(Frame),
    /// Reading failed: a malformed frame or a transport error.
    Error,
    /// The stream ended.
    End,
}

/// The reader's lifecycle: it reads while `Open` and never leaves `Terminated`.
#[derive(Debug, Clone, Copy, PartialEq, Eq, Structural)]
pub enum ReaderState {
    Open,
    Terminated,
}

/// What the reader does after an event.
#[derive(Debug, PartialEq, Eq)]
pub enum Action {
    /// Forward the payload to the other clients.
    Broadcast(Payload),
    /// Nothing to do; keep reading (or stay terminated).
    Ignore,
    /// Remove this client from the registry and stop reading.
    Teardown,
}

/// The payload that a frame forwards: text and binary frames only.
pub open spec fn payload_of(frame: Frame) -> Option<Payload> {
    match frame {
        Frame::Text(s) => Some(Payload::Text(s)),
        Frame::Binary(b) => Some(Payload::Binary(b)),
        _ => None,
    }
}

/// Whether an event ends the connection: a close frame, an error, or the end
/// of the stream.
pub open spec fn is_terminal(event: ReadEvent) -> bool {
    match event {
        ReadEvent::Frame(Frame::Close(_)) => true,
        ReadEvent::Frame(_) => false,
        ReadEvent::Error => true,
        ReadEvent::End => true,
    }
}

/// The reader's transition on one event: the next state and the action.
pub open spec fn transition(state: ReaderState, event: ReadEvent) -> (ReaderState, Action) {
    match state {
        ReaderState::Terminated => (ReaderState::Terminated, Action::Ignore),
        ReaderState::Open => {
            if is_terminal(event) {
                (ReaderState::Terminated, Action::Teardown)
            } else {
                match event {
                    ReadEvent::Frame(f) => match payload_of(f) {
                        Some(p) => (ReaderState::Open, Action::Broadcast(p)),
                        None => (ReaderState::Open, Action::Ignore),
                    },
                    _ => (ReaderState::Open, Action::Ignore),
                }
            }
        },
    }
}

impl Frame {
    /// The payload to forward, for a text or binary frame; none for the others.
    pub fn into_payload(self) -> (r: Option<Payload>)
        ensures
            r == payload_of(self),
    {
        match self {
            Frame::Text(s) => Some(Payload::Text(s)),
            Frame::Binary(b) => Some(Payload::Binary(b)),
            _ => None,
        }
    }
}

/// Takes the reader one event further.
pub fn step(state: ReaderState, event: ReadEvent) -> (r: (ReaderState, Action))
    ensures
        r == transition(state, event),
{
    match state {
        ReaderState::Terminated => (ReaderState::Terminated, Action::Ignore),
        ReaderState::Open => match event {
            ReadEvent::Frame(Frame::Close(_)) => (ReaderState::Terminated, Action::Teardown),
            ReadEvent::Frame(f) => match f.into_payload() {
                Some(p) => (ReaderState::Open, Action::Broadcast(p)),
                None => (ReaderState::Open, Action::Ignore),
            },
            ReadEvent::Error => (ReaderState::Terminated, Action::Teardown),
            ReadEvent::End => (ReaderState::Terminated, Action::Teardown),
        },
    }
}

} // verus!
