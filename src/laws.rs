//! Laws of the relay, proved over the registry model and the reader's
//! transition function that the executable functions' contracts speak of.
//!
//! Callers hold the registry's lock around each call, so concurrent connects,
//! disconnects and broadcasts act on the registry one at a time, in some
//! interleaving; `run` applies such an interleaving to a model.
use vstd::prelude::*;
use crate::reader::{is_terminal, payload_of, transition, Action, Frame, ReadEvent, ReaderState};
use crate::registry::RegistryModel;

verus! {

/// One operation on the registry, as a caller performs it under the lock.
pub enum Op<T> {
    /// A handshake completed; the client is registered.
    Connect(T),
    /// A reader tore its client down.
    Disconnect(u64),
    /// A reader took the targets of a broadcast from this client.
    Broadcast(u64),
}

/// The model after one operation; a broadcast leaves the membership as it is.
pub open spec fn apply<T>(m: RegistryModel<T>, op: Op<T>) -> RegistryModel<T> {
    match op {
        Op::Connect(c) => m.connected(c),
        Op::Disconnect(id) => m.disconnected(id),
        Op::Broadcast(_) => m,
    }
}

/// The model after a sequence of operations, applied in order.
pub open spec fn run<T>(m: RegistryModel<T>, ops: Seq<Op<T>>) -> RegistryModel<T>
    decreases ops.len(),
{
    if ops.len() == 0 {
        m
    } else {
        apply(run(m, ops.drop_last()), ops.last())
    }
}

/// Running a sequence never lowers the count of issued identities, raises it
/// at most by the sequence's length, and keeps the model well formed.
pub proof fn lemma_run_wf<T>(m: RegistryModel<T>, ops: Seq<Op<T>>)
    requires
        m.wf(),
        m.issued + ops.len() <= u64::MAX,
    ensures
        run(m, ops).wf(),
        m.issued <= run(m, ops).issued <= m.issued + ops.len(),
    decreases ops.len(),
{
    if ops.len() > 0 {
        let prev = run(m, ops.drop_last());
        lemma_run_wf(m, ops.drop_last());
        let next = run(m, ops);
        assert forall|k: u64| #[trigger] next.clients.contains_key(k) implies k < next.issued by {
            if prev.clients.contains_key(k) {
            }
        }
    }
}

/// Running two sequences one after the other is running their concatenation.
pub proof fn lemma_run_concat<T>(m: RegistryModel<T>, a: Seq<Op<T>>, b: Seq<Op<T>>)
    ensures
        run(m, a + b) == run(run(m, a), b),
    decreases b.len(),
{
    if b.len() == 0 {
        assert(a + b =~= a);
    } else {
        assert((a + b).drop_last() =~= a + b.drop_last());
        assert((a + b).last() == b.last());
        lemma_run_concat(m, a, b.drop_last());
    }
}

/// An identity that was handed out and is not registered never comes back:
/// later connects get fresh identities.
pub proof fn lemma_absent_stays_absent<T>(m: RegistryModel<T>, ops: Seq<Op<T>>, id: u64)
    requires
        m.wf(),
        m.issued + ops.len() <= u64::MAX,
        id < m.issued,
        !m.clients.contains_key(id),
    ensures
        !run(m, ops).clients.contains_key(id),
    decreases ops.len(),
{
    if ops.len() > 0 {
        lemma_absent_stays_absent(m, ops.drop_last(), id);
        lemma_run_wf(m, ops.drop_last());
    }
}

/// Fan-out: a text or binary frame from a registered client is broadcast with
/// its payload unchanged, its reader stays open, and the broadcast reaches
/// every other registered client; the sender gets no echo.
pub proof fn lemma_fan_out<T>(m: RegistryModel<T>, from: u64, frame: Frame)
    requires
        m.clients.contains_key(from),
        payload_of(frame) is Some,
    ensures
        transition(ReaderState::Open, ReadEvent::Frame(frame)) == (
        ReaderState::Open,
        Action::Broadcast(payload_of(frame)->0),
        ),
        forall|k: u64| m.clients.contains_key(k) && k != from ==> #[trigger] m.targets(from).contains(k),
        !m.targets(from).contains(from),
{
}

/// Isolation: a close, an error or the end of a client's stream tears the
/// client down. Afterwards it is not registered, no broadcast targets it, its
/// reader acts on nothing more, and every other client keeps its handle and
/// the broadcasts it was getting, also after any later operations.
pub proof fn lemma_isolation<T>(m: RegistryModel<T>, id: u64, event: ReadEvent, later: Seq<Op<T>>)
    requires
        m.wf(),
        m.clients.contains_key(id),
        is_terminal(event),
        m.issued + later.len() <= u64::MAX,
    ensures
        transition(ReaderState::Open, event) == (ReaderState::Terminated, Action::Teardown),
        forall|e: ReadEvent|
            #[trigger] transition(ReaderState::Terminated, e) == (ReaderState::Terminated, Action::Ignore),
        !m.disconnected(id).clients.contains_key(id),
        forall|from: u64| !(#[trigger] m.disconnected(id).targets(from)).contains(id),
        forall|k: u64| k != id ==> #[trigger] m.disconnected(id).lookup(k) == m.lookup(k),
        forall|from: u64|
            from != id ==> #[trigger] m.disconnected(id).targets(from) == m.targets(from).remove(id),
        !run(m.disconnected(id), later).clients.contains_key(id),
{
    assert forall|from: u64| from != id implies #[trigger] m.disconnected(id).targets(from) == m.targets(
        from,
    ).remove(id) by {
        assert(m.disconnected(id).targets(from) =~= m.targets(from).remove(id));
    }
    lemma_absent_stays_absent(m.disconnected(id), later, id);
}

/// Removing an identity twice leaves the registry as removing it once does.
pub proof fn lemma_remove_idempotent<T>(m: RegistryModel<T>, id: u64)
    ensures
        m.disconnected(id).disconnected(id) == m.disconnected(id),
{
    assert(m.disconnected(id).disconnected(id).clients =~= m.disconnected(id).clients);
}

/// A control frame is not forwarded: the reader stays open and does nothing.
pub proof fn lemma_control_frame_ignored()
    ensures
        transition(ReaderState::Open, ReadEvent::Frame(Frame::Other)) == (ReaderState::Open, Action::Ignore),
{
}

/// Any interleaving of connects, disconnects and broadcasts keeps the registry
/// consistent: every registered identity was handed out, each connect gets an
/// identity that no earlier connect got and that is not registered, and an
/// identity that was handed out and then removed is never registered again,
/// so no later broadcast reaches it.
pub proof fn lemma_interleaving<T>(m: RegistryModel<T>, ops: Seq<Op<T>>)
    requires
        m.wf(),
        m.issued + ops.len() <= u64::MAX,
    ensures
        run(m, ops).wf(),
        forall|i: int|
            0 <= i < ops.len() && #[trigger] ops[i] is Connect ==> {
                let before = run(m, ops.take(i));
                &&& !before.clients.contains_key(before.issued as u64)
                &&& run(m, ops.take(i + 1)).clients.contains_key(before.issued as u64)
            },
        forall|i: int, j: int|
            0 <= i < j < ops.len() && #[trigger] ops[i] is Connect && #[trigger] ops[j] is Connect
                ==> run(m, ops.take(i)).issued < run(m, ops.take(j)).issued,
        forall|i: int, j: int|
            0 <= i < j <= ops.len() && #[trigger] ops[i] is Disconnect && ops[i]->Disconnect_0 < run(
                m,
                ops.take(i),
            ).issued ==> !(#[trigger] run(m, ops.take(j))).clients.contains_key(ops[i]->Disconnect_0),
{
    lemma_run_wf(m, ops);
    assert forall|i: int| 0 <= i < ops.len() && #[trigger] ops[i] is Connect implies {
        let before = run(m, ops.take(i));
        &&& !before.clients.contains_key(before.issued as u64)
        &&& run(m, ops.take(i + 1)).clients.contains_key(before.issued as u64)
    } by {
        lemma_run_wf(m, ops.take(i));
        assert(ops.take(i + 1).drop_last() =~= ops.take(i));
    }
    assert forall|i: int, j: int|
        0 <= i < j < ops.len() && #[trigger] ops[i] is Connect && #[trigger] ops[j] is Connect implies run(
        m,
        ops.take(i),
    ).issued < run(m, ops.take(j)).issued by {
        let first = ops.take(i + 1);
        let rest = ops.subrange(i + 1, j);
        assert(ops.take(j) =~= first + rest);
        assert(first.drop_last() =~= ops.take(i));
        lemma_run_concat(m, first, rest);
        lemma_run_wf(m, first.drop_last());
        lemma_run_wf(m, first);
        lemma_run_wf(run(m, first), rest);
    }
    assert forall|i: int, j: int|
        0 <= i < j <= ops.len() && #[trigger] ops[i] is Disconnect && ops[i]->Disconnect_0 < run(
            m,
            ops.take(i),
        ).issued implies !(#[trigger] run(m, ops.take(j))).clients.contains_key(ops[i]->Disconnect_0) by {
        let id = ops[i]->Disconnect_0;
        let first = ops.take(i + 1);
        let rest = ops.subrange(i + 1, j);
        assert(ops.take(j) =~= first + rest);
        assert(first.drop_last() =~= ops.take(i));
        lemma_run_concat(m, first, rest);
        lemma_run_wf(m, first.drop_last());
        lemma_run_wf(m, first);
        lemma_absent_stays_absent(run(m, first), rest, id);
    }
}

} // verus!
