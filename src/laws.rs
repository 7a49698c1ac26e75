use crate::channel::ChannelModel;
use crate::reducer::{fold, lemma_fold_append, Reducer, Snapshot, Transition};
use crate::store::{added, emitted, emitted_all, received, StoreModel};
use vstd::prelude::*;

verus! {

/// One operation on a store.
pub ghost enum Operation<E> {
    Add(ChannelModel<E>),
    Emit(E),
    Receive(int),
}

/// The store after one operation. Receiving for a subscriber that is not
/// registered changes nothing.
pub open spec fn step<E>(m: StoreModel<E>, op: Operation<E>) -> StoreModel<E> {
    match op {
        Operation::Add(c) => added(m, c),
        Operation::Emit(e) => emitted(m, e),
        Operation::Receive(i) => if 0 <= i < m.subscribers.len() {
            received(m, i)
        } else {
            m
        },
    }
}

/// The store after the operations `ops`, in order.
pub open spec fn run<E>(m: StoreModel<E>, ops: Seq<Operation<E>>) -> StoreModel<E>
    decreases ops.len(),
{
    if ops.len() == 0 {
        m
    } else {
        run(step(m, ops[0]), ops.drop_first())
    }
}

/// Emitting `events` appends them to the log, keeps every subscriber in
/// place, and queues them, in order, on every open channel.
pub proof fn lemma_emitted_all<E>(m: StoreModel<E>, events: Seq<E>)
    ensures
        emitted_all(m, events).history == m.history + events,
        emitted_all(m, events).subscribers.len() == m.subscribers.len(),
        forall|i: int|
            0 <= i < m.subscribers.len() ==> #[trigger] emitted_all(m, events).subscribers[i] == (
            if m.subscribers[i].closed {
                m.subscribers[i]
            } else {
                ChannelModel { pending: m.subscribers[i].pending + events, closed: false }
            }),
    decreases events.len(),
{
    if events.len() == 0 {
        assert(m.history + events =~= m.history);
        assert forall|i: int| 0 <= i < m.subscribers.len() implies #[trigger] emitted_all(
            m,
            events,
        ).subscribers[i] == (if m.subscribers[i].closed {
            m.subscribers[i]
        } else {
            ChannelModel { pending: m.subscribers[i].pending + events, closed: false }
        }) by {
            assert(m.subscribers[i].pending + events =~= m.subscribers[i].pending);
        }
    } else {
        let m1 = emitted(m, events[0]);
        let rest = events.drop_first();
        lemma_emitted_all(m1, rest);
        assert(m.history.push(events[0]) + rest =~= m.history + events);
        assert forall|i: int| 0 <= i < m.subscribers.len() implies #[trigger] emitted_all(
            m,
            events,
        ).subscribers[i] == (if m.subscribers[i].closed {
            m.subscribers[i]
        } else {
            ChannelModel { pending: m.subscribers[i].pending + events, closed: false }
        }) by {
            assert(m1.subscribers[i] == crate::channel::offer(m.subscribers[i], events[0]));
            assert(m.subscribers[i].pending.push(events[0]) + rest =~= m.subscribers[i].pending
                + events);
        }
    }
}

/// Per-subscriber order: the events emitted while a subscriber's channel is
/// open are queued behind what it already held, in the order emitted, so a
/// reducer draining it applies what was waiting and then exactly those events,
/// in that order.
pub proof fn law_subscriber_fifo<T: View, E, F: Transition<T, E>>(
    m: StoreModel<E>,
    index: int,
    events: Seq<E>,
    f: F,
    state: T::V,
)
    requires
        0 <= index < m.subscribers.len(),
        !m.subscribers[index].closed,
    ensures
        emitted_all(m, events).subscribers[index].pending == m.subscribers[index].pending + events,
        fold::<T, E, F>(f, state, emitted_all(m, events).subscribers[index].pending) == fold::<
            T,
            E,
            F,
        >(f, fold::<T, E, F>(f, state, m.subscribers[index].pending), events),
{
    lemma_emitted_all(m, events);
    lemma_fold_append::<T, E, F>(f, state, m.subscribers[index].pending, events);
}

/// No late replay: a subscriber registered after some events were logged
/// receives exactly what was logged after its registration, behind whatever
/// its channel already held, and nothing from before.
pub proof fn law_no_late_replay<E>(m: StoreModel<E>, subscriber: ChannelModel<E>, events: Seq<E>)
    requires
        !subscriber.closed,
    ensures
        ({
            let after = emitted_all(added(m, subscriber), events);
            after.subscribers[m.subscribers.len() as int].pending == subscriber.pending
                + after.history.subrange(m.history.len() as int, after.history.len() as int)
        }),
{
    let m1 = added(m, subscriber);
    lemma_emitted_all(m1, events);
    let after = emitted_all(m1, events);
    assert(after.history.subrange(m.history.len() as int, after.history.len() as int) =~= events);
}

/// The log only grows: after any operations, the earlier log is a prefix of
/// the later one.
pub proof fn law_history_append_only<E>(m: StoreModel<E>, ops: Seq<Operation<E>>)
    ensures
        run(m, ops).history.len() >= m.history.len(),
        run(m, ops).history.subrange(0, m.history.len() as int) == m.history,
    decreases ops.len(),
{
    if ops.len() > 0 {
        let m1 = step(m, ops[0]);
        law_history_append_only(m1, ops.drop_first());
        let h = run(m, ops).history;
        assert(m1.history.subrange(0, m.history.len() as int) =~= m.history);
        assert(h.subrange(0, m.history.len() as int) =~= h.subrange(0, m1.history.len() as int).subrange(0, m.history.len() as int));
    } else {
        assert(m.history.subrange(0, m.history.len() as int) =~= m.history);
    }
}

/// Two snapshots read from a reducer with no event applied in between are
/// equal.
pub proof fn law_snapshot_idempotent<T: Snapshot, E, F: Transition<T, E>>(
    reducer: Reducer<T, E, F>,
    first: T,
    second: T,
)
    requires
        first@ == reducer.state(),
        second@ == reducer.state(),
    ensures
        first@ == second@,
{
}

/// Read after write: once a subscriber's channel is drained, emitting one
/// event and draining again leaves the reducer with that event applied
/// exactly once.
pub proof fn law_read_after_write<T: View, E, F: Transition<T, E>>(
    m: StoreModel<E>,
    index: int,
    event: E,
    f: F,
    state: T::V,
)
    requires
        0 <= index < m.subscribers.len(),
        !m.subscribers[index].closed,
        m.subscribers[index].pending.len() == 0,
    ensures
        emitted(m, event).subscribers[index].pending == seq![event],
        fold::<T, E, F>(f, state, emitted(m, event).subscribers[index].pending) == f.next(
            state,
            event,
        ),
{
    assert(emitted(m, event).subscribers[index].pending =~= seq![event]);
    assert(seq![event].drop_first() =~= Seq::<E>::empty());
    assert(fold::<T, E, F>(f, f.next(state, event), Seq::<E>::empty()) == f.next(state, event));
}

} // verus!
