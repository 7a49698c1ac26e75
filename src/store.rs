use crate::channel::{offer, ChannelModel, Subscription};
use crate::reducer::{fold, Duplicate, Reducer, Snapshot, Transition};
use vstd::prelude::*;

verus! {

/// What a store holds: the ordered log of every emitted event, and one
/// channel per registered subscriber, in order of registration.
pub ghost struct StoreModel<E> {
    pub history: Seq<E>,
    pub subscribers: Seq<ChannelModel<E>>,
}

/// The store after `event` is emitted: appended to the log and offered to
/// every registered subscriber.
pub open spec fn emitted<E>(m: StoreModel<E>, event: E) -> StoreModel<E> {
    StoreModel {
        history: m.history.push(event),
        subscribers: m.subscribers.map_values(|c: ChannelModel<E>| offer(c, event)),
    }
}

/// The store after `events` are emitted one after the other.
pub open spec fn emitted_all<E>(m: StoreModel<E>, events: Seq<E>) -> StoreModel<E>
    decreases events.len(),
{
    if events.len() == 0 {
        m
    } else {
        emitted_all(emitted(m, events[0]), events.drop_first())
    }
}

/// The store after `subscriber` is registered. Nothing already in the log is
/// handed to it.
pub open spec fn added<E>(m: StoreModel<E>, subscriber: ChannelModel<E>) -> StoreModel<E> {
    StoreModel { history: m.history, subscribers: m.subscribers.push(subscriber) }
}

/// The event that the `index`-th subscriber receives next, if any.
pub open spec fn next_for<E>(m: StoreModel<E>, index: int) -> Option<E> {
    let c = m.subscribers[index];
    if c.pending.len() == 0 {
        None
    } else {
        Some(c.pending[0])
    }
}

/// The store after the `index`-th subscriber has received its next event.
pub open spec fn received<E>(m: StoreModel<E>, index: int) -> StoreModel<E> {
    let c = m.subscribers[index];
    if c.pending.len() == 0 {
        m
    } else {
        StoreModel {
            history: m.history,
            subscribers: m.subscribers.update(
                index,
                ChannelModel { pending: c.pending.drop_first(), closed: c.closed },
            ),
        }
    }
}

/// Logs events and fans each one out to the registered subscribers.
pub trait Store<E: Duplicate>: Sized {
    spec fn model(&self) -> StoreModel<E>;

    /// Registers a subscriber; it receives only events emitted from now on.
    fn add(&mut self, subscriber: Subscription<E>)
        ensures
            final(self).model() == added(old(self).model(), subscriber@),
    ;

    /// Appends `event` to the log and offers a copy to every subscriber. A
    /// subscriber whose channel is closed is skipped without error.
    fn emit(&mut self, event: E)
        ensures
            final(self).model() == emitted(old(self).model(), event),
    ;

    /// A copy of the whole log, oldest event first.
    fn history(&self) -> (r: Vec<E>)
        ensures
            r@ == self.model().history,
    ;
}

/// The in-memory store: a log held in a vector and the subscribers' channels.
pub struct TestingStore<E> {
    events: Vec<E>,
    subscribers: Vec<Subscription<E>>,
}

impl<E: Duplicate> TestingStore<E> {
    pub fn new() -> (r: Self)
        ensures
            r.model().history == Seq::<E>::empty(),
            r.model().subscribers == Seq::<ChannelModel<E>>::empty(),
    {
        let r = TestingStore { events: Vec::new(), subscribers: Vec::new() };
        assert(r.model().subscribers =~= Seq::<ChannelModel<E>>::empty());
        r
    }

    /// Number of registered subscribers.
    pub fn subscriber_count(&self) -> (r: usize)
        ensures
            r == self.model().subscribers.len(),
    {
        self.subscribers.len()
    }

    /// Takes the oldest event still waiting for the `index`-th subscriber,
    /// as its processing loop would.
    pub fn receive(&mut self, index: usize) -> (r: Option<E>)
        requires
            index < old(self).model().subscribers.len(),
        ensures
            final(self).model() == received(old(self).model(), index as int),
            r == next_for(old(self).model(), index as int),
    {
        let ghost before = self.model();
        let r = self.subscribers[index].recv();
        assert(self.model().subscribers =~= received(before, index as int).subscribers);
        r
    }

    /// Runs the `index`-th subscriber's processing loop until its channel is
    /// empty, applying each waiting event to `reducer` in the order emitted.
    pub fn drain_into<T: Snapshot, F: Transition<T, E>>(
        &mut self,
        index: usize,
        reducer: &mut Reducer<T, E, F>,
    )
        requires
            index < old(self).model().subscribers.len(),
        ensures
            final(reducer).state() == fold::<T, E, F>(
                old(reducer).transition(),
                old(reducer).state(),
                old(self).model().subscribers[index as int].pending,
            ),
            final(reducer).transition() == old(reducer).transition(),
            final(self).model() == (StoreModel {
                subscribers: old(self).model().subscribers.update(
                    index as int,
                    ChannelModel {
                        pending: Seq::<E>::empty(),
                        closed: old(self).model().subscribers[index as int].closed,
                    },
                ),
                ..old(self).model()
            }),
    {
        let ghost s0 = self.model();
        let ghost i = index as int;
        loop
            invariant
                i == index as int,
                index < self.model().subscribers.len(),
                reducer.transition() == old(reducer).transition(),
                self.model().history == s0.history,
                self.model().subscribers.len() == s0.subscribers.len(),
                self.model().subscribers[i].closed == s0.subscribers[i].closed,
                forall|j: int|
                    0 <= j < s0.subscribers.len() && j != i ==> #[trigger] self.model().subscribers[j]
                        == s0.subscribers[j],
                fold::<T, E, F>(reducer.transition(), reducer.state(), self.model().subscribers[i].pending)
                    == fold::<T, E, F>(old(reducer).transition(), old(reducer).state(), s0.subscribers[i].pending),
            ensures
                self.model().subscribers[i].pending.len() == 0,
            decreases self.model().subscribers[i].pending.len(),
        {
            match self.receive(index) {
                Some(event) => {
                    reducer.apply(event);
                },
                None => {
                    break ;
                },
            }
        }
        assert(self.model().subscribers[i].pending =~= Seq::<E>::empty());
        assert(self.model().subscribers =~= s0.subscribers.update(
            i,
            ChannelModel { pending: Seq::<E>::empty(), closed: s0.subscribers[i].closed },
        ));
    }
}

impl<E: Duplicate> Store<E> for TestingStore<E> {
    closed spec fn model(&self) -> StoreModel<E> {
        StoreModel {
            history: self.events@,
            subscribers: self.subscribers@.map_values(|s: Subscription<E>| s@),
        }
    }

    fn add(&mut self, subscriber: Subscription<E>) {
        self.subscribers.push(subscriber);
        assert(self.model().subscribers =~= old(self).model().subscribers.push(subscriber@));
    }

    fn emit(&mut self, event: E) {
        let ghost before = old(self).model();
        let n = self.subscribers.len();
        let mut i: usize = 0;
        while i < n
            invariant
                n == self.subscribers.len(),
                i <= n,
                self.events@ == before.history,
                before.subscribers.len() == n,
                forall|j: int|
                    0 <= j < i ==> #[trigger] self.subscribers@[j]@ == offer(
                        before.subscribers[j],
                        event,
                    ),
                forall|j: int| i <= j < n ==> #[trigger] self.subscribers@[j]@ == before.subscribers[j],
            decreases n - i,
        {
            let copy = event.duplicate();
            self.subscribers[i].send(copy);
            i = i + 1;
        }
        self.events.push(event);
        assert(self.model().subscribers =~= before.subscribers.map_values(
            |c: ChannelModel<E>| offer(c, event),
        ));
    }

    fn history(&self) -> (r: Vec<E>) {
        let mut r: Vec<E> = Vec::new();
        let mut i: usize = 0;
        while i < self.events.len()
            invariant
                i <= self.events.len(),
                r@ == self.events@.subrange(0, i as int),
            decreases self.events.len() - i,
        {
            r.push(self.events[i].duplicate());
            i = i + 1;
        }
        assert(r@ =~= self.events@);
        r
    }
}

} // verus!
