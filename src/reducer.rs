use crate::channel::Subscription;
use vstd::prelude::*;

verus! {

/// A deterministic transition function of a reducer: it folds one event into
/// a state of type `T`. It cannot fail; an event it has no use for leaves the
/// state as it was.
pub trait Transition<T: View, E> {
    /// The state after `event` has been applied to `state`.
    spec fn next(&self, state: T::V, event: E) -> T::V;

    fn apply(&self, state: &mut T, event: E)
        ensures
            final(state)@ == self.next(old(state)@, event),
    ;
}

/// A value that can hand out an independent copy of itself.
pub trait Snapshot: View + Sized {
    fn snapshot(&self) -> (r: Self)
        ensures
            r@ == self@,
    ;
}

/// An event that can be copied, once for the log and once per subscriber.
pub trait Duplicate: Sized {
    fn duplicate(&self) -> (r: Self)
        ensures
            r == *self,
    ;
}

/// The state reached from `state` by applying `events` in order.
pub open spec fn fold<T: View, E, F: Transition<T, E>>(f: F, state: T::V, events: Seq<E>) -> T::V
    decreases events.len(),
{
    if events.len() == 0 {
        state
    } else {
        fold::<T, E, F>(f, f.next(state, events[0]), events.drop_first())
    }
}

/// Folding a concatenation is folding its two parts one after the other.
pub proof fn lemma_fold_append<T: View, E, F: Transition<T, E>>(
    f: F,
    state: T::V,
    first: Seq<E>,
    second: Seq<E>,
)
    ensures
        fold::<T, E, F>(f, state, first + second) == fold::<T, E, F>(
            f,
            fold::<T, E, F>(f, state, first),
            second,
        ),
    decreases first.len(),
{
    if first.len() > 0 {
        assert((first + second).drop_first() =~= first.drop_first() + second);
        lemma_fold_append::<T, E, F>(f, f.next(state, first[0]), first.drop_first(), second);
    } else {
        assert(first + second =~= second);
    }
}

/// Owns one piece of derived state and folds the events it receives into it,
/// one at a time, through its transition function.
pub struct Reducer<T, E, F> {
    data: T,
    reducer: F,
    _event: core::marker::PhantomData<E>,
}

impl<T: Snapshot, E, F: Transition<T, E>> Reducer<T, E, F> {
    /// The current state.
    pub closed spec fn state(&self) -> T::V {
        self.data@
    }

    /// The transition function.
    pub closed spec fn transition(&self) -> F {
        self.reducer
    }

    pub fn new(reducer: F, init: T) -> (r: Self)
        ensures
            r.state() == init@,
            r.transition() == reducer,
    {
        Reducer { data: init, reducer, _event: core::marker::PhantomData }
    }

    /// A fresh channel for a store to deliver this reducer's events into.
    pub fn subscription(&self) -> (r: Subscription<E>)
        ensures
            r@.pending == Seq::<E>::empty(),
            !r@.closed,
    {
        Subscription::new()
    }

    /// A copy of the current state, independent of later events.
    pub fn read(&self) -> (r: T)
        ensures
            r@ == self.state(),
    {
        self.data.snapshot()
    }

    /// Applies one event to the state.
    pub fn apply(&mut self, event: E)
        ensures
            final(self).state() == old(self).transition().next(old(self).state(), event),
            final(self).transition() == old(self).transition(),
    {
        self.reducer.apply(&mut self.data, event);
    }

    /// Receives and applies every event pending on `subscription`, oldest
    /// first, leaving it empty.
    pub fn drain(&mut self, subscription: &mut Subscription<E>)
        ensures
            final(self).state() == fold::<T, E, F>(
                old(self).transition(),
                old(self).state(),
                old(subscription)@.pending,
            ),
            final(self).transition() == old(self).transition(),
            final(subscription)@.pending == Seq::<E>::empty(),
            final(subscription)@.closed == old(subscription)@.closed,
    {
        loop
            invariant
                self.transition() == old(self).transition(),
                subscription@.closed == old(subscription)@.closed,
                fold::<T, E, F>(self.transition(), self.state(), subscription@.pending)
                    == fold::<T, E, F>(
                    old(self).transition(),
                    old(self).state(),
                    old(subscription)@.pending,
                ),
            ensures
                subscription@.pending.len() == 0,
            decreases subscription@.pending.len(),
        {
            match subscription.recv() {
                Some(event) => {
                    self.apply(event);
                },
                None => {
                    break ;
                },
            }
        }
        assert(subscription@.pending =~= Seq::<E>::empty());
    }
}

} // verus!
