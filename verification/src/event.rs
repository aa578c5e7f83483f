//! The queue of UI events that input handling fills and the frame loop empties.
use vstd::prelude::*;

verus! {

/// A first-in first-out queue of events of type `E`.
pub struct EventBus<E> {
    events: Vec<E>,
}

impl<E> EventBus<E> {
    /// The events waiting, oldest first.
    pub closed spec fn pending(&self) -> Seq<E> {
        self.events@
    }

    /// An empty queue.
    pub fn new() -> (bus: Self)
        ensures
            bus.pending() == Seq::<E>::empty(),
    {
        EventBus { events: Vec::new() }
    }

    /// Appends `event` after the events already waiting.
    pub fn push(&mut self, event: E)
        ensures
            final(self).pending() == old(self).pending().push(event),
    {
        self.events.push(event);
    }

    /// Takes every waiting event, oldest first, and leaves the queue empty.
    pub fn drain(&mut self) -> (events: Vec<E>)
        ensures
            events@ == old(self).pending(),
            final(self).pending() == Seq::<E>::empty(),
    {
        let mut taken: Vec<E> = Vec::new();
        std::mem::swap(&mut taken, &mut self.events);
        taken
    }
}

impl<E> Default for EventBus<E> {
    fn default() -> (bus: Self)
        ensures
            bus.pending() == Seq::<E>::empty(),
    {
        EventBus::new()
    }
}

/// Events leave in the order they arrived: what a drain returns after a push
/// is what was waiting before the push, followed by the pushed event.
pub proof fn drain_after_push<E>(before: EventBus<E>, after: EventBus<E>, event: E, drained: Seq<E>)
    requires
        after.pending() == before.pending().push(event),
        drained == after.pending(),
    ensures
        drained.len() == before.pending().len() + 1,
        drained.last() == event,
        drained.drop_last() == before.pending(),
{
    assert(drained.drop_last() =~= before.pending());
}

} // verus!
