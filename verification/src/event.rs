//! Event dispatch on top of the store: per event key, the listeners in the
//! order in which they were registered.

use crate::typemap::TypeMap;
use std::any::TypeId;
use vstd::prelude::*;

verus! {

/// What a listener does when an event of type `E` is fired.
pub trait EventListener<E> {
    /// One delivery of `params` takes the listener from `before` to `after`.
    /// A listener that says nothing here allows every outcome.
    open spec fn delivered(before: &Self, params: &E, after: &Self) -> bool {
        true
    }

    /// The listener can be handed `params`. A listener that says nothing here
    /// takes every event.
    open spec fn accepts(&self, params: &E) -> bool {
        true
    }

    fn on_event(&mut self, params: &E)
        requires
            old(self).accepts(params),
        ensures
            Self::delivered(old(self), params, final(self)),
    ;
}

/// A node that events are fired on.
pub struct DOMNode<L> {
    listeners: TypeMap<Vec<L>>,
}

impl<L> DOMNode<L> {
    /// The store's representation invariant.
    pub closed spec fn wf(&self) -> bool {
        self.listeners.wf()
    }

    /// The listeners registered for `event`, oldest first; none where nothing
    /// was registered for it.
    pub closed spec fn listeners_of(&self, event: TypeId) -> Seq<L> {
        if self.listeners@.contains_key(event) {
            self.listeners@[event]@
        } else {
            Seq::empty()
        }
    }

    /// A node without listeners.
    pub fn new() -> (node: DOMNode<L>)
        ensures
            node.wf(),
            forall|event: TypeId| node.listeners_of(event) == Seq::<L>::empty(),
    {
        DOMNode { listeners: TypeMap::new() }
    }

    /// Registers `listener` for `event`, behind those registered before it.
    pub fn add_event_listener(&mut self, event: TypeId, listener: L)
        requires
            old(self).wf(),
        ensures
            final(self).wf(),
            final(self).listeners_of(event) == old(self).listeners_of(event).push(listener),
            forall|other: TypeId|
                other != event ==> final(self).listeners_of(other) == old(self).listeners_of(other),
    {
        if !self.listeners.has(event) {
            self.listeners.set(event, Vec::new());
        }
        match self.listeners.get_mut(event) {
            Some(list) => {
                list.push(listener);
            },
            None => {},
        }
    }

    /// What one firing of `params` for `event` does to a node: every listener
    /// registered for `event` has had the event delivered once, none was added
    /// or dropped, and the listeners of every other event are untouched.
    pub open spec fn fired<E>(
        before: DOMNode<L>,
        after: DOMNode<L>,
        event: TypeId,
        params: &E,
    ) -> bool where L: EventListener<E> {
        &&& after.listeners_of(event).len() == before.listeners_of(event).len()
        &&& forall|i: int|
            0 <= i < before.listeners_of(event).len() ==> L::delivered(
                &before.listeners_of(event)[i],
                params,
                #[trigger] &after.listeners_of(event)[i],
            )
        &&& forall|other: TypeId|
            other != event ==> after.listeners_of(other) == before.listeners_of(other)
    }

    /// Fires `params` on the listeners registered for `event`, each once, from
    /// the oldest to the newest. Without listeners nothing happens.
    pub fn trigger<E>(&mut self, event: TypeId, params: &E) where L: EventListener<E>
        requires
            old(self).wf(),
            forall|i: int|
                0 <= i < old(self).listeners_of(event).len() ==> (#[trigger] old(
                    self,
                ).listeners_of(event)[i]).accepts(params),
        ensures
            final(self).wf(),
            Self::fired(*old(self), *final(self), event, params),
    {
        match self.listeners.get_mut(event) {
            Some(list) => {
                let ghost before = list@;
                assert(before == old(self).listeners_of(event));
                let count: usize = list.len();
                let mut i: usize = 0;
                while i < count
                    invariant
                        i <= count,
                        list@.len() == count,
                        before.len() == count,
                        forall|j: int| 0 <= j < count ==> (#[trigger] before[j]).accepts(params),
                        forall|j: int|
                            0 <= j < i ==> L::delivered(&before[j], params, #[trigger] &list@[j]),
                        forall|j: int| i <= j < count ==> #[trigger] list@[j] == before[j],
                    decreases count - i,
                {
                    list[i].on_event(params);
                    i = i + 1;
                }
            },
            None => {},
        }
    }

    /// Registration order is firing order: on a node without listeners for
    /// `event`, three registrations leave exactly those three listeners, the
    /// first registered in front.
    pub proof fn lemma_registration_order(
        start: DOMNode<L>,
        one: DOMNode<L>,
        two: DOMNode<L>,
        three: DOMNode<L>,
        event: TypeId,
        first: L,
        second: L,
        third: L,
    )
        requires
            start.listeners_of(event) == Seq::<L>::empty(),
            one.listeners_of(event) == start.listeners_of(event).push(first),
            two.listeners_of(event) == one.listeners_of(event).push(second),
            three.listeners_of(event) == two.listeners_of(event).push(third),
        ensures
            three.listeners_of(event) == seq![first, second, third],
    {
        assert(three.listeners_of(event) =~= seq![first, second, third]);
    }

    /// Listener ordering: after three registrations for `event` on a node that
    /// had none, one firing delivers the event to the first, the second and
    /// the third listener, once each, and leaves them in that order with no
    /// listener beside them.
    pub proof fn lemma_fired_each_once<E>(
        start: DOMNode<L>,
        one: DOMNode<L>,
        two: DOMNode<L>,
        three: DOMNode<L>,
        after: DOMNode<L>,
        event: TypeId,
        first: L,
        second: L,
        third: L,
        params: &E,
    ) where L: EventListener<E>
        requires
            start.listeners_of(event) == Seq::<L>::empty(),
            one.listeners_of(event) == start.listeners_of(event).push(first),
            two.listeners_of(event) == one.listeners_of(event).push(second),
            three.listeners_of(event) == two.listeners_of(event).push(third),
            first.accepts(params),
            second.accepts(params),
            third.accepts(params),
            Self::fired(three, after, event, params),
        ensures
            forall|i: int|
                0 <= i < three.listeners_of(event).len() ==> (#[trigger] three.listeners_of(
                    event,
                )[i]).accepts(params),
            after.listeners_of(event).len() == 3,
            L::delivered(&first, params, &after.listeners_of(event)[0]),
            L::delivered(&second, params, &after.listeners_of(event)[1]),
            L::delivered(&third, params, &after.listeners_of(event)[2]),
    {
        Self::lemma_registration_order(start, one, two, three, event, first, second, third);
        let listeners = three.listeners_of(event);
        assert(listeners[0] == first && listeners[1] == second && listeners[2] == third);
    }
}

/// A closure is a listener: an event is handed to it as its argument, so it
/// takes the events that meet its precondition, and a delivery is one call.
impl<E, F: FnMut(&E)> EventListener<E> for F {
    open spec fn delivered(before: &Self, params: &E, after: &Self) -> bool {
        (*before).ensures((params,), ())
    }

    open spec fn accepts(&self, params: &E) -> bool {
        (*self).requires((params,))
    }

    fn on_event(&mut self, params: &E) {
        self(params);
    }
}

} // verus!
