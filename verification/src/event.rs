use vstd::prelude::*;

verus! {

/// What a ledger can announce to subscribers.
#[derive(Debug, Clone, Copy, PartialEq, Eq, Structural)]
pub enum Event {
    AccountCreated,
    TransactionPosted,
    TransactionReversed,
}

/// A list of handlers, each called on every event published.
pub struct EventBus<H: Fn(&Event)> {
    handlers: Vec<H>,
}

impl<H: Fn(&Event)> EventBus<H> {
    /// The handlers subscribed, in the order they were subscribed.
    pub closed spec fn handlers(&self) -> Seq<H> {
        self.handlers@
    }

    pub fn new() -> (b: EventBus<H>)
        ensures
            b.handlers() == Seq::<H>::empty(),
    {
        EventBus { handlers: Vec::new() }
    }

    pub fn subscribe(&mut self, handler: H)
        ensures
            final(self).handlers() == old(self).handlers().push(handler),
    {
        self.handlers.push(handler)
    }

    /// Calls every handler on the event, in the order they were subscribed.
    pub fn publish(&self, event: &Event)
        requires
            forall|i: int| 0 <= i < self.handlers().len() ==> call_requires(#[trigger] self.handlers()[i], (event,)),
        ensures
            forall|i: int|
                0 <= i < self.handlers().len() ==> call_ensures(#[trigger] self.handlers()[i], (event,), ()),
    {
        let mut i: usize = 0;
        while i < self.handlers.len()
            invariant
                0 <= i <= self.handlers@.len(),
                forall|k: int| 0 <= k < self.handlers().len() ==> call_requires(#[trigger] self.handlers()[k], (event,)),
                forall|k: int| 0 <= k < i ==> call_ensures(#[trigger] self.handlers()[k], (event,), ()),
            decreases self.handlers.len() - i,
        {
            assert(call_requires(self.handlers()[i as int], (event,)));
            (self.handlers[i])(event);
            i = i + 1;
        }
    }
}

} // verus!
