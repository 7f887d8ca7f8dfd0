use vstd::prelude::*;

verus! {

use crate::exchanges::formatter::Orderbook;

/// The fan-in aggregator's bounded first-in-first-out buffer: every
/// handler's canonical books collect here in arrival order, and one
/// consumer drains them in that order. A full buffer rejects the offer —
/// the producer must hold the update and retry (backpressure), because a
/// dropped update would corrupt the consumer's view of the book.
pub struct Aggregator {
    pub queue: Vec<Orderbook>,
    pub capacity: usize,
}

impl Aggregator {
    /// Never holds more than its capacity.
    pub open spec fn wf(self) -> bool {
        self.queue@.len() <= self.capacity
    }

    /// An empty buffer with the given capacity.
    pub fn new(capacity: usize) -> (r: Aggregator)
        ensures
            r.wf(),
            r.capacity == capacity,
            r.queue@.len() == 0,
    {
        Aggregator { queue: Vec::new(), capacity }
    }

    /// Offers one update: appended exactly when the buffer is not full;
    /// a full buffer leaves the state untouched and reports the refusal,
    /// so no update is ever silently dropped.
    pub fn offer(&mut self, ob: Orderbook) -> (accepted: bool)
        requires
            old(self).wf(),
        ensures
            final(self).wf(),
            accepted == (old(self).queue@.len() < old(self).capacity),
            accepted ==> final(self).queue@ == old(self).queue@.push(ob) && final(self).capacity
                == old(self).capacity,
            !accepted ==> *final(self) == *old(self),
    {
        if self.queue.len() < self.capacity {
            self.queue.push(ob);
            true
        } else {
            false
        }
    }

    /// Takes the oldest update, if any: delivery order is arrival order.
    pub fn take_next(&mut self) -> (r: Option<Orderbook>)
        requires
            old(self).wf(),
        ensures
            final(self).wf(),
            match r {
                Some(ob) => old(self).queue@.len() > 0 && ob == old(self).queue@[0] && final(self).queue@
                    == old(self).queue@.skip(1) && final(self).capacity == old(self).capacity,
                None => old(self).queue@.len() == 0 && *final(self) == *old(self),
            },
    {
        if self.queue.len() > 0 {
            let ob = self.queue.remove(0);
            proof {
                assert(self.queue@ =~= old(self).queue@.skip(1));
            }
            Some(ob)
        } else {
            None
        }
    }

    /// How many updates wait.
    pub fn len(&self) -> (r: usize)
        ensures
            r == self.queue@.len(),
    {
        self.queue.len()
    }
}

} // verus!
