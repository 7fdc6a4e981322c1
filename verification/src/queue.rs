//! A model of the bounded queues between the stages, and their admission rule.
//!
//! A stage hands its work to the next over a queue of fixed capacity. A full
//! queue takes nothing: the item is handed back, and the producer has to wait
//! until the consumer has taken one out. Nothing is dropped, and nothing
//! overtakes what was sent before it.
//!
//! What is proved here is proved of `BoundedQueue`. A program that runs its
//! stages as asynchronous tasks hands work over the channels of its runtime,
//! made with the capacities that `native` names; of those channels this
//! module proves nothing, it only says what rule they are expected to keep.

use vstd::prelude::*;

verus! {

/// A queue that holds no more than `capacity` items, first in, first out.
pub struct BoundedQueue<T> {
    items: Vec<T>,
    capacity: usize,
}

impl<T> BoundedQueue<T> {
    /// The items that wait, the next to be taken first.
    pub closed spec fn spec_items(&self) -> Seq<T> {
        self.items@
    }

    pub closed spec fn spec_capacity(&self) -> int {
        self.capacity as int
    }

    /// The queue takes no more.
    pub open spec fn spec_is_full(&self) -> bool {
        self.spec_items().len() >= self.spec_capacity()
    }

    /// An empty queue of this capacity.
    pub fn new(capacity: usize) -> (q: BoundedQueue<T>)
        ensures
            q.spec_capacity() == capacity,
            q.spec_items() == Seq::<T>::empty(),
    {
        BoundedQueue { items: Vec::new(), capacity }
    }

    /// Puts an item at the end of the queue. A full queue hands it back and
    /// stays as it is: the producer has to wait.
    pub fn try_send(&mut self, item: T) -> (r: Result<(), T>)
        ensures
            final(self).spec_capacity() == old(self).spec_capacity(),
            match r {
                Ok(_) => !old(self).spec_is_full() && final(self).spec_items() == old(
                    self,
                ).spec_items().push(item),
                Err(back) => old(self).spec_is_full() && back == item && final(self).spec_items()
                    == old(self).spec_items(),
            },
    {
        if self.items.len() < self.capacity {
            self.items.push(item);
            Ok(())
        } else {
            Err(item)
        }
    }

    /// Takes the item that has waited longest; `None` where nothing waits.
    pub fn try_recv(&mut self) -> (r: Option<T>)
        ensures
            final(self).spec_capacity() == old(self).spec_capacity(),
            match r {
                Some(item) => old(self).spec_items().len() > 0 && item == old(self).spec_items()[0]
                    && final(self).spec_items() == old(self).spec_items().drop_first(),
                None => old(self).spec_items().len() == 0 && final(self).spec_items() == old(
                    self,
                ).spec_items(),
            },
    {
        if self.items.len() > 0 {
            let item: T = self.items.remove(0);
            assert(self.items@ =~= old(self).items@.drop_first());
            Some(item)
        } else {
            None
        }
    }

    pub fn len(&self) -> (n: usize)
        ensures
            n == self.spec_items().len(),
    {
        self.items.len()
    }

    pub fn capacity(&self) -> (n: usize)
        ensures
            n == self.spec_capacity(),
    {
        self.capacity
    }

    pub fn is_full(&self) -> (r: bool)
        ensures
            r == self.spec_is_full(),
    {
        self.items.len() >= self.capacity
    }
}

/// Number of items that wait in a queue of this capacity after `sends`
/// attempts to send into the empty queue while the consumer takes nothing.
pub open spec fn spec_waiting_after(capacity: nat, sends: nat) -> nat
    decreases sends,
{
    if sends == 0 {
        0
    } else {
        let before = spec_waiting_after(capacity, (sends - 1) as nat);
        if before < capacity {
            before + 1
        } else {
            before
        }
    }
}

/// The attempt with this number, counted from one, is refused.
pub open spec fn spec_refused(capacity: nat, attempt: nat) -> bool {
    attempt >= 1 && spec_waiting_after(capacity, (attempt - 1) as nat) >= capacity
}

/// While the consumer takes nothing, a queue accepts as many items as it has
/// room for and refuses every one after them: the attempt after the last that
/// fits is the first at which the producer has to wait.
pub proof fn lemma_backpressure(capacity: nat, sends: nat)
    ensures
        spec_waiting_after(capacity, sends) == if sends <= capacity {
            sends
        } else {
            capacity
        },
        sends >= 1 ==> (spec_refused(capacity, sends) <==> sends > capacity),
        spec_refused(capacity, capacity + 1),
    decreases sends,
{
    if sends > 0 {
        lemma_backpressure(capacity, (sends - 1) as nat);
    }
    lemma_waiting_is_min(capacity, capacity);
}

proof fn lemma_waiting_is_min(capacity: nat, sends: nat)
    ensures
        spec_waiting_after(capacity, sends) == if sends <= capacity {
            sends
        } else {
            capacity
        },
    decreases sends,
{
    if sends > 0 {
        lemma_waiting_is_min(capacity, (sends - 1) as nat);
    }
}

} // verus!
