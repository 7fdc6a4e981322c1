//! The bookkeeping of asynchronous inference: the pool of input buffers and
//! the states of a pending result.
//!
//! Both are kept free of locks and wakers. The caller guards the pool with a
//! lock and waits where `try_get` finds it empty; the caller stores the waker
//! and the value, and asks the state machine what to do with them.

use vstd::prelude::*;

verus! {

/// A fixed set of reusable buffers. A buffer is either in the pool or lent to
/// exactly one borrower, who hands it back when the inference has completed.
pub struct BufferPool<T> {
    store: Vec<T>,
    capacity: usize,
}

impl<T> BufferPool<T> {
    /// The buffers that are in the pool, the next to be lent last.
    pub closed spec fn spec_store(&self) -> Seq<T> {
        self.store@
    }

    /// Number of buffers that the pool was made with.
    pub closed spec fn spec_capacity(&self) -> int {
        self.capacity as int
    }

    /// Number of buffers that are lent.
    pub open spec fn spec_lent(&self) -> int {
        self.spec_capacity() - self.spec_store().len()
    }

    /// No buffer is lent.
    pub open spec fn spec_is_quiesced(&self) -> bool {
        self.spec_lent() == 0
    }

    /// The pool holds no more buffers than it was made with.
    pub open spec fn valid(&self) -> bool {
        self.spec_store().len() <= self.spec_capacity()
    }

    /// A pool of these buffers, none of them lent.
    pub fn new(buffers: Vec<T>) -> (pool: BufferPool<T>)
        ensures
            pool.spec_store() == buffers@,
            pool.spec_capacity() == buffers.len(),
            pool.valid(),
            pool.spec_is_quiesced(),
    {
        let capacity: usize = buffers.len();
        BufferPool { store: buffers, capacity }
    }

    /// Lends a buffer, which leaves the pool; `None` where every buffer is
    /// lent, and the borrower has to wait for one to come back.
    pub fn try_get(&mut self) -> (r: Option<T>)
        ensures
            final(self).spec_capacity() == old(self).spec_capacity(),
            old(self).valid() ==> final(self).valid(),
            match r {
                Some(buffer) => {
                    &&& old(self).spec_store().len() > 0
                    &&& buffer == old(self).spec_store().last()
                    &&& final(self).spec_store() == old(self).spec_store().drop_last()
                    &&& final(self).spec_lent() == old(self).spec_lent() + 1
                },
                None => {
                    &&& old(self).spec_store().len() == 0
                    &&& final(self).spec_store() == old(self).spec_store()
                },
            },
    {
        self.store.pop()
    }

    /// Takes a buffer back. A buffer that would make the pool larger than it
    /// was made is not one of its own, and is handed back.
    pub fn put(&mut self, buffer: T) -> (r: Result<(), T>)
        ensures
            final(self).spec_capacity() == old(self).spec_capacity(),
            old(self).valid() ==> final(self).valid(),
            match r {
                Ok(_) => {
                    &&& old(self).spec_lent() > 0
                    &&& final(self).spec_store() == old(self).spec_store().push(buffer)
                    &&& final(self).spec_lent() == old(self).spec_lent() - 1
                },
                Err(b) => {
                    &&& old(self).spec_lent() <= 0
                    &&& b == buffer
                    &&& final(self).spec_store() == old(self).spec_store()
                },
            },
    {
        if self.store.len() < self.capacity {
            self.store.push(buffer);
            Ok(())
        } else {
            Err(buffer)
        }
    }

    pub fn available(&self) -> (n: usize)
        ensures
            n == self.spec_store().len(),
    {
        self.store.len()
    }

    pub fn capacity(&self) -> (n: usize)
        ensures
            n == self.spec_capacity(),
    {
        self.capacity
    }

    /// Whether every buffer is back in the pool.
    pub fn is_quiesced(&self) -> (r: bool)
        ensures
            r == self.spec_is_quiesced(),
    {
        self.store.len() == self.capacity
    }
}

/// What happens to a pool: a buffer is lent, or one comes back.
pub enum PoolEvent {
    Get,
    Put,
}

/// Number of buffers in a pool of `capacity` buffers after the first `n`
/// events; `None` where one of them could not have happened: a buffer lent by
/// an empty pool, or handed back to a full one.
pub open spec fn spec_available_after(capacity: nat, events: Seq<PoolEvent>, n: int) -> Option<nat>
    decreases n,
{
    if n <= 0 {
        Some(capacity)
    } else {
        match spec_available_after(capacity, events, n - 1) {
            None => None,
            Some(free) => match events[n - 1] {
                PoolEvent::Get => if free > 0 {
                    Some((free - 1) as nat)
                } else {
                    None
                },
                PoolEvent::Put => if free < capacity {
                    Some(free + 1)
                } else {
                    None
                },
            },
        }
    }
}

/// Number of buffers lent during the first `n` events.
pub open spec fn spec_gets(events: Seq<PoolEvent>, n: int) -> int
    decreases n,
{
    if n <= 0 {
        0
    } else {
        spec_gets(events, n - 1) + if events[n - 1] is Get {
            1int
        } else {
            0
        }
    }
}

/// Number of buffers handed back during the first `n` events.
pub open spec fn spec_puts(events: Seq<PoolEvent>, n: int) -> int
    decreases n,
{
    if n <= 0 {
        0
    } else {
        spec_puts(events, n - 1) + if events[n - 1] is Put {
            1int
        } else {
            0
        }
    }
}

/// Buffers are conserved: after any run of events the buffers that are out of
/// the pool are those that were lent and not handed back, never more than the
/// pool has, and the pool is full again exactly when as many were handed back
/// as were lent.
pub proof fn lemma_pool_conservation(capacity: nat, events: Seq<PoolEvent>, n: int)
    requires
        0 <= n <= events.len(),
        spec_available_after(capacity, events, n) is Some,
    ensures
        capacity - spec_available_after(capacity, events, n).unwrap() == spec_gets(events, n)
            - spec_puts(events, n),
        0 <= spec_gets(events, n) - spec_puts(events, n) <= capacity,
        spec_available_after(capacity, events, n).unwrap() == capacity <==> spec_gets(events, n)
            == spec_puts(events, n),
    decreases n,
{
    if n > 0 {
        lemma_pool_conservation(capacity, events, n - 1);
    }
}

/// Where a pending result stands.
#[derive(Clone, Copy, Debug, PartialEq, Eq, Structural)]
pub enum InferenceState {
    /// No result yet, and nobody to wake.
    Pending,
    /// No result yet; a waker is stored.
    WakerSet,
    /// The result is stored and has not been taken.
    Ready,
    /// The result has been taken.
    Done,
}

/// What a poll has to do.
#[derive(Clone, Copy, Debug, PartialEq, Eq, Structural)]
pub enum PollAction {
    /// Store the caller's waker and report that the result is pending.
    StoreWaker,
    /// Take the stored result and report it.
    TakeValue,
}

impl InferenceState {
    pub open spec fn spec_on_poll(self) -> (InferenceState, PollAction) {
        match self {
            InferenceState::Pending => (InferenceState::WakerSet, PollAction::StoreWaker),
            InferenceState::WakerSet => (InferenceState::WakerSet, PollAction::StoreWaker),
            InferenceState::Ready => (InferenceState::Done, PollAction::TakeValue),
            InferenceState::Done => (InferenceState::Done, PollAction::StoreWaker),
        }
    }

    /// The state after the run has completed, and whether the stored waker is
    /// to be woken.
    pub open spec fn spec_on_complete(self) -> (InferenceState, bool) {
        match self {
            InferenceState::Pending => (InferenceState::Ready, false),
            InferenceState::WakerSet => (InferenceState::Ready, true),
            InferenceState::Ready => (InferenceState::Ready, false),
            InferenceState::Done => (InferenceState::Done, false),
        }
    }

    /// The state after the awaiting side has gone away: a stored waker is detached.
    pub open spec fn spec_on_drop(self) -> InferenceState {
        match self {
            InferenceState::WakerSet => InferenceState::Pending,
            other => other,
        }
    }

    pub fn new() -> (s: InferenceState)
        ensures
            s == InferenceState::Pending,
    {
        InferenceState::Pending
    }

    /// The awaiting task polls.
    pub fn on_poll(self) -> (r: (InferenceState, PollAction))
        ensures
            r == self.spec_on_poll(),
    {
        match self {
            InferenceState::Ready => (InferenceState::Done, PollAction::TakeValue),
            InferenceState::Done => (InferenceState::Done, PollAction::StoreWaker),
            _ => (InferenceState::WakerSet, PollAction::StoreWaker),
        }
    }

    /// The run has completed and its result is stored.
    pub fn on_complete(self) -> (r: (InferenceState, bool))
        ensures
            r == self.spec_on_complete(),
    {
        match self {
            InferenceState::Pending => (InferenceState::Ready, false),
            InferenceState::WakerSet => (InferenceState::Ready, true),
            InferenceState::Ready => (InferenceState::Ready, false),
            InferenceState::Done => (InferenceState::Done, false),
        }
    }

    /// The awaiting side has gone away.
    pub fn on_drop(self) -> (r: InferenceState)
        ensures
            r == self.spec_on_drop(),
    {
        match self {
            InferenceState::WakerSet => InferenceState::Pending,
            other => other,
        }
    }
}

/// What happens to a pending result.
pub enum InferenceEvent {
    Poll,
    Complete,
    Drop,
}

/// The state after the first `n` events, starting from `Pending`.
pub open spec fn spec_state_after(events: Seq<InferenceEvent>, n: int) -> InferenceState
    decreases n,
{
    if n <= 0 {
        InferenceState::Pending
    } else {
        let s = spec_state_after(events, n - 1);
        match events[n - 1] {
            InferenceEvent::Poll => s.spec_on_poll().0,
            InferenceEvent::Complete => s.spec_on_complete().0,
            InferenceEvent::Drop => s.spec_on_drop(),
        }
    }
}

/// Number of times a waker is woken during the first `n` events.
pub open spec fn spec_wakes(events: Seq<InferenceEvent>, n: int) -> int
    decreases n,
{
    if n <= 0 {
        0
    } else {
        spec_wakes(events, n - 1) + if events[n - 1] is Complete && spec_state_after(
            events,
            n - 1,
        ).spec_on_complete().1 {
            1int
        } else {
            0
        }
    }
}

/// Number of times the result is handed out during the first `n` events.
pub open spec fn spec_takes(events: Seq<InferenceEvent>, n: int) -> int
    decreases n,
{
    if n <= 0 {
        0
    } else {
        spec_takes(events, n - 1) + if events[n - 1] is Poll && spec_state_after(
            events,
            n - 1,
        ).spec_on_poll().1 is TakeValue {
            1int
        } else {
            0
        }
    }
}

/// A completion that comes after the awaiting side has gone away wakes nobody.
pub proof fn lemma_no_wake_after_drop(s: InferenceState)
    ensures
        !s.spec_on_drop().spec_on_complete().1,
{
}

/// Whatever the order of polls, completions and drops: a waker is woken at
/// most once, the result is handed out at most once, and only after a
/// completion.
pub proof fn lemma_wakes_and_takes_once(events: Seq<InferenceEvent>, n: int)
    requires
        0 <= n <= events.len(),
    ensures
        0 <= spec_wakes(events, n) <= 1,
        0 <= spec_takes(events, n) <= 1,
        spec_wakes(events, n) == 1 ==> spec_state_after(events, n) is Ready || spec_state_after(
            events,
            n,
        ) is Done,
        spec_takes(events, n) == 1 <==> spec_state_after(events, n) is Done,
        spec_state_after(events, n) is Ready || spec_state_after(events, n) is Done
            ==> exists|k: int| 0 <= k < n && #[trigger] events[k] is Complete,
    decreases n,
{
    if n > 0 {
        lemma_wakes_and_takes_once(events, n - 1);
        let s = spec_state_after(events, n - 1);
        if s is Ready || s is Done {
            let k = choose|k: int| 0 <= k < n - 1 && #[trigger] events[k] is Complete;
            assert(events[k] is Complete);
        } else if events[n - 1] is Complete {
            assert(events[n - 1] is Complete);
        }
    }
}

} // verus!
