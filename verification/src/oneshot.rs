//! The one-shot result channel at the heart of the shared cache: a slot
//! written exactly once by the producer and emptied exactly once by the
//! consumer. The cross-thread plumbing — the atomic ready flag and the waker
//! registration — lives with the callers; this type is the state the slot
//! goes through, and its contracts are the single-use discipline: a payload
//! signalled once is observed exactly once.

use vstd::prelude::*;

verus! {

/// A one-shot payload slot.
pub enum OneShot<T> {
    /// Constructed and not yet signalled.
    Pending,
    /// Signalled; the payload waits to be taken.
    Ready(T),
    /// The payload was taken; the slot is spent.
    Consumed,
}

impl<T> OneShot<T> {
    /// An unset slot with an empty payload.
    pub fn new() -> (r: Self)
        ensures
            r is Pending,
    {
        OneShot::Pending
    }

    /// Store the payload and mark the slot ready. The producer calls this
    /// exactly once per slot.
    pub fn signal(&mut self, payload: T)
        requires
            *old(self) is Pending,
        ensures
            *final(self) matches OneShot::Ready(p) && p == payload,
    {
        *self = OneShot::Ready(payload);
    }

    /// Yield the payload if the slot is ready, emptying it; a slot not yet
    /// signalled stays as it is, so the consumer re-checks after waking. A
    /// spent slot is discarded, never polled again.
    pub fn try_take(&mut self) -> (r: Option<T>)
        requires
            !(*old(self) is Consumed),
        ensures
            *old(self) is Pending ==> r is None && *final(self) is Pending,
            *old(self) matches OneShot::Ready(v) ==> (r matches Some(p) && p == v) && *final(self) is Consumed,
    {
        let mut taken = OneShot::Consumed;
        core::mem::swap(&mut taken, self);
        match taken {
            OneShot::Pending => {
                *self = OneShot::Pending;
                None
            },
            OneShot::Ready(v) => Some(v),
            OneShot::Consumed => None,
        }
    }
}

} // verus!
