//! The producer's handle.

use crate::shared::Shared;
use futures::Oneshot;
use std::marker::PhantomData;
use vstd::prelude::*;

verus! {

/// A handle through which messages are sent to a write queue.
///
/// The queue counts its handles and finishes only when none is left, so a
/// handle is made from another with `clone_handle` and given up with
/// `release`. While a handle is in use the count is above zero.
pub struct Sender<M> {
    message: PhantomData<M>,
}

impl<M> Sender<M> {
    /// The handle that comes with a fresh queue, which counts it already.
    pub(crate) fn first() -> Sender<M> {
        Sender { message: PhantomData }
    }

    /// Enqueues a message to be written. The token that is returned resolves
    /// to the message once the message is written.
    pub fn send(&mut self, shared: &mut Shared<M>, message: M) -> (token: Oneshot<M>)
        requires
            old(shared)@.live_handles > 0,
        ensures
            final(shared)@.pending.len() == old(shared)@.pending.len() + 1,
            final(shared)@ == old(shared)@.enqueue(message, final(shared)@.pending.last().1),
    {
        shared.enqueue(message)
    }

    /// Returns the number of messages queued to be written, not including
    /// any write in progress.
    pub fn len(&mut self, shared: &Shared<M>) -> (count: usize)
        ensures
            count == shared@.pending.len(),
    {
        shared.pending_count()
    }

    /// Makes another handle to the same queue.
    pub fn clone_handle(&self, shared: &mut Shared<M>) -> (handle: Sender<M>)
        requires
            0 < old(shared)@.live_handles < usize::MAX,
        ensures
            final(shared)@ == old(shared)@.acquire_handle(),
    {
        shared.acquire_handle();
        Sender { message: PhantomData }
    }

    /// Gives the handle up. What it has sent stays in the backlog and is
    /// still written.
    pub fn release(self, shared: &mut Shared<M>)
        requires
            old(shared)@.live_handles > 0,
        ensures
            final(shared)@ == old(shared)@.release_handle(),
    {
        shared.release_handle();
    }
}

} // verus!
