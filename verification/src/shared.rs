//! The state that the producer handles and the driver share: the backlog of
//! messages, the number of live handles, and the parked driver's wake-up
//! token.

use futures::sync::oneshot;
use futures::task::Task;
use futures::{Complete, Oneshot};
use std::collections::VecDeque;
use vstd::prelude::*;

verus! {

/// The messages of a run of queue entries, in the same order.
pub open spec fn messages<M>(entries: Seq<(M, Complete<M>)>) -> Seq<M> {
    entries.map_values(|entry: (M, Complete<M>)| entry.0)
}

/// What the shared state holds, with the history of what was done through it.
#[verifier::ext_equal]
#[verifier::reject_recursive_types(M)]
pub struct SharedView<M> {
    /// The backlog: each message with its completion signal, oldest first.
    pub pending: Seq<(M, Complete<M>)>,
    /// How many handles are alive.
    pub live_handles: nat,
    /// The wake-up token of the driver, while the driver is parked.
    pub continuation: Option<Task>,
    /// Every entry that was ever enqueued, in the order of the calls.
    pub sent: Seq<(M, Complete<M>)>,
    /// Every wake-up token that was invoked, in order.
    pub woken: Seq<Task>,
}

impl<M> SharedView<M> {
    /// A fresh queue: nothing pending, one handle, nobody parked.
    pub open spec fn initial() -> Self {
        SharedView {
            pending: Seq::empty(),
            live_handles: 1,
            continuation: None,
            sent: Seq::empty(),
            woken: Seq::empty(),
        }
    }

    /// The entry goes to the tail of the backlog; a parked driver is woken
    /// and its token is gone.
    pub open spec fn enqueue(self, message: M, signal: Complete<M>) -> Self {
        SharedView {
            pending: self.pending.push((message, signal)),
            continuation: None,
            sent: self.sent.push((message, signal)),
            woken: match self.continuation {
                Some(task) => self.woken.push(task),
                None => self.woken,
            },
            ..self
        }
    }

    /// The head of the backlog leaves.
    pub open spec fn dequeue(self) -> Self {
        SharedView { pending: self.pending.drop_first(), ..self }
    }

    /// The driver parks and leaves its token.
    pub open spec fn register_continuation(self, task: Task) -> Self {
        SharedView { continuation: Some(task), ..self }
    }

    /// The driver is resumed: a token that it left is gone, and nobody is
    /// woken.
    pub open spec fn resume(self) -> Self {
        SharedView { continuation: None, ..self }
    }

    /// One more handle.
    pub open spec fn acquire_handle(self) -> Self {
        SharedView { live_handles: self.live_handles + 1, ..self }
    }

    /// One handle fewer.
    pub open spec fn release_handle(self) -> Self {
        SharedView { live_handles: (self.live_handles - 1) as nat, ..self }
    }
}

/// The shared queue state.
///
/// Messages come in and handles are counted through `Sender`; the backlog
/// goes out through `WriteQueue::poll`. What is open here is what the driver's
/// caller needs: to leave the wake-up token when the driver parks, and to
/// look at the counts.
#[verifier::reject_recursive_types(M)]
pub struct Shared<M> {
    queue: VecDeque<(M, Complete<M>)>,
    sender_count: usize,
    task: Option<Task>,
    sent: Ghost<Seq<(M, Complete<M>)>>,
    woken: Ghost<Seq<Task>>,
}

impl<M> View for Shared<M> {
    type V = SharedView<M>;

    closed spec fn view(&self) -> SharedView<M> {
        SharedView {
            pending: self.queue@,
            live_handles: self.sender_count as nat,
            continuation: self.task,
            sent: self.sent@,
            woken: self.woken@,
        }
    }
}

impl<M> Shared<M> {
    /// The state of a fresh queue, counting the one handle that is made with
    /// it.
    pub(crate) fn new() -> (shared: Self)
        ensures
            shared@ == SharedView::<M>::initial(),
    {
        Shared {
            queue: VecDeque::new(),
            sender_count: 1,
            task: None,
            sent: Ghost(Seq::empty()),
            woken: Ghost(Seq::empty()),
        }
    }

    /// Appends `message` to the backlog with a fresh completion signal, then
    /// wakes the driver if it is parked. Returns the awaiting half of the
    /// signal. The append comes first, so a driver that wakes finds the
    /// message. Messages come in through handles, so a handle is alive.
    pub(crate) fn enqueue(&mut self, message: M) -> (token: Oneshot<M>)
        requires
            old(self)@.live_handles > 0,
        ensures
            final(self)@.pending.len() == old(self)@.pending.len() + 1,
            final(self)@ == old(self)@.enqueue(message, final(self)@.pending.last().1),
    {
        let (signal, token) = oneshot::channel::<M>();
        let ghost entry = (message, signal);
        self.queue.push_back((message, signal));
        self.sent = Ghost(self.sent@.push(entry));
        match self.task.take() {
            Some(task) => {
                task.notify();
                self.woken = Ghost(self.woken@.push(task));
            },
            None => {},
        }
        token
    }

    /// Takes the head of the backlog, if there is one.
    pub(crate) fn dequeue(&mut self) -> (head: Option<(M, Complete<M>)>)
        ensures
            match head {
                Some(entry) => {
                    &&& old(self)@.pending.len() > 0
                    &&& entry == old(self)@.pending[0]
                    &&& final(self)@ == old(self)@.dequeue()
                },
                None => {
                    &&& old(self)@.pending.len() == 0
                    &&& final(self)@ == old(self)@
                },
            },
    {
        self.queue.pop_front()
    }

    /// Stores the token of the driver that is about to park. The driver parks
    /// only with an empty backlog and a live handle, so that every later
    /// `enqueue` finds the token and wakes it.
    pub fn register_continuation(&mut self, task: Task)
        requires
            old(self)@.pending.len() == 0,
            old(self)@.live_handles > 0,
        ensures
            final(self)@ == old(self)@.register_continuation(task),
    {
        self.task = Some(task);
    }

    /// Forgets the token of a driver that has been resumed.
    pub(crate) fn resume(&mut self)
        ensures
            final(self)@ == old(self)@.resume(),
    {
        self.task = None;
    }

    /// Counts a new handle. A handle is made from a live one, so the count
    /// never rises from zero.
    pub(crate) fn acquire_handle(&mut self)
        requires
            0 < old(self)@.live_handles < usize::MAX,
        ensures
            final(self)@ == old(self)@.acquire_handle(),
    {
        self.sender_count = self.sender_count + 1;
    }

    /// Counts a handle out. Nothing else happens: whether the queue is
    /// finished is for the driver to find at its next step.
    pub(crate) fn release_handle(&mut self)
        requires
            old(self)@.live_handles > 0,
        ensures
            final(self)@ == old(self)@.release_handle(),
    {
        self.sender_count = self.sender_count - 1;
    }

    /// The length of the backlog. A write in flight is not counted.
    pub fn pending_count(&self) -> (count: usize)
        ensures
            count == self@.pending.len(),
    {
        self.queue.len()
    }

    /// The number of live handles.
    pub fn live_handles(&self) -> (count: usize)
        ensures
            count == self@.live_handles,
    {
        self.sender_count
    }

    /// Whether a parked driver has left its token.
    pub fn is_parked(&self) -> (parked: bool)
        ensures
            parked == self@.continuation.is_some(),
    {
        self.task.is_some()
    }
}

} // verus!
