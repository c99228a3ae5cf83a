//! The driver: it owns the sink between writes, takes the next message from
//! the backlog, has it written, resolves its signal, and decides when the
//! queue is finished.
//!
//! The write itself is done by the caller. `WriteQueue::poll` takes what the
//! caller has seen of the write in flight and answers with what to do next.

use crate::sender::Sender;
use crate::shared::{Shared, SharedView};
use capnp::Error;
use futures::Complete;
use vstd::pervasive::unreached;
use vstd::prelude::*;

verus! {

/// Where the driver stands.
#[verifier::reject_recursive_types(M)]
pub enum State<W, M> {
    /// A write is in flight. The write holds the sink; the driver holds the
    /// signal of the message that is being written.
    Writing(Complete<M>),
    /// The driver holds the sink and no write is in flight.
    BetweenWrites(W),
    /// The sink has been handed back: the queue is finished.
    Empty,
}

/// What the caller reports to the driver.
pub enum Event<W, M> {
    /// Nothing new: the driver was resumed, or the write is still going on.
    Resumed,
    /// The write in flight is done; here are the sink and the message.
    WriteDone(W, M),
    /// The write in flight failed.
    WriteFailed(Error),
}

/// What the driver asks of the caller.
pub enum Action<W, M> {
    /// Write the message to the sink, and report how that went.
    StartWrite(W, M),
    /// The write in flight is not done yet: come back when it is.
    AwaitWrite,
    /// Nothing to write, and handles are alive: park, leave a wake-up token
    /// with the shared state, and come back when woken.
    Suspend,
    /// Every handle is gone and the backlog is written: here is the sink.
    Finish(W),
    /// The write failed, and so has the queue.
    Fail(Error),
}

/// The driver's state, with the history of what it did.
#[verifier::ext_equal]
#[verifier::reject_recursive_types(M)]
pub struct DriverView<W, M> {
    /// Where the driver stands.
    pub state: State<W, M>,
    /// Every message whose write was started, in order.
    pub started: Seq<M>,
    /// Every message to which a signal was resolved, with that signal, in
    /// order.
    pub resolved: Seq<(M, Complete<M>)>,
}

/// A step of the driver: the two states after it, and what it asks for.
#[verifier::reject_recursive_types(M)]
pub struct Outcome<W, M> {
    pub driver: DriverView<W, M>,
    pub shared: SharedView<M>,
    pub action: Action<W, M>,
}

impl<W, M> DriverView<W, M> {
    /// A fresh driver: it holds the sink and has done nothing.
    pub open spec fn initial(sink: W) -> Self {
        DriverView { state: State::BetweenWrites(sink), started: Seq::empty(), resolved: Seq::empty() }
    }

    /// Whether the driver holds the sink once it has taken `event` in.
    pub open spec fn holds_sink_after(self, event: Event<W, M>) -> bool {
        self.state is BetweenWrites || (self.state is Writing && event is WriteDone)
    }

    /// The step from between two writes, with the sink in hand: start the
    /// next write if the backlog has a message, finish if no handle is left,
    /// park otherwise.
    pub open spec fn advance(self, sink: W, shared: SharedView<M>) -> Outcome<W, M> {
        if shared.pending.len() > 0 {
            Outcome {
                driver: DriverView {
                    state: State::Writing(shared.pending[0].1),
                    started: self.started.push(shared.pending[0].0),
                    ..self
                },
                shared: shared.dequeue(),
                action: Action::StartWrite(sink, shared.pending[0].0),
            }
        } else if shared.live_handles == 0 {
            Outcome {
                driver: DriverView { state: State::Empty, ..self },
                shared,
                action: Action::Finish(sink),
            }
        } else {
            Outcome {
                driver: DriverView { state: State::BetweenWrites(sink), ..self },
                shared,
                action: Action::Suspend,
            }
        }
    }

    /// One step of the driver. The driver is resumed, so a wake-up token
    /// that it left is gone, whatever the step comes to.
    pub open spec fn poll(self, shared: SharedView<M>, event: Event<W, M>) -> Outcome<W, M> {
        let shared = shared.resume();
        match self.state {
            State::Writing(signal) => match event {
                Event::Resumed => Outcome { driver: self, shared, action: Action::AwaitWrite },
                Event::WriteFailed(error) => Outcome {
                    driver: self,
                    shared,
                    action: Action::Fail(error),
                },
                Event::WriteDone(sink, message) => DriverView {
                    resolved: self.resolved.push((message, signal)),
                    ..self
                }.advance(sink, shared),
            },
            State::BetweenWrites(sink) => self.advance(sink, shared),
            State::Empty => Outcome { driver: self, shared, action: Action::AwaitWrite },
        }
    }
}

/// A queue of messages being written.
#[verifier::reject_recursive_types(M)]
pub struct WriteQueue<W, M> {
    state: State<W, M>,
    started: Ghost<Seq<M>>,
    resolved: Ghost<Seq<(M, Complete<M>)>>,
}

impl<W, M> View for WriteQueue<W, M> {
    type V = DriverView<W, M>;

    closed spec fn view(&self) -> DriverView<W, M> {
        DriverView { state: self.state, started: self.started@, resolved: self.resolved@ }
    }
}

/// Makes a queue that writes to `writer`: its first handle, its driver, and
/// the state that the two share.
pub fn write_queue<W, M>(writer: W) -> (parts: (Sender<M>, WriteQueue<W, M>, Shared<M>))
    ensures
        parts.1@ == DriverView::<W, M>::initial(writer),
        parts.2@ == SharedView::<M>::initial(),
{
    let queue = WriteQueue {
        state: State::BetweenWrites(writer),
        started: Ghost(Seq::empty()),
        resolved: Ghost(Seq::empty()),
    };
    (Sender::first(), queue, Shared::new())
}

impl<W, M> WriteQueue<W, M> {
    /// One step of the driver.
    ///
    /// With a write in flight, the driver waits for it. When it is done, the
    /// driver resolves the message's signal with the message and goes on from
    /// between two writes. From there it starts the write of the head of the
    /// backlog; with an empty backlog it finishes if no handle is alive, and
    /// parks otherwise. A failed write is the failure of the queue: the
    /// signal of its message is kept and never resolved. A wake-up token that
    /// the driver left when it parked is gone once the driver is polled.
    ///
    /// A finished driver takes no further step, and a write is reported only
    /// while one is in flight.
    pub fn poll(&mut self, shared: &mut Shared<M>, event: Event<W, M>) -> (action: Action<W, M>)
        requires
            !(old(self)@.state is Empty),
            event is Resumed || old(self)@.state is Writing,
        ensures
            final(self)@ == old(self)@.poll(old(shared)@, event).driver,
            final(shared)@ == old(self)@.poll(old(shared)@, event).shared,
            action == old(self)@.poll(old(shared)@, event).action,
            action is Finish <==> old(self)@.holds_sink_after(event) && old(shared)@.pending.len()
                == 0 && old(shared)@.live_handles == 0,
    {
        shared.resume();
        let mut state = State::Empty;
        core::mem::swap(&mut self.state, &mut state);
        let sink = match state {
            State::Writing(signal) => match event {
                Event::Resumed => {
                    self.state = State::Writing(signal);
                    return Action::AwaitWrite;
                },
                Event::WriteFailed(error) => {
                    self.state = State::Writing(signal);
                    return Action::Fail(error);
                },
                Event::WriteDone(sink, message) => {
                    self.resolved = Ghost(self.resolved@.push((message, signal)));
                    let _ = signal.send(message);
                    sink
                },
            },
            State::BetweenWrites(sink) => sink,
            State::Empty => unreached(),
        };
        match shared.dequeue() {
            Some((message, signal)) => {
                self.started = Ghost(self.started@.push(message));
                self.state = State::Writing(signal);
                Action::StartWrite(sink, message)
            },
            None => {
                if shared.live_handles() == 0 {
                    Action::Finish(sink)
                } else {
                    self.state = State::BetweenWrites(sink);
                    Action::Suspend
                }
            },
        }
    }

    /// Whether a write is in flight.
    pub fn is_writing(&self) -> (writing: bool)
        ensures
            writing == (self@.state is Writing),
    {
        match &self.state {
            State::Writing(_) => true,
            _ => false,
        }
    }

    /// Whether the queue is finished and its sink handed back.
    pub fn is_finished(&self) -> (finished: bool)
        ensures
            finished == (self@.state is Empty),
    {
        match &self.state {
            State::Empty => true,
            _ => false,
        }
    }
}

} // verus!
