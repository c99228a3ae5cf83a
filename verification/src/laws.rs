//! What holds of every run of a queue.
//!
//! A run is a sequence of calls on one queue: handles send, are cloned and
//! released, the driver parks and is polled. Here a run is replayed on the
//! views of the shared state and of the driver, with the very functions by
//! which the contracts of those calls say what they do. The laws below hold
//! of every run that keeps to the contracts' `requires`.

use crate::driver::{DriverView, Event, State};
use crate::shared::{messages, SharedView};
use futures::task::Task;
use futures::Complete;
use vstd::prelude::*;

verus! {

/// A queue as a whole: what its handles and its driver share, and its driver.
#[verifier::ext_equal]
#[verifier::reject_recursive_types(M)]
pub struct System<W, M> {
    pub shared: SharedView<M>,
    pub driver: DriverView<W, M>,
}

/// One call on a queue.
#[verifier::reject_recursive_types(M)]
pub enum Op<W, M> {
    /// `Sender::send` of a message; with it, the signal that was made for it.
    Send(M, Complete<M>),
    /// `Sender::clone_handle`.
    Acquire,
    /// `Sender::release`.
    Release,
    /// `Shared::register_continuation`, by which the driver parks.
    Park(Task),
    /// `WriteQueue::poll`.
    Poll(Event<W, M>),
}

impl<W, M> System<W, M> {
    /// A queue as `write_queue` makes it.
    pub open spec fn initial(sink: W) -> Self {
        System { shared: SharedView::initial(), driver: DriverView::initial(sink) }
    }

    /// Whether the call meets the `requires` of its function.
    pub open spec fn admits(self, op: Op<W, M>) -> bool {
        match op {
            Op::Send(_, _) => self.shared.live_handles > 0,
            Op::Acquire => 0 < self.shared.live_handles < usize::MAX,
            Op::Release => self.shared.live_handles > 0,
            Op::Park(_) => self.shared.pending.len() == 0 && self.shared.live_handles > 0,
            Op::Poll(event) => !(self.driver.state is Empty) && (event is Resumed
                || self.driver.state is Writing),
        }
    }

    /// Whether the call reports a write truly: a write that is reported done
    /// gives back the message that the driver last had written.
    pub open spec fn reports_truly(self, op: Op<W, M>) -> bool {
        op matches Op::Poll(Event::WriteDone(_, message)) ==> self.driver.started.len() > 0
            && message == self.driver.started.last()
    }

    /// The queue after the call.
    pub open spec fn after(self, op: Op<W, M>) -> Self {
        match op {
            Op::Send(message, signal) => System {
                shared: self.shared.enqueue(message, signal),
                ..self
            },
            Op::Acquire => System { shared: self.shared.acquire_handle(), ..self },
            Op::Release => System { shared: self.shared.release_handle(), ..self },
            Op::Park(task) => System { shared: self.shared.register_continuation(task), ..self },
            Op::Poll(event) => System {
                shared: self.driver.poll(self.shared, event).shared,
                driver: self.driver.poll(self.shared, event).driver,
            },
        }
    }

    /// The queue after a run.
    pub open spec fn after_all(self, ops: Seq<Op<W, M>>) -> Self
        decreases ops.len(),
    {
        if ops.len() == 0 {
            self
        } else {
            self.after_all(ops.drop_last()).after(ops.last())
        }
    }

    /// Whether every call of the run meets the `requires` of its function.
    pub open spec fn admits_all(self, ops: Seq<Op<W, M>>) -> bool
        decreases ops.len(),
    {
        ops.len() > 0 ==> self.admits_all(ops.drop_last()) && self.after_all(
            ops.drop_last(),
        ).admits(ops.last())
    }

    /// Whether every call of the run reports its write truly.
    pub open spec fn reports_all_truly(self, ops: Seq<Op<W, M>>) -> bool
        decreases ops.len(),
    {
        ops.len() > 0 ==> self.reports_all_truly(ops.drop_last()) && self.after_all(
            ops.drop_last(),
        ).reports_truly(ops.last())
    }

    /// How many writes are in flight.
    pub open spec fn writes_in_flight(self) -> int {
        self.driver.started.len() - self.driver.resolved.len()
    }

    /// The order of the queue: what was sent is what was started, followed by
    /// what is pending; a write in flight is the last one started, and the
    /// only one; a parked driver has nothing to write; and a finished queue
    /// has neither a backlog nor a handle.
    spec fn in_order(self) -> bool {
        let sent = self.shared.sent;
        let started = self.driver.started;
        &&& sent.len() == started.len() + self.shared.pending.len()
        &&& started == messages(sent.take(started.len() as int))
        &&& self.shared.pending == sent.skip(started.len() as int)
        &&& self.driver.resolved.len() <= started.len()
        &&& match self.driver.state {
            State::Writing(signal) => {
                &&& self.writes_in_flight() == 1
                &&& signal == sent[started.len() - 1].1
            },
            _ => self.writes_in_flight() == 0,
        }
        &&& self.shared.continuation is Some ==> self.shared.pending.len() == 0
        &&& self.driver.state is Empty ==> self.shared.pending.len() == 0
            && self.shared.live_handles == 0
    }

    /// Each signal that was resolved is the signal of a message that was sent,
    /// resolved to that message, in the order of sending.
    spec fn resolved_in_order(self) -> bool {
        self.driver.resolved == self.shared.sent.take(self.driver.resolved.len() as int)
    }
}

/// A call that meets its `requires` keeps the order of the queue.
proof fn lemma_call_keeps_order<W, M>(system: System<W, M>, op: Op<W, M>)
    requires
        system.in_order(),
        system.admits(op),
    ensures
        system.after(op).in_order(),
{
    let next = system.after(op);
    let sent = system.shared.sent;
    let started = system.driver.started;
    let n = started.len() as int;
    match op {
        Op::Send(_, _) => {
            assert(next.shared.sent.take(n) == sent.take(n));
            assert(next.shared.pending == next.shared.sent.skip(n));
        },
        Op::Poll(event) => {
            if system.driver.holds_sink_after(event) && system.shared.pending.len() > 0 {
                assert(next.driver.started == messages(sent.take(n + 1)));
                assert(next.shared.pending == sent.skip(n + 1));
            }
        },
        _ => {},
    }
}

/// A call that meets its `requires` and reports its write truly keeps the
/// resolved signals in the order of sending.
proof fn lemma_call_keeps_resolved<W, M>(system: System<W, M>, op: Op<W, M>)
    requires
        system.in_order(),
        system.resolved_in_order(),
        system.admits(op),
        system.reports_truly(op),
    ensures
        system.after(op).resolved_in_order(),
{
    let next = system.after(op);
    let sent = system.shared.sent;
    let k = system.driver.resolved.len() as int;
    match op {
        Op::Send(_, _) => {
            assert(next.shared.sent.take(k) == sent.take(k));
        },
        Op::Poll(event) => {
            if system.driver.state is Writing && event is WriteDone {
                assert(sent.take(k + 1) == sent.take(k).push(sent[k]));
            }
        },
        _ => {},
    }
}

/// Every run that keeps to the contracts ends in order.
proof fn lemma_run_keeps_order<W, M>(sink: W, ops: Seq<Op<W, M>>)
    requires
        System::initial(sink).admits_all(ops),
    ensures
        System::initial(sink).after_all(ops).in_order(),
    decreases ops.len(),
{
    let start = System::<W, M>::initial(sink);
    if ops.len() == 0 {
        assert(start.driver.started == messages(start.shared.sent.take(0)));
        assert(start.shared.pending == start.shared.sent.skip(0));
    } else {
        lemma_run_keeps_order(sink, ops.drop_last());
        lemma_call_keeps_order(start.after_all(ops.drop_last()), ops.last());
    }
}

/// Every run that keeps to the contracts and reports its writes truly has
/// resolved its signals in the order of sending.
proof fn lemma_run_keeps_resolved<W, M>(sink: W, ops: Seq<Op<W, M>>)
    requires
        System::initial(sink).admits_all(ops),
        System::initial(sink).reports_all_truly(ops),
    ensures
        System::initial(sink).after_all(ops).resolved_in_order(),
    decreases ops.len(),
{
    let start = System::<W, M>::initial(sink);
    if ops.len() == 0 {
        assert(start.driver.resolved == start.shared.sent.take(0));
    } else {
        lemma_run_keeps_resolved(sink, ops.drop_last());
        lemma_run_keeps_order(sink, ops.drop_last());
        lemma_call_keeps_resolved(start.after_all(ops.drop_last()), ops.last());
    }
}

/// First in, first out. After any run, with any number of handles, the
/// messages whose writes were started are the first of the messages sent, in
/// the order in which they were sent, and the backlog holds the rest.
pub proof fn writes_follow_send_order<W, M>(sink: W, ops: Seq<Op<W, M>>)
    requires
        System::initial(sink).admits_all(ops),
    ensures
        ({
            let end = System::initial(sink).after_all(ops);
            &&& end.driver.started.len() <= end.shared.sent.len()
            &&& end.driver.started == messages(end.shared.sent).take(
                end.driver.started.len() as int,
            )
            &&& messages(end.shared.pending) == messages(end.shared.sent).skip(
                end.driver.started.len() as int,
            )
        }),
{
    lemma_run_keeps_order(sink, ops);
}

/// Completion exactly once. After any run in which each finished write gave
/// back the message it was given, every write that finished has resolved one
/// signal, and the signals resolved are those of the first messages sent,
/// each resolved to its own message.
pub proof fn written_messages_resolve_once<W, M>(sink: W, ops: Seq<Op<W, M>>)
    requires
        System::initial(sink).admits_all(ops),
        System::initial(sink).reports_all_truly(ops),
    ensures
        ({
            let end = System::initial(sink).after_all(ops);
            &&& end.driver.resolved.len() <= end.shared.sent.len()
            &&& end.driver.resolved == end.shared.sent.take(end.driver.resolved.len() as int)
            &&& end.driver.started.len() == end.driver.resolved.len() + (if end.driver.state
                is Writing {
                1int
            } else {
                0int
            })
        }),
{
    lemma_run_keeps_order(sink, ops);
    lemma_run_keeps_resolved(sink, ops);
}

/// No two writes at once. After any run, one write is in flight while the
/// driver is writing, and none otherwise.
pub proof fn one_write_at_a_time<W, M>(sink: W, ops: Seq<Op<W, M>>)
    requires
        System::initial(sink).admits_all(ops),
    ensures
        ({
            let end = System::initial(sink).after_all(ops);
            end.writes_in_flight() == (if end.driver.state is Writing {
                1int
            } else {
                0int
            })
        }),
{
    lemma_run_keeps_order(sink, ops);
}

/// No wake-up is missed. After any run, a driver that is parked has an empty
/// backlog: whatever was sent since it parked has woken it.
pub proof fn parked_driver_has_empty_backlog<W, M>(sink: W, ops: Seq<Op<W, M>>)
    requires
        System::initial(sink).admits_all(ops),
    ensures
        ({
            let end = System::initial(sink).after_all(ops);
            end.shared.continuation is Some ==> end.shared.pending.len() == 0
        }),
{
    lemma_run_keeps_order(sink, ops);
}

/// A queue finishes for good. After any run, a queue whose driver has
/// finished has an empty backlog and no handle, and no further call on it
/// meets its `requires`: nothing can be sent that would never be written.
pub proof fn finished_queue_is_drained<W, M>(sink: W, ops: Seq<Op<W, M>>)
    requires
        System::initial(sink).admits_all(ops),
    ensures
        ({
            let end = System::initial(sink).after_all(ops);
            end.driver.state is Empty ==> {
                &&& end.shared.pending.len() == 0
                &&& end.shared.live_handles == 0
                &&& forall|op: Op<W, M>| !end.admits(op)
            }
        }),
{
    lemma_run_keeps_order(sink, ops);
}

/// Handles that are gone stay gone. Once no handle is alive, none is alive
/// after any further run.
pub proof fn gone_handles_stay_gone<W, M>(system: System<W, M>, ops: Seq<Op<W, M>>)
    requires
        system.shared.live_handles == 0,
        system.admits_all(ops),
    ensures
        system.after_all(ops).shared.live_handles == 0,
    decreases ops.len(),
{
    if ops.len() > 0 {
        gone_handles_stay_gone(system, ops.drop_last());
    }
}

/// The calls by which handles send the entries, one after the other.
pub open spec fn sends<W, M>(entries: Seq<(M, Complete<M>)>) -> Seq<Op<W, M>> {
    Seq::new(entries.len(), |i: int| Op::Send(entries[i].0, entries[i].1))
}

/// The polls of a driver that is resumed and then sees each of its writes
/// done: the write of `entries[i]` gives back `sinks[i]` and the message.
pub open spec fn writes<W, M>(entries: Seq<(M, Complete<M>)>, sinks: Seq<W>) -> Seq<Op<W, M>> {
    seq![Op::Poll(Event::Resumed)] + Seq::new(
        entries.len(),
        |i: int| Op::Poll(Event::WriteDone(sinks[i], entries[i].0)),
    )
}

/// A run in two parts is the first part, then the second.
proof fn lemma_run_in_two_parts<W, M>(
    system: System<W, M>,
    first: Seq<Op<W, M>>,
    second: Seq<Op<W, M>>,
)
    ensures
        system.after_all(first + second) == system.after_all(first).after_all(second),
        system.admits_all(first + second) <==> system.admits_all(first) && system.after_all(
            first,
        ).admits_all(second),
        system.reports_all_truly(first + second) <==> system.reports_all_truly(first)
            && system.after_all(first).reports_all_truly(second),
    decreases second.len(),
{
    if second.len() > 0 {
        assert((first + second).drop_last() == first + second.drop_last());
        lemma_run_in_two_parts(system, first, second.drop_last());
    }
}

/// What a run of sends does: the entries join the backlog in their order,
/// and the first of them wakes a parked driver.
proof fn lemma_after_sends<W, M>(system: System<W, M>, entries: Seq<(M, Complete<M>)>)
    requires
        system.shared.live_handles > 0,
    ensures
        system.admits_all(sends(entries)),
        system.reports_all_truly(sends(entries)),
        ({
            let next = system.after_all(sends(entries));
            &&& next.driver == system.driver
            &&& next.shared.pending == system.shared.pending + entries
            &&& next.shared.sent == system.shared.sent + entries
            &&& next.shared.live_handles == system.shared.live_handles
            &&& entries.len() > 0 ==> next.shared.continuation is None
            &&& entries.len() > 0 ==> next.shared.woken == match system.shared.continuation {
                Some(task) => system.shared.woken.push(task),
                None => system.shared.woken,
            }
        }),
    decreases entries.len(),
{
    if entries.len() > 0 {
        let earlier = entries.drop_last();
        assert(sends::<W, M>(entries).drop_last() == sends::<W, M>(earlier));
        lemma_after_sends(system, earlier);
    }
}

/// Where a driver stands that was resumed with `entries` as its backlog and
/// has taken the first `taken` of its polls, each write having been done.
spec fn draining<W, M>(
    start: System<W, M>,
    entries: Seq<(M, Complete<M>)>,
    taken: int,
    now: System<W, M>,
) -> bool {
    let written = if taken <= entries.len() {
        taken
    } else {
        entries.len() as int
    };
    &&& now.driver.started == start.driver.started + messages(entries.take(written))
    &&& now.driver.resolved == start.driver.resolved + entries.take(taken - 1)
    &&& now.shared.pending == entries.skip(written)
    &&& now.shared.sent == start.shared.sent
    &&& now.shared.live_handles == start.shared.live_handles
    &&& if taken <= entries.len() {
        now.driver.state == State::<W, M>::Writing(entries[taken - 1].1)
    } else {
        !(now.driver.state is Writing)
    }
}

/// A driver that is resumed with a backlog and sees each write done starts
/// the writes in the order of the backlog, one with each poll.
proof fn lemma_after_writes<W, M>(
    start: System<W, M>,
    entries: Seq<(M, Complete<M>)>,
    sinks: Seq<W>,
    taken: int,
)
    requires
        start.driver.state is BetweenWrites,
        start.shared.pending == entries,
        sinks.len() == entries.len(),
        1 <= taken <= entries.len() + 1,
    ensures
        start.admits_all(writes(entries, sinks).take(taken)),
        start.reports_all_truly(writes(entries, sinks).take(taken)),
        draining(start, entries, taken, start.after_all(writes(entries, sinks).take(taken))),
    decreases taken,
{
    let polls = writes(entries, sinks);
    let run = polls.take(taken);
    assert(run.drop_last() == polls.take(taken - 1));
    let before = start.after_all(polls.take(taken - 1));
    let now = before.after(polls[taken - 1]);
    if taken == 1 {
        assert(start.admits_all(polls.take(0)));
        assert(start.reports_all_truly(polls.take(0)));
        if entries.len() > 0 {
            assert(messages(entries.take(1)) == seq![entries[0].0]);
            assert(start.driver.started.push(entries[0].0) == start.driver.started + seq![
                entries[0].0,
            ]);
        } else {
            assert(entries.skip(0) == entries);
        }
    } else {
        lemma_after_writes(start, entries, sinks, taken - 1);
        let done = taken - 2;
        assert(before.driver.resolved.push((entries[done].0, entries[done].1))
            == start.driver.resolved + entries.take(taken - 1));
        if taken <= entries.len() {
            assert(now.driver.started == start.driver.started + messages(entries.take(taken)));
            assert(before.shared.pending.drop_first() == entries.skip(taken));
        }
    }
}

/// A burst is drained. Let a driver be parked with an empty backlog and a
/// live handle, and let handles then send any number of messages. The first
/// of them wakes the driver, and none is lost: once the driver is resumed and
/// sees each of its writes done, it has started the writes of all of them in
/// the order in which they were sent, has resolved the signal of each to its
/// message, and has left the backlog empty.
pub proof fn burst_is_written_in_order<W, M>(
    parked: System<W, M>,
    burst: Seq<(M, Complete<M>)>,
    sinks: Seq<W>,
)
    requires
        parked.driver.state is BetweenWrites,
        parked.shared.pending.len() == 0,
        parked.shared.continuation is Some,
        parked.shared.live_handles > 0,
        burst.len() > 0,
        sinks.len() == burst.len(),
    ensures
        parked.admits_all(sends(burst) + writes(burst, sinks)),
        parked.reports_all_truly(sends(burst) + writes(burst, sinks)),
        ({
            let woken = parked.after_all(sends(burst));
            let drained = parked.after_all(sends(burst) + writes(burst, sinks));
            &&& woken.shared.continuation is None
            &&& woken.shared.woken == parked.shared.woken.push(parked.shared.continuation->0)
            &&& woken.shared.pending == burst
            &&& drained.driver.started == parked.driver.started + messages(burst)
            &&& drained.driver.resolved == parked.driver.resolved + burst
            &&& drained.shared.pending.len() == 0
            &&& !(drained.driver.state is Writing)
        }),
{
    let polls = writes(burst, sinks);
    lemma_after_sends(parked, burst);
    let woken = parked.after_all(sends(burst));
    lemma_after_writes(woken, burst, sinks, burst.len() as int + 1);
    assert(polls.take(burst.len() as int + 1) == polls);
    lemma_run_in_two_parts(parked, sends(burst), polls);
}

} // verus!
