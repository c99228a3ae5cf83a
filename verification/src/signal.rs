//! What the queue takes from other crates: the completion signal and the
//! wake-up token from `futures`, and the error of a failed write from
//! `capnp`. None of this is verified: the types are opaque, and of the three
//! functions only what is written here is assumed.
//!
//! `Complete` and `Oneshot` are the names under which `futures` first had the
//! two halves of its one-shot channel. They are used throughout, since
//! `Sender` is the name of the queue's own handle.

use capnp::Error;
use futures::sync::oneshot;
use futures::task::Task;
use futures::{Complete, Oneshot};
use vstd::prelude::*;

verus! {

/// The resolving half of a one-shot channel. Nothing inside it is visible to
/// the verified code, which only carries it from `send` to the write's end.
#[verifier::external_type_specification]
#[verifier::external_body]
#[verifier::reject_recursive_types(T)]
pub struct ExComplete<T>(Complete<T>);

/// The awaiting half of a one-shot channel, handed to the producer.
#[verifier::external_type_specification]
#[verifier::external_body]
#[verifier::reject_recursive_types(T)]
pub struct ExOneshot<T>(Oneshot<T>);

/// A handle by which a parked task is told to poll again.
#[verifier::external_type_specification]
#[verifier::external_body]
pub struct ExTask(Task);

/// The error of a failed write. It is passed on as it came.
#[verifier::external_type_specification]
#[verifier::external_body]
pub struct ExError(Error);

/// `futures::sync::oneshot::channel` allocates a fresh channel and returns
/// its resolving and its awaiting half. Nothing is assumed of the two: that
/// what goes in at one comes out at the other is the promise of `futures`,
/// and no proof here rests on it.
pub assume_specification<T>[ oneshot::channel::<T> ]() -> (halves: (Complete<T>, Oneshot<T>));

/// `futures::sync::oneshot::Sender::send` consumes the resolving half and
/// offers `t` to the awaiting half. A value that could not be delivered,
/// because the awaiting half is gone, comes back in `Err`: that is assumed,
/// and nothing else. The call also notifies a task that waits on the awaiting
/// half.
pub assume_specification<T>[ Complete::<T>::send ](signal: Complete<T>, t: T) -> (delivered:
    Result<(), T>)
    ensures
        delivered matches Err(returned) ==> returned == t,
;

/// `futures::task::Task::notify` tells the executor of the task to poll the
/// task again. It returns nothing, and nothing is assumed of it; what the
/// executor does when it is notified is the executor's own.
pub assume_specification[ Task::notify ](task: &Task);

} // verus!
