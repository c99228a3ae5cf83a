//! An ordered write queue.
//!
//! Any number of producers send messages through handles. One driver writes
//! them to a single sink, one at a time, in the order in which they were
//! sent, and resolves for each message a signal that its producer can wait
//! for. The queue is finished, and gives the sink back, when every handle has
//! been released and the backlog is written.
//!
//! The library keeps the queue's state and takes its decisions. It does not
//! write, park or share: the caller owns the three parts that `write_queue`
//! returns, hands the shared state to each call, performs the writes that
//! `WriteQueue::poll` asks for and reports how they went.
//!
//! The shared state and the driver each have a view, which holds beside the
//! state the history of what was done through it. The contracts say what a
//! call does to the views, and module `laws` proves from them what holds of
//! every run: writes follow the order of sending, each write resolves its own
//! signal once, no two writes are in flight together, a parked driver misses
//! no message, and a queue finishes only when nothing is left to write.

#![allow(deprecated)]

pub mod driver;
pub mod laws;
pub mod sender;
pub mod shared;
pub mod signal;

pub use driver::{write_queue, Action, Event, State, WriteQueue};
pub use sender::Sender;
pub use shared::Shared;
