//! A packet-processing dataflow runtime: small links that pull packets from
//! streams, push them through bounded queues and park on a one-slot cell when
//! a queue cannot take or give any more.
//!
//! A stream answers a pull with a packet, with the end, or with `NotReady`;
//! a runnable answers a turn with progress, with its end, or by being
//! blocked. Every link is a state machine over these two: each turn is one
//! call, which returns the tasks that the executor is to notify. A link owns
//! both ends of its queues, so that what its ports were sent, what they have
//! handed out and what its input has yet to give can be held against each
//! other at every step.
//!
//! - `stream`: the outcomes of a pull and of a turn, the stream trait and
//!   the streams over a list of packets.
//! - `task_park`: the one-slot cell and its transitions.
//! - `queue`, `queue_egressor`: the bounded queue, and the queue with its
//!   park and its two ends.
//! - `processor`, `process_link`: per-packet transformations, pulled through.
//! - `queue_link`, `async_element`: one input, one queue, one output.
//! - `fork_link`, `classify_link`, `join_link`: one input to N copies, one
//!   input to N classes, N inputs to one output.
//! - `blackhole_link`: any number of inputs to nowhere.
//! - `channel_link`: the system boundary, an external channel in and an
//!   external channel out.

pub mod async_element;
pub mod blackhole_link;
pub mod channel_link;
pub mod classify_link;
pub mod fork_link;
pub mod join_link;
pub mod process_link;
pub mod processor;
pub mod queue;
pub mod queue_egressor;
pub mod queue_link;
pub mod stream;
pub mod task_park;
