//! Channels with a unified selection model.
//!
//! The crate provides several kinds of channels whose receivers, and mostly also senders, can stand
//! in the arms of one select.
//!
//! ## Channels
//! - [`unbounded_mpmc`]: unbounded, multi-producer, multi-consumer.
//! - [`bounded_mpmc`]: bounded, multi-producer, multi-consumer.
//! - [`bounded_mpsc`]: bounded, multi-producer, single-consumer; also one-time timers.
//! - [`unbounded_mpsc`]: unbounded, multi-producer, single-consumer.
//! - [`bounded_broadcast`]: every receiver gets every message, with lag detection and independent
//!   cursors.
//! - [`oneshot`]: a single message.
//! - [`watch`]: the latest value, with change notifications.
//! - [`rendezvous`]: synchronous handoff without a buffer.
//! - [`interval`]: a repeating timer as a receiver.
//!
//! ## Selection
//! - [`Select`] selects among recv and send arms, blocking, with a time limit, or without waiting.
//! - [`worlds`] lets the arms of one select be on several channels.
//!
//! ## Steps
//! A channel is a plain value, shared however the runtime likes, and its handles operate on it
//! through `&mut`. Nothing in this crate blocks. A blocking operation is a sequence of steps: the
//! first one either completes or registers the calling thread as a waiter, a second look makes sure
//! that nothing was missed in between, and then the runtime parks the thread. Whoever makes the
//! operation possible enters the thread in the log of the [`waiter::Board`]; the runtime unparks it
//! and takes the next step. What other threads do between two steps is left open.
//!
//! ## Errors
//! - [`RecvError`] for blocking receives, with `Lagged` for broadcast receivers that fell behind.
//! - [`TryRecvError`] for receives that do not wait.
//! - [`SendError`] for failed sends; it hands the message back.
pub mod backlog;
pub mod bounded_broadcast;
pub mod bounded_mpmc;
pub mod bounded_mpsc;
pub mod buffer;
pub mod error;
pub mod internals;
pub mod interval;
pub mod liveness;
pub mod oneshot;
pub mod parked;
pub mod ports;
pub mod rendezvous;
pub mod select;
pub mod selectable;
pub mod store;
pub mod tickets;
pub mod unbounded_mpmc;
pub mod unbounded_mpsc;
pub mod waiter;
pub mod watch;
pub mod worlds;

pub use error::{RecvError, SendError, TryRecvError};
pub use select::{Select, SelectedOperation};
pub use selectable::{ArmOpTrait, SelectableReceiver, SelectableSender};
