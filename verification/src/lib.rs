//! Control of a Red Pitaya oscilloscope and signal generator over its
//! line-oriented network protocol.
//!
//! The crate holds the protocol logic only and performs no input or output:
//! every function computes on plain values, and the program around it owns
//! the socket, the queues and the clock.
//!
//! * [`text`] has what the other modules need to walk through strings.
//! * [`wire`] frames outgoing commands and unframes incoming lines.
//! * [`session`] knows the instrument's vocabulary and tracks whether
//!   acquisition has been started.
//! * [`worker`] is the sequential state machine that turns command tokens
//!   into exchanges with the device; [`sequencing`] proves what holds of
//!   its runs: the device sees the commands in the order of the tokens, and
//!   every payload answers one data query.
//! * [`reply`] decodes and encodes the sample lists that answer a data
//!   query; [`round_trip`] proves that the two undo each other.
//! * [`presentation`] holds the decisions of the render loop: which tokens a
//!   frame enqueues and how frames are paced.

pub mod presentation;
pub mod reply;
pub mod round_trip;
pub mod sequencing;
pub mod session;
pub mod text;
pub mod wire;
pub mod worker;
