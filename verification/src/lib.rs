//! A panel of stateful buttons whose writes are propagated, as ordered
//! messages, to a shared table of named parameters.
//!
//! The library holds the state and every decision: what a write does to a
//! button, which message it sends, what a kind of button adds to a write,
//! what the drivers of a panel do to it, and what the consumer of the
//! messages does to the table. It takes no lock and owns no channel: a
//! function that changes a panel or a table takes it by `&mut`, one that
//! reads takes it by `&`, and a write hands its message back to the caller,
//! who sends it and waits where the channel is full.

pub mod button;
pub mod drivers;
pub mod panel;
pub mod params;
pub mod propagation;
pub mod text;
