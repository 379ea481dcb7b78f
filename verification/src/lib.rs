//! A verified core for a terminal counter-keeping application.
//!
//! The library holds the data model (named counters with a selection),
//! the input-mode state machine that interprets keystrokes, the text that
//! each screen region shows, and the snapshot codec that turns the counter
//! list into its on-disk text form and back.  Terminal handling and file
//! I/O live outside the library and talk to it through plain values.

pub mod codec;
pub mod mode;
pub mod num;
pub mod render;
pub mod state;
pub mod store;
