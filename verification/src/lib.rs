//! Decision logic of an agent loop that drives a thread from its session
//! history to a model request, through tool rounds, and back to history.
//!
//! Each module holds one concern of the loop as plain data and functions
//! with contracts; the surrounding runtime performs the I/O that these
//! functions decide on.

pub mod text;
pub mod retry;
pub mod json;
pub mod history;
pub mod stream;
pub mod recovery;
pub mod events;
pub mod commands;
pub mod turn;
pub mod tools;
pub mod sweep;
pub mod replay;
pub mod compaction;
pub mod round;
pub mod appends;
pub mod failure;
