//! A verified core for a terminal helper that replays a failed shell
//! command, streams an assistant's explanation over the network, and
//! renders it live.
//!
//! The verified parts are the pieces with real ordering, partial-data
//! and state-machine concerns: reassembling a chunked response body
//! into protocol frames, extracting text deltas from those frames,
//! classifying the accumulated response into styled lines, the event
//! loop's state machine, and the shell-history parsing.  Network and
//! terminal I/O live outside this crate and hand it plain values.

pub mod classify;
pub mod extract;
pub mod frames;
pub mod orchestrator;
pub mod request;
pub mod shell;
pub mod text;
