//! A node runtime for a distributed-systems test harness that speaks
//! newline-delimited JSON over standard input and output: the wire
//! codec, the outbound port with its pending-request table and tender,
//! the timer registry, the event dispatcher, and the reference
//! workloads built on them.  The process around it — file descriptors,
//! threads and the clock — stays outside; the library works on decoded
//! envelopes and plain milliseconds.

use vstd::prelude::*;

pub mod assoc;
pub mod io;
pub mod json;
pub mod node;
pub mod parse;
pub mod proto;
pub mod text;
pub mod timer;
pub mod workloads;

verus! {

/// A fatal runtime error: the wire text could not be decoded, a
/// handler rejected an envelope or a timer it can never accept, or a
/// counter outgrew the machine — every one ends the process.
#[derive(Debug)]
pub enum Error {
    Decode,
    UnexpectedMessage,
    UnexpectedTimeout,
    SeqExhausted,
    Overflow,
}

} // verus!
