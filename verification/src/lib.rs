//! A minimal, high-throughput HTTP/1.1 responder core: a dual-slot buffer
//! recycler for completion-style I/O, a byte-stream request framer, the
//! per-connection pipeline state machine, and the process-wide request
//! counter model.

pub mod cli;
pub mod common;
pub mod counter;
pub mod dual_ring_buffer;
pub mod h1;
