//! Timeout-bounded framing over a non-blocking byte channel.
//!
//! The core turns a non-blocking single-byte serial peripheral plus a
//! restartable timer into three blocking operations: a single-byte read with
//! a timeout, a frame read that assembles bytes in a caller-owned ring buffer
//! until a recognizer accepts, and a bulk write that spins until every byte
//! is accepted. The peripherals are capabilities supplied by the caller
//! through the traits in [`timing`] and [`channel`].

pub mod channel;
pub mod recognizers;
pub mod ring;
pub mod scripted;
pub mod serial;
pub mod timing;
