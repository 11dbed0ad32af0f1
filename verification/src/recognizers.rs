//! Ready-made frame recognizers. Each one is a pure function of the ring
//! buffer contents and the write cursor, as the [`Recognizer`] contract
//! demands, and each tolerates a wrapped buffer by indexing in ring terms.

use crate::ring::{ring_back, ring_window, ring_window_of};
use crate::serial::{Error, Recognizer};
use vstd::prelude::*;

verus! {

/// Carriage return, the first byte of the line terminator.
pub const CARRIAGE_RETURN: u8 = 0x0D;

/// Line feed, the second byte of the line terminator.
pub const LINE_FEED: u8 = 0x0A;

/// Accepts as soon as the two newest bytes are a carriage return followed by
/// a line feed, and parses the frame as the whole ring window ending at the
/// cursor, oldest byte first.
pub struct CrLfTerminated;

impl Recognizer for CrLfTerminated {
    type Frame = Vec<u8>;

    open spec fn spec_recognize(&self, buf: Seq<u8>, cursor: int) -> Option<Seq<u8>> {
        if buf.len() >= 2 && buf[ring_back(cursor, buf.len() as int, 2)] == CARRIAGE_RETURN && buf[
            ring_back(cursor, buf.len() as int, 1)
        ] == LINE_FEED {
            Some(ring_window(buf, cursor))
        } else {
            None
        }
    }

    fn recognize(&self, buffer: &[u8], cursor: usize) -> (r: Option<Vec<u8>>) {
        let len = buffer.len();
        if len < 2 {
            return None;
        }
        let newest = if cursor >= 1 {
            cursor - 1
        } else {
            len - 1
        };
        let second = if cursor >= 2 {
            cursor - 2
        } else {
            len - (2 - cursor)
        };
        if buffer[second] == CARRIAGE_RETURN && buffer[newest] == LINE_FEED {
            Some(ring_window_of(buffer, cursor))
        } else {
            None
        }
    }
}

/// Accepts as soon as the newest byte equals a fixed target byte, whatever
/// stands elsewhere in the buffer, and parses the frame as that byte.
pub struct NewestByteIs {
    /// The byte that ends a frame.
    pub target: u8,
}

impl Recognizer for NewestByteIs {
    type Frame = u8;

    open spec fn spec_recognize(&self, buf: Seq<u8>, cursor: int) -> Option<u8> {
        if buf.len() >= 1 && buf[ring_back(cursor, buf.len() as int, 1)] == self.target {
            Some(self.target)
        } else {
            None
        }
    }

    fn recognize(&self, buffer: &[u8], cursor: usize) -> (r: Option<u8>) {
        let newest = if cursor >= 1 {
            cursor - 1
        } else {
            buffer.len() - 1
        };
        if buffer[newest] == self.target {
            Some(self.target)
        } else {
            None
        }
    }
}

/// A recognizer that never accepts, whatever it is shown.
pub struct NeverAccepts;

impl Recognizer for NeverAccepts {
    type Frame = u8;

    open spec fn spec_recognize(&self, buf: Seq<u8>, cursor: int) -> Option<u8> {
        None
    }

    fn recognize(&self, buffer: &[u8], cursor: usize) -> (r: Option<u8>) {
        None
    }
}

/// Law: assembling with a recognizer that never accepts cannot produce a
/// frame. The assembler's contract says a returned frame was accepted by the
/// recognizer on the final buffer and cursor; [`NeverAccepts`] accepts
/// nothing, so any outcome that meets that contract is an error — and the
/// assembler's loop carries a termination measure, so given a finite timeout
/// the error arrives rather than the call spinning forever.
pub proof fn lemma_never_accepts_no_frame<E>(
    parser: NeverAccepts,
    r: Result<u8, Error<E>>,
    buf: Seq<u8>,
    cursor: int,
)
    requires
        r matches Ok(frame) ==> parser.spec_recognize(buf, cursor) == Some(frame@),
    ensures
        r is Err,
{
}

/// Law: once the remote stream goes silent and the peripheral is healthy,
/// assembly with a recognizer that never accepts must end in `TimedOut`. The
/// assembler's contract makes a frame an acceptance by the recognizer — which
/// [`NeverAccepts`] never grants — and a hardware error a consumed fault —
/// which a channel with no fault left to report cannot supply. The `requires`
/// are those two clauses of the assembler's contract; the assembler's
/// termination measure already rules out looping forever, so the timeout
/// arrives after finitely many polls.
pub proof fn lemma_never_accepts_silent_times_out<E>(
    parser: NeverAccepts,
    r: Result<u8, Error<E>>,
    buf: Seq<u8>,
    cursor: int,
    faults_left_pre: nat,
    faults_left_post: nat,
)
    requires
        faults_left_pre == 0,
        r matches Ok(frame) ==> parser.spec_recognize(buf, cursor) == Some(frame@),
        r matches Err(Error::Serial(_)) ==> faults_left_post < faults_left_pre,
    ensures
        r matches Err(Error::TimedOut),
{
}

} // verus!
