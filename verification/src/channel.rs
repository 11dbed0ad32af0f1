//! The byte-channel capability: non-blocking single-byte reads and writes.

use vstd::prelude::*;

verus! {

/// What a non-blocking read of the channel reports.
pub enum ReadPoll<E> {
    /// A byte arrived.
    Ready(u8),
    /// No byte is available yet.
    Pending,
    /// The peripheral reported a hardware error.
    Failed(E),
}

/// What a non-blocking write of one byte to the channel reports.
pub enum WritePoll<E> {
    /// The peripheral accepted the byte.
    Accepted,
    /// The peripheral cannot take the byte yet.
    Pending,
    /// The peripheral reported a hardware error.
    Failed(E),
}

/// A channel that yields bytes one at a time, polled without blocking.
///
/// Its ghost model is two histories and two bounds. `bytes_read` is every
/// byte it has delivered, in delivery order; a successful poll appends
/// exactly the delivered byte and every other poll leaves the history alone.
/// `faults` is every hardware error it has reported, in order; a failed poll
/// appends exactly the reported error, so a caller's contract can tie the
/// error it returns to the one the peripheral reported. `supply` bounds how
/// many more bytes the channel can deliver and `faults_left` how many more
/// faults it can report: together they say what a silent, healthy remote
/// looks like (both zero), which is what lets a caller conclude that only a
/// timeout is left.
pub trait SerialRead: Sized {
    /// The peripheral's native hardware error.
    type Error;

    /// Every byte this channel has delivered so far, oldest first.
    /// The default stands only for implementations that no proof reads;
    /// an implementation verified against this trait gives its own model.
    open spec fn bytes_read(&self) -> Seq<u8> {
        Seq::empty()
    }

    /// Every hardware error this channel has reported so far, oldest first.
    /// Defaulted as `bytes_read` is.
    open spec fn faults(&self) -> Seq<Self::Error> {
        Seq::empty()
    }

    /// An upper bound on how many more bytes this channel can deliver.
    /// Defaulted as `bytes_read` is.
    open spec fn supply(&self) -> nat {
        0
    }

    /// An upper bound on how many more faults this channel can report.
    /// Defaulted as `bytes_read` is.
    open spec fn faults_left(&self) -> nat {
        0
    }

    /// Poll the channel for one byte without blocking.
    fn read(&mut self) -> (r: ReadPoll<Self::Error>)
        ensures
            final(self).supply() <= old(self).supply(),
            final(self).faults_left() <= old(self).faults_left(),
            match r {
                ReadPoll::Ready(byte) => {
                    &&& final(self).bytes_read() == old(self).bytes_read().push(byte)
                    &&& final(self).faults() == old(self).faults()
                    &&& final(self).supply() < old(self).supply()
                },
                ReadPoll::Pending => {
                    &&& final(self).bytes_read() == old(self).bytes_read()
                    &&& final(self).faults() == old(self).faults()
                },
                ReadPoll::Failed(e) => {
                    &&& final(self).bytes_read() == old(self).bytes_read()
                    &&& final(self).faults() == old(self).faults().push(e)
                    &&& final(self).faults_left() < old(self).faults_left()
                },
            },
    ;
}

/// A channel that accepts bytes one at a time, polled without blocking.
///
/// Its ghost model is the history `bytes_written` of bytes the peripheral has
/// accepted, in channel order, and the history `faults` of hardware errors it
/// has reported. An accepted write appends exactly the written byte; a failed
/// write appends exactly the reported error; a pending write changes neither.
/// `stall_bound` bounds how many more times in a row the peripheral can stay
/// busy before it answers an offered byte: every pending poll strictly
/// consumes it, and an answer may reset it. A peripheral that never answers
/// cannot satisfy this model; one that answers each byte after finitely many
/// polls always can.
pub trait SerialWrite: Sized {
    /// The peripheral's native hardware error.
    type Error;

    /// Every byte the peripheral has accepted so far, oldest first.
    /// The default stands only for implementations that no proof reads;
    /// an implementation verified against this trait gives its own model.
    open spec fn bytes_written(&self) -> Seq<u8> {
        Seq::empty()
    }

    /// Every hardware error the peripheral has reported so far, oldest first.
    /// Defaulted as `bytes_written` is.
    open spec fn faults(&self) -> Seq<Self::Error> {
        Seq::empty()
    }

    /// How many more pending polls the peripheral can report before it
    /// accepts or rejects an offered byte. Defaulted as `bytes_written` is.
    open spec fn stall_bound(&self) -> nat {
        0
    }

    /// Offer one byte to the channel without blocking.
    fn write(&mut self, byte: u8) -> (r: WritePoll<Self::Error>)
        ensures
            match r {
                WritePoll::Accepted => {
                    &&& final(self).bytes_written() == old(self).bytes_written().push(byte)
                    &&& final(self).faults() == old(self).faults()
                },
                WritePoll::Pending => {
                    &&& final(self).bytes_written() == old(self).bytes_written()
                    &&& final(self).faults() == old(self).faults()
                    &&& final(self).stall_bound() < old(self).stall_bound()
                },
                WritePoll::Failed(e) => {
                    &&& final(self).bytes_written() == old(self).bytes_written()
                    &&& final(self).faults() == old(self).faults().push(e)
                },
            },
    ;
}

} // verus!
