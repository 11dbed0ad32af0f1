//! Deterministic, scripted implementations of the channel and timer
//! capabilities. They replay a fixed script of link behaviour, so a caller
//! can drive the core operations without hardware and observe exactly what
//! was delivered and accepted.

use crate::channel::{ReadPoll, SerialRead, SerialWrite, WritePoll};
use crate::timing::{LongTimer, Millisecond, TimerPoll};
use vstd::prelude::*;

verus! {

/// One scripted behaviour of the remote end at one poll of the channel.
#[derive(Clone, Copy, PartialEq, Eq, Structural, Debug)]
pub enum LinkEvent {
    /// A byte arrives.
    Byte(u8),
    /// The line is idle for this poll.
    Idle,
    /// The peripheral reports the given hardware error code.
    Fault(u8),
}

/// How many byte events a sequence of link events holds.
pub open spec fn byte_event_count(events: Seq<LinkEvent>) -> nat
    decreases events.len(),
{
    if events.len() == 0 {
        0
    } else {
        match events[0] {
            LinkEvent::Byte(_) => 1 + byte_event_count(events.skip(1)),
            _ => byte_event_count(events.skip(1)),
        }
    }
}

/// How many fault events a sequence of link events holds.
pub open spec fn fault_event_count(events: Seq<LinkEvent>) -> nat
    decreases events.len(),
{
    if events.len() == 0 {
        0
    } else {
        match events[0] {
            LinkEvent::Fault(_) => 1 + fault_event_count(events.skip(1)),
            _ => fault_event_count(events.skip(1)),
        }
    }
}

/// A serial channel that replays a fixed script of link events, one per
/// poll, and is idle forever once the script is exhausted. It keeps a log of
/// every byte it has delivered, so a caller can check delivery order against
/// what a reader returned.
pub struct ScriptedSerial {
    events: Vec<LinkEvent>,
    pos: usize,
    log: Vec<u8>,
    fault_log: Ghost<Seq<u8>>,
}

impl ScriptedSerial {
    /// How many scripted events have been consumed by polls.
    pub closed spec fn consumed(&self) -> nat {
        self.pos as nat
    }

    /// A channel that will replay `events` from the start.
    pub fn new(events: Vec<LinkEvent>) -> (channel: Self)
        ensures
            channel.bytes_read() == Seq::<u8>::empty(),
            channel.faults() == Seq::<u8>::empty(),
            channel.supply() == byte_event_count(events@),
            channel.faults_left() == fault_event_count(events@),
            channel.consumed() == 0,
    {
        let channel = ScriptedSerial {
            events,
            pos: 0,
            log: Vec::new(),
            fault_log: Ghost(Seq::empty()),
        };
        proof {
            assert(channel.events@.skip(0) =~= channel.events@);
        }
        channel
    }

    /// Every byte delivered so far, oldest first.
    pub fn delivered(&self) -> (log: &Vec<u8>)
        ensures
            log@ == self.bytes_read(),
    {
        &self.log
    }

    /// How many scripted events have been consumed by polls so far.
    pub fn events_consumed(&self) -> (n: usize)
        ensures
            n as nat == self.consumed(),
    {
        self.pos
    }
}

impl SerialRead for ScriptedSerial {
    type Error = u8;

    closed spec fn bytes_read(&self) -> Seq<u8> {
        self.log@
    }

    closed spec fn faults(&self) -> Seq<u8> {
        self.fault_log@
    }

    closed spec fn supply(&self) -> nat {
        byte_event_count(self.events@.skip(self.pos as int))
    }

    closed spec fn faults_left(&self) -> nat {
        fault_event_count(self.events@.skip(self.pos as int))
    }

    fn read(&mut self) -> (r: ReadPoll<u8>) {
        if self.pos < self.events.len() {
            let ghost pos0 = self.pos as int;
            let ghost events = self.events@;
            let event = self.events[self.pos];
            self.pos = self.pos + 1;
            proof {
                assert(events.skip(pos0).len() > 0);
                assert(events.skip(pos0)[0] == events[pos0]);
                assert(events.skip(pos0).skip(1) =~= events.skip(pos0 + 1));
                match events[pos0] {
                    LinkEvent::Byte(_) => {
                        assert(byte_event_count(events.skip(pos0)) == 1 + byte_event_count(
                            events.skip(pos0 + 1),
                        ));
                        assert(fault_event_count(events.skip(pos0)) == fault_event_count(
                            events.skip(pos0 + 1),
                        ));
                    },
                    LinkEvent::Idle => {
                        assert(byte_event_count(events.skip(pos0)) == byte_event_count(
                            events.skip(pos0 + 1),
                        ));
                        assert(fault_event_count(events.skip(pos0)) == fault_event_count(
                            events.skip(pos0 + 1),
                        ));
                    },
                    LinkEvent::Fault(_) => {
                        assert(byte_event_count(events.skip(pos0)) == byte_event_count(
                            events.skip(pos0 + 1),
                        ));
                        assert(fault_event_count(events.skip(pos0)) == 1 + fault_event_count(
                            events.skip(pos0 + 1),
                        ));
                    },
                }
            }
            match event {
                LinkEvent::Byte(b) => {
                    self.log.push(b);
                    ReadPoll::Ready(b)
                },
                LinkEvent::Idle => ReadPoll::Pending,
                LinkEvent::Fault(code) => {
                    self.fault_log = Ghost(self.fault_log@.push(code));
                    ReadPoll::Failed(code)
                },
            }
        } else {
            ReadPoll::Pending
        }
    }
}

/// A countdown timer that reports a fixed number of pending polls after each
/// arming, whatever duration it is armed for, then expires.
pub struct ScriptedTimer {
    patience: usize,
    left: usize,
    armed: Ghost<Seq<Millisecond>>,
    fired: Ghost<nat>,
}

impl ScriptedTimer {
    /// A timer that stays pending for `patience` polls per arming.
    pub fn new(patience: usize) -> (timer: Self)
        ensures
            timer.ticks_left() == patience as nat,
            timer.armings() == Seq::<Millisecond>::empty(),
            timer.expiries() == 0,
    {
        ScriptedTimer { patience, left: patience, armed: Ghost(Seq::empty()), fired: Ghost(0) }
    }
}

impl LongTimer for ScriptedTimer {
    closed spec fn armings(&self) -> Seq<Millisecond> {
        self.armed@
    }

    closed spec fn expiries(&self) -> nat {
        self.fired@
    }

    closed spec fn ticks_left(&self) -> nat {
        self.left as nat
    }

    fn start(&mut self, timeout: Millisecond) {
        self.left = self.patience;
        self.armed = Ghost(self.armed@.push(timeout));
    }

    fn wait(&mut self) -> (r: TimerPoll) {
        if self.left == 0 {
            self.fired = Ghost(self.fired@ + 1);
            TimerPoll::Expired
        } else {
            self.left = self.left - 1;
            TimerPoll::Pending
        }
    }
}

/// A write peripheral that stalls for a scripted number of polls, then
/// accepts bytes until a scripted capacity runs out, and reports a hardware
/// error code for every byte offered after that. It keeps the accepted bytes
/// so a caller can check what was transmitted.
pub struct ScriptedWriter {
    accepted: Vec<u8>,
    capacity: usize,
    stalls: usize,
    fault_code: u8,
    fault_log: Ghost<Seq<u8>>,
}

impl ScriptedWriter {
    /// A peripheral that reports `stalls` pending polls, accepts `capacity`
    /// bytes, and then fails every offer with `fault_code`.
    pub fn new(capacity: usize, stalls: usize, fault_code: u8) -> (writer: Self)
        ensures
            writer.bytes_written() == Seq::<u8>::empty(),
            writer.faults() == Seq::<u8>::empty(),
    {
        ScriptedWriter {
            accepted: Vec::new(),
            capacity,
            stalls,
            fault_code,
            fault_log: Ghost(Seq::empty()),
        }
    }

    /// Every byte the peripheral has accepted, oldest first.
    pub fn accepted(&self) -> (bytes: &Vec<u8>)
        ensures
            bytes@ == self.bytes_written(),
    {
        &self.accepted
    }
}

impl SerialWrite for ScriptedWriter {
    type Error = u8;

    closed spec fn bytes_written(&self) -> Seq<u8> {
        self.accepted@
    }

    closed spec fn faults(&self) -> Seq<u8> {
        self.fault_log@
    }

    closed spec fn stall_bound(&self) -> nat {
        self.stalls as nat
    }

    fn write(&mut self, byte: u8) -> (r: WritePoll<u8>) {
        if self.stalls > 0 {
            self.stalls = self.stalls - 1;
            WritePoll::Pending
        } else if self.capacity == 0 {
            self.fault_log = Ghost(self.fault_log@.push(self.fault_code));
            WritePoll::Failed(self.fault_code)
        } else {
            self.capacity = self.capacity - 1;
            self.accepted.push(byte);
            WritePoll::Accepted
        }
    }
}

} // verus!
