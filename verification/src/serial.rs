//! The core operations: a timeout-bounded single-byte read, a frame assembler
//! over a caller-owned ring buffer, and a blocking bulk write.

use crate::channel::{ReadPoll, SerialRead, SerialWrite, WritePoll};
use crate::ring::{ring_insert, ring_store};
use crate::timing::{lemma_rearmed_with_push, rearmed_with, LongTimer, Millisecond, TimerPoll};
use vstd::prelude::*;

verus! {

/// Why a read operation failed. No other failure states exist.
#[derive(Debug)]
pub enum Error<E> {
    /// The serial peripheral reported a hardware error, carried unchanged.
    Serial(E),
    /// No byte arrived before the timeout elapsed.
    TimedOut,
}

/// A frame recognizer: a pure parser consulted after every stored byte.
///
/// It receives the fixed-size ring buffer together with the current write
/// cursor (where the next byte will land, one past the newest byte in ring
/// terms) and decides whether the buffer now holds a complete frame. It must
/// tolerate being called after every single byte, including once the buffer
/// has wrapped. `spec_recognize` is the recognizer's meaning; `recognize`
/// must compute exactly it, so that a recognizer is a function of the buffer
/// contents and the cursor alone.
pub trait Recognizer: Sized {
    /// The parsed value produced for a complete frame.
    type Frame: View;

    /// What this recognizer yields on the given buffer contents and cursor.
    spec fn spec_recognize(&self, buf: Seq<u8>, cursor: int) -> Option<
        <Self::Frame as View>::V,
    >;

    /// Decide whether the buffer holds a complete frame ending at `cursor`.
    fn recognize(&self, buffer: &[u8], cursor: usize) -> (r: Option<Self::Frame>)
        requires
            cursor < buffer.len(),
        ensures
            match r {
                Some(frame) => self.spec_recognize(buffer@, cursor as int) == Some(frame@),
                None => self.spec_recognize(buffer@, cursor as int) is None,
            },
    ;
}

/// No prefix of `incoming` stored into `buf` from cursor zero makes the
/// recognizer accept: after each of the first `count` bytes the recognizer,
/// handed the buffer and the advanced cursor, still answered "not yet".
pub open spec fn no_frame_within<C: Recognizer>(
    parser: C,
    buf: Seq<u8>,
    incoming: Seq<u8>,
    count: int,
) -> bool
    recommends
        0 < buf.len(),
        count <= incoming.len(),
{
    forall|i: int|
        0 < i <= count ==> #[trigger] parser.spec_recognize(
            ring_store(buf, 0, incoming.take(i)),
            i % buf.len() as int,
        ) is None
}

/// Convert the non-blocking channel plus the timer into a blocking read of
/// exactly one byte, bounded by `timeout`.
///
/// The timer is armed exactly once per call, with the given duration: the
/// arming history grows by exactly `timeout`, whatever the outcome. Then the
/// channel and the timer are polled alternately, never blocking within an
/// iteration, the channel first, so a byte that arrives in the same iteration
/// as the expiry still wins: on success the timer has reported no expiry at
/// all. On success exactly the delivered byte is returned and the channel has
/// delivered exactly one more byte and reported no fault. `TimedOut` is
/// returned only for an expiry the timer actually reported, exactly one, with
/// the channel left as it was found. A hardware error is returned exactly as
/// the channel reported it: the fault history grows by precisely the returned
/// error. The loop terminates because every pending poll consumes the armed
/// timer.
pub fn read_with_timeout<S: SerialRead, T: LongTimer>(
    serial: &mut S,
    timer: &mut T,
    timeout: Millisecond,
) -> (r: Result<u8, Error<S::Error>>)
    ensures
        final(timer).armings() == old(timer).armings().push(timeout),
        final(serial).supply() <= old(serial).supply(),
        final(serial).faults_left() <= old(serial).faults_left(),
        match r {
            Ok(byte) => {
                &&& final(serial).bytes_read() == old(serial).bytes_read().push(byte)
                &&& final(serial).faults() == old(serial).faults()
                &&& final(serial).supply() < old(serial).supply()
                &&& final(timer).expiries() == old(timer).expiries()
            },
            Err(Error::TimedOut) => {
                &&& final(serial).bytes_read() == old(serial).bytes_read()
                &&& final(serial).faults() == old(serial).faults()
                &&& final(timer).expiries() == old(timer).expiries() + 1
            },
            Err(Error::Serial(e)) => {
                &&& final(serial).bytes_read() == old(serial).bytes_read()
                &&& final(serial).faults() == old(serial).faults().push(e)
                &&& final(serial).faults_left() < old(serial).faults_left()
                &&& final(timer).expiries() == old(timer).expiries()
            },
        },
{
    timer.start(timeout);
    loop
        invariant
            serial.bytes_read() == old(serial).bytes_read(),
            serial.faults() == old(serial).faults(),
            serial.supply() <= old(serial).supply(),
            serial.faults_left() <= old(serial).faults_left(),
            timer.armings() == old(timer).armings().push(timeout),
            timer.expiries() == old(timer).expiries(),
        decreases timer.ticks_left(),
    {
        match serial.read() {
            ReadPoll::Ready(byte) => {
                return Ok(byte);
            },
            ReadPoll::Failed(e) => {
                return Err(Error::Serial(e));
            },
            ReadPoll::Pending => {},
        }
        match timer.wait() {
            TimerPoll::Expired => {
                return Err(Error::TimedOut);
            },
            TimerPoll::Pending => {},
        }
    }
}

/// Assemble one frame: read bytes with `read_with_timeout` into the ring
/// buffer, consulting the recognizer after every stored byte, until the
/// recognizer accepts or a read fails.
///
/// The cursor starts at zero and wraps modulo the buffer length, so once the
/// buffer fills, new bytes overwrite the oldest in place. The timer's arming
/// history grows by one entry per inner read, every entry the given duration:
/// the timeout is re-applied fresh before each single-byte wait, so it bounds
/// inter-byte gaps, not the whole message. On success the returned frame is
/// exactly what the recognizer parsed from the final buffer at the final
/// cursor, and the recognizer had rejected the buffer after every earlier
/// byte. `TimedOut` is returned for the first expiry the timer reports —
/// exactly one, with no silent retry after it — and a hardware error exactly
/// as the channel reported it, the fault history growing by precisely the
/// returned error; either way the recognizer is not consulted again and the
/// buffer still holds the partial frame stored so far. The loop terminates
/// because the channel's supply of bytes is finite and each armed timeout is
/// finite.
pub fn read_until_message<S: SerialRead, T: LongTimer, C: Recognizer>(
    rx: &mut S,
    timer: &mut T,
    timeout: Millisecond,
    buffer: &mut Vec<u8>,
    parser: &C,
) -> (r: Result<C::Frame, Error<S::Error>>)
    requires
        old(buffer).len() > 0,
    ensures
        final(buffer).len() == old(buffer).len(),
        final(rx).bytes_read().len() >= old(rx).bytes_read().len(),
        final(rx).bytes_read().take(old(rx).bytes_read().len() as int) == old(rx).bytes_read(),
        final(rx).supply() <= old(rx).supply(),
        final(rx).faults_left() <= old(rx).faults_left(),
        ({
            let incoming = final(rx).bytes_read().skip(old(rx).bytes_read().len() as int);
            let len = old(buffer).len() as int;
            &&& final(buffer)@ == ring_store(old(buffer)@, 0, incoming)
            &&& match r {
                Ok(frame) => {
                    &&& incoming.len() > 0
                    &&& parser.spec_recognize(final(buffer)@, incoming.len() as int % len)
                        == Some(frame@)
                    &&& no_frame_within(*parser, old(buffer)@, incoming, incoming.len() - 1)
                    &&& final(rx).faults() == old(rx).faults()
                    &&& final(rx).supply() < old(rx).supply()
                    &&& final(timer).expiries() == old(timer).expiries()
                    &&& rearmed_with(
                        old(timer).armings(),
                        final(timer).armings(),
                        timeout,
                        incoming.len(),
                    )
                },
                Err(Error::TimedOut) => {
                    &&& no_frame_within(*parser, old(buffer)@, incoming, incoming.len() as int)
                    &&& final(rx).faults() == old(rx).faults()
                    &&& final(timer).expiries() == old(timer).expiries() + 1
                    &&& rearmed_with(
                        old(timer).armings(),
                        final(timer).armings(),
                        timeout,
                        incoming.len() + 1,
                    )
                },
                Err(Error::Serial(e)) => {
                    &&& no_frame_within(*parser, old(buffer)@, incoming, incoming.len() as int)
                    &&& final(rx).faults() == old(rx).faults().push(e)
                    &&& final(rx).faults_left() < old(rx).faults_left()
                    &&& final(timer).expiries() == old(timer).expiries()
                    &&& rearmed_with(
                        old(timer).armings(),
                        final(timer).armings(),
                        timeout,
                        incoming.len() + 1,
                    )
                },
            }
        }),
{
    let ghost buf0: Seq<u8> = buffer@;
    let ghost read0: Seq<u8> = rx.bytes_read();
    let ghost len: int = buffer@.len() as int;
    proof {
        assert(read0.take(read0.len() as int) =~= read0);
        assert(read0.skip(read0.len() as int) =~= Seq::<u8>::empty());
        assert(timer.armings().take(timer.armings().len() as int) =~= timer.armings());
        vstd::arithmetic::div_mod::lemma_small_mod(0, buf0.len());
    }
    let mut ptr: usize = 0;
    loop
        invariant
            buf0 == old(buffer)@,
            read0 == old(rx).bytes_read(),
            len == buf0.len(),
            0 < len,
            buffer@.len() == len,
            ptr < len,
            rx.bytes_read().len() >= read0.len(),
            rx.bytes_read().take(read0.len() as int) == read0,
            rx.faults() == old(rx).faults(),
            rx.supply() <= old(rx).supply(),
            rx.faults_left() <= old(rx).faults_left(),
            timer.expiries() == old(timer).expiries(),
            ({
                let incoming = rx.bytes_read().skip(read0.len() as int);
                &&& buffer@ == ring_store(buf0, 0, incoming)
                &&& ptr as int == incoming.len() as int % len
                &&& no_frame_within(*parser, buf0, incoming, incoming.len() as int)
                &&& rearmed_with(old(timer).armings(), timer.armings(), timeout, incoming.len())
            }),
        decreases rx.supply(),
    {
        let ghost pre_read = rx.bytes_read();
        let ghost incoming_pre = pre_read.skip(read0.len() as int);
        let ghost pre_arm = timer.armings();
        match read_with_timeout(rx, timer, timeout) {
            Ok(byte) => {
                let ghost incoming = rx.bytes_read().skip(read0.len() as int);
                proof {
                    assert(rx.bytes_read().take(read0.len() as int) =~= read0);
                    assert(incoming =~= incoming_pre.push(byte));
                }
                ptr = ring_insert(buffer, ptr, byte);
                proof {
                    crate::ring::lemma_ring_store_snoc(buf0, 0, incoming_pre, byte);
                    assert(buffer@ == ring_store(buf0, 0, incoming));
                    crate::ring::lemma_ring_position(incoming_pre.len() as int, 1, len);
                    assert(ptr as int == incoming.len() as int % len);
                    lemma_no_frame_within_push(*parser, buf0, incoming_pre, byte);
                    lemma_rearmed_with_push(
                        old(timer).armings(),
                        pre_arm,
                        timeout,
                        incoming_pre.len(),
                    );
                }
                match parser.recognize(buffer.as_slice(), ptr) {
                    Some(frame) => {
                        return Ok(frame);
                    },
                    None => {
                        proof {
                            assert(incoming.take(incoming.len() as int) =~= incoming);
                            assert forall|i: int| 0 < i <= incoming.len() implies #[trigger]
                            parser.spec_recognize(
                                ring_store(buf0, 0, incoming.take(i)),
                                i % buf0.len() as int,
                            ) is None by {
                                if i < incoming.len() {
                                    assert(no_frame_within(
                                        *parser,
                                        buf0,
                                        incoming,
                                        incoming.len() - 1,
                                    ));
                                } else {
                                    assert(incoming.take(i) == incoming);
                                    assert(parser.spec_recognize(buffer@, ptr as int) is None);
                                }
                            }
                        }
                    },
                }
            },
            Err(Error::TimedOut) => {
                proof {
                    lemma_rearmed_with_push(
                        old(timer).armings(),
                        pre_arm,
                        timeout,
                        incoming_pre.len(),
                    );
                }
                return Err(Error::TimedOut);
            },
            Err(e) => {
                proof {
                    lemma_rearmed_with_push(
                        old(timer).armings(),
                        pre_arm,
                        timeout,
                        incoming_pre.len(),
                    );
                }
                return Err(e);
            },
        }
    }
}

/// Write every byte of `buffer` to the channel in order, spinning on each
/// byte until the peripheral accepts it.
///
/// On success the peripheral has accepted exactly the bytes of `buffer`, in
/// order, after whatever it had accepted before, and has reported no fault;
/// an empty buffer therefore succeeds with the channel left exactly as it
/// was. A hardware error aborts immediately: the peripheral has then accepted
/// some strict prefix of `buffer`, and the error is returned exactly as the
/// peripheral reported it — its fault history grows by precisely the returned
/// error. No timeout bounds a write, so a peripheral that never accepts a
/// byte stalls this call by design.
pub fn write_all<S: SerialWrite>(serial: &mut S, buffer: &[u8]) -> (r: Result<(), S::Error>)
    ensures
        match r {
            Ok(()) => {
                &&& final(serial).bytes_written() == old(serial).bytes_written() + buffer@
                &&& final(serial).faults() == old(serial).faults()
            },
            Err(e) => {
                &&& exists|k: int|
                    0 <= k < buffer@.len() && final(serial).bytes_written() == old(
                        serial,
                    ).bytes_written() + buffer@.take(k)
                &&& final(serial).faults() == old(serial).faults().push(e)
            },
        },
        buffer@.len() == 0 ==> r is Ok && final(serial).bytes_written() == old(
            serial,
        ).bytes_written(),
{
    let ghost written0: Seq<u8> = serial.bytes_written();
    let mut i: usize = 0;
    while i < buffer.len()
        invariant
            i <= buffer@.len(),
            written0 == old(serial).bytes_written(),
            serial.bytes_written() == written0 + buffer@.take(i as int),
            serial.faults() == old(serial).faults(),
        decreases buffer@.len() - i,
    {
        loop
            invariant_except_break
                serial.bytes_written() == written0 + buffer@.take(i as int),
            invariant
                i < buffer@.len(),
                written0 == old(serial).bytes_written(),
                serial.faults() == old(serial).faults(),
            ensures
                serial.bytes_written() == written0 + buffer@.take(i as int + 1),
                serial.faults() == old(serial).faults(),
            decreases serial.stall_bound(),
        {
            match serial.write(buffer[i]) {
                WritePoll::Accepted => {
                    proof {
                        assert(written0 + buffer@.take(i as int + 1) =~= (written0 + buffer@.take(
                            i as int,
                        )).push(buffer@[i as int]));
                    }
                    break ;
                },
                WritePoll::Pending => {},
                WritePoll::Failed(e) => {
                    proof {
                        assert(serial.bytes_written() == written0 + buffer@.take(i as int));
                    }
                    return Err(e);
                },
            }
        }
        i = i + 1;
    }
    proof {
        assert(buffer@.take(buffer@.len() as int) =~= buffer@);
        assert(buffer@.len() == 0 ==> written0 + buffer@ =~= written0);
    }
    Ok(())
}

/// Law: a timed read on a silent channel times out. If the channel can
/// deliver no byte and report no fault — the remote end has gone quiet and
/// the peripheral is healthy — then the contract of [`read_with_timeout`]
/// leaves only `TimedOut`: success would consume a byte of supply and a
/// hardware error would consume a fault, and neither exists. The `requires`
/// are the contract's own clauses for those two outcomes. Since the contract
/// also leaves the delivery history untouched on a timeout, a fresh call on
/// the still-silent channel satisfies the same premises and must time out
/// again: timing out is idempotent as far as the channel model reaches.
pub proof fn lemma_silent_channel_times_out<E>(
    r: Result<u8, Error<E>>,
    supply_pre: nat,
    supply_post: nat,
    faults_left_pre: nat,
    faults_left_post: nat,
)
    requires
        supply_pre == 0,
        faults_left_pre == 0,
        r matches Ok(_) ==> supply_post < supply_pre,
        r matches Err(Error::Serial(_)) ==> faults_left_post < faults_left_pre,
    ensures
        r matches Err(Error::TimedOut),
{
}

/// Law: timed byte reads return bytes in delivery order, with no loss and no
/// duplication. The contract of [`read_with_timeout`] extends the channel's
/// delivery history by exactly the returned byte on each success, so two
/// successive successful reads have extended the history by exactly the two
/// returned bytes, first one first; nothing was dropped between them and
/// neither was delivered twice.
pub proof fn lemma_reads_preserve_delivery_order(
    history0: Seq<u8>,
    history1: Seq<u8>,
    history2: Seq<u8>,
    first: u8,
    second: u8,
)
    requires
        history1 == history0.push(first),
        history2 == history1.push(second),
    ensures
        history2 == history0 + seq![first, second],
        history2.skip(history0.len() as int) == seq![first, second],
{
    assert(history2 =~= history0 + seq![first, second]);
    assert(history2.skip(history0.len() as int) =~= seq![first, second]);
}

/// Law: frame assembly handles a frame exactly as long as the buffer, at the
/// wraparound point. Suppose [`read_until_message`] succeeded after receiving
/// exactly as many bytes as the buffer holds; its contract gives the facts in
/// the `requires` below, and the ring arithmetic then says the burst
/// overwrote the whole buffer, the write index came back around to zero, and
/// the frame is what the recognizer parses from exactly the received bytes at
/// cursor zero.
pub proof fn lemma_full_buffer_frame<C: Recognizer>(
    parser: C,
    buf0: Seq<u8>,
    incoming: Seq<u8>,
    assembled: Seq<u8>,
    frame: <C::Frame as View>::V,
)
    requires
        0 < buf0.len(),
        incoming.len() == buf0.len(),
        assembled == ring_store(buf0, 0, incoming),
        parser.spec_recognize(assembled, incoming.len() as int % buf0.len() as int) == Some(frame),
    ensures
        assembled == incoming,
        incoming.len() as int % buf0.len() as int == 0,
        parser.spec_recognize(incoming, 0) == Some(frame),
{
    crate::ring::lemma_ring_store_full(buf0, incoming);
}

/// One more byte on the wire cannot create a frame in the past: whatever the
/// recognizer rejected after each earlier byte it still rejects, because each
/// earlier prefix of the extended burst is unchanged.
proof fn lemma_no_frame_within_push<C: Recognizer>(parser: C, buf: Seq<u8>, pre: Seq<u8>, byte: u8)
    requires
        0 < buf.len(),
        no_frame_within(parser, buf, pre, pre.len() as int),
    ensures
        no_frame_within(parser, buf, pre.push(byte), pre.len() as int),
{
    assert forall|i: int| 0 < i <= pre.len() implies #[trigger] parser.spec_recognize(
        ring_store(buf, 0, pre.push(byte).take(i)),
        i % buf.len() as int,
    ) is None by {
        assert(pre.push(byte).take(i) =~= pre.take(i));
        assert(parser.spec_recognize(ring_store(buf, 0, pre.take(i)), i % buf.len() as int)
            is None);
    }
}

} // verus!
