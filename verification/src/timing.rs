//! The timer capability: a restartable countdown polled without blocking.

use vstd::prelude::*;

verus! {

/// A duration in milliseconds, opaque to the core beyond being handed to the
/// timer when it is armed.
#[derive(Clone, Copy, PartialEq, Eq, Structural, Debug)]
pub struct Millisecond(pub u32);

/// What a non-blocking poll of the timer reports. The timer abstraction
/// cannot fail, so there is no error variant.
#[derive(Clone, Copy, PartialEq, Eq, Structural, Debug)]
pub enum TimerPoll {
    /// The countdown is still running.
    Pending,
    /// The countdown has elapsed.
    Expired,
}

/// A restartable countdown timer, polled without blocking.
///
/// The timer's ghost model has three parts. `armings` is the history of the
/// durations it has been armed for, so a caller's contract can pin down when
/// the timer was started and with what. `expiries` counts how many polls have
/// reported [`TimerPoll::Expired`], so a caller's contract can tie a timeout
/// it returns to an expiry the timer actually reported. `ticks_left` is an
/// upper bound on how many more times `wait` can report
/// [`TimerPoll::Pending`] before the countdown elapses: arming resets it to
/// an arbitrary finite value, every pending poll strictly consumes it, so a
/// finite timeout cannot stay pending forever.
pub trait LongTimer: Sized {
    /// Every duration this timer has been armed for, oldest first.
    /// The default stands only for implementations that no proof reads;
    /// an implementation verified against this trait gives its own model.
    open spec fn armings(&self) -> Seq<Millisecond> {
        Seq::empty()
    }

    /// How many polls have reported that the countdown elapsed.
    /// Defaulted as `armings` is.
    open spec fn expiries(&self) -> nat {
        0
    }

    /// How many pending polls this timer can still report before expiring.
    /// Defaulted as `armings` is.
    open spec fn ticks_left(&self) -> nat {
        0
    }

    /// Arm (or re-arm) the countdown for the given duration.
    fn start(&mut self, timeout: Millisecond)
        ensures
            final(self).armings() == old(self).armings().push(timeout),
            final(self).expiries() == old(self).expiries(),
    ;

    /// Poll the countdown without blocking.
    fn wait(&mut self) -> (r: TimerPoll)
        ensures
            final(self).armings() == old(self).armings(),
            match r {
                TimerPoll::Pending => {
                    &&& final(self).ticks_left() < old(self).ticks_left()
                    &&& final(self).expiries() == old(self).expiries()
                },
                TimerPoll::Expired => final(self).expiries() == old(self).expiries() + 1,
            },
    ;
}

/// The timer was re-armed `count` more times after the history `before`,
/// every time for the duration `timeout`, giving the history `after`.
pub open spec fn rearmed_with(
    before: Seq<Millisecond>,
    after: Seq<Millisecond>,
    timeout: Millisecond,
    count: nat,
) -> bool {
    &&& after.len() == before.len() + count
    &&& after.take(before.len() as int) == before
    &&& forall|i: int| before.len() <= i < after.len() ==> after[i] == timeout
}

/// One more arming for the same duration extends a uniform arming history.
pub proof fn lemma_rearmed_with_push(
    before: Seq<Millisecond>,
    after: Seq<Millisecond>,
    timeout: Millisecond,
    count: nat,
)
    requires
        rearmed_with(before, after, timeout, count),
    ensures
        rearmed_with(before, after.push(timeout), timeout, count + 1),
{
    assert(after.push(timeout).take(before.len() as int) =~= before);
}

} // verus!
