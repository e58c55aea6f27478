//! Decisions of the background monitors: when outbound traffic counts as
//! a threat, and when the power monitor is measuring a turn. The rates and
//! energies themselves are floating-point and computed outside this
//! library.
use vstd::prelude::*;

verus! {

/// The sums of the received and transmitted byte counts of the network
/// interfaces.
pub open spec fn totals(cs: Seq<(u64, u64)>) -> (int, int)
    decreases cs.len(),
{
    if cs.len() == 0 {
        (0, 0)
    } else {
        let (r, t) = totals(cs.drop_last());
        (r + cs.last().0, t + cs.last().1)
    }
}

/// The totals of the first interfaces are at most the totals of all of them.
pub proof fn lemma_totals_mono(cs: Seq<(u64, u64)>, n: int)
    requires
        0 <= n <= cs.len(),
    ensures
        0 <= totals(cs.take(n)).0 <= totals(cs).0,
        0 <= totals(cs.take(n)).1 <= totals(cs).1,
    decreases cs.len() - n,
{
    lemma_totals_nonneg(cs.take(n));
    if n < cs.len() {
        lemma_totals_mono(cs, n + 1);
        assert(cs.take(n + 1).drop_last() =~= cs.take(n));
        assert(cs.take(n + 1).last() == cs[n]);
    } else {
        assert(cs.take(n) =~= cs);
        lemma_totals_nonneg(cs);
    }
}

/// Traffic totals are never negative.
pub proof fn lemma_totals_nonneg(cs: Seq<(u64, u64)>)
    ensures
        totals(cs).0 >= 0,
        totals(cs).1 >= 0,
    decreases cs.len(),
{
    if cs.len() > 0 {
        lemma_totals_nonneg(cs.drop_last());
    }
}

/// The received and transmitted bytes over all interfaces (each pair is
/// one interface's counts since the last refresh), or `None` when a sum
/// does not fit in a `u64`.
pub fn traffic_totals(counters: &Vec<(u64, u64)>) -> (r: Option<(u64, u64)>)
    ensures
        match r {
            Some((rx, tx)) => (rx as int, tx as int) == totals(counters@),
            None => totals(counters@).0 > u64::MAX || totals(counters@).1 > u64::MAX,
        },
{
    let mut rx: u64 = 0;
    let mut tx: u64 = 0;
    let mut i: usize = 0;
    while i < counters.len()
        invariant
            0 <= i <= counters.len(),
            (rx as int, tx as int) == totals(counters@.take(i as int)),
        decreases counters.len() - i,
    {
        assert(counters@.take(i + 1).drop_last() =~= counters@.take(i as int));
        assert(counters@.take(i + 1).last() == counters@[i as int]);
        let (r, t) = counters[i];
        if rx > u64::MAX - r || tx > u64::MAX - t {
            proof {
                lemma_totals_mono(counters@, i + 1);
            }
            return None;
        }
        rx = rx + r;
        tx = tx + t;
        i = i + 1;
    }
    assert(counters@.take(counters.len() as int) =~= counters@);
    Some((rx, tx))
}

/// Whether a second's outbound traffic is a threat: more than 500,000
/// kbps, where kbps are bytes / 1024 * 8 — that is, more than 64,000,000
/// bytes. (Scaling by powers of two is exact in floating point, and this
/// many bytes is exactly representable, so the comparison on bytes decides
/// as the comparison on kbps does.)
pub fn bandwidth_spike(tx_bytes: u64) -> (r: bool)
    ensures
        r == (tx_bytes > 64_000_000),
{
    tx_bytes > 64_000_000
}

/// The power monitor's view of the agent: working on a turn, and whether it
/// was at the previous tick.
pub struct PowerState {
    pub is_busy: bool,
    pub last_was_busy: bool,
}

/// What the power monitor does at a tick.
pub struct TickPlan {
    /// Start counting energy from zero: a new turn began.
    pub reset_energy: bool,
    /// Add this tick's energy to the count.
    pub accumulate: bool,
}

impl PowerState {
    pub fn new() -> (r: PowerState)
        ensures
            !r.is_busy,
            !r.last_was_busy,
    {
        PowerState { is_busy: false, last_was_busy: false }
    }

    /// A step starting makes the agent busy; the end of a turn, of a
    /// command, or an error makes it idle; other events change nothing.
    pub fn on_event(&mut self, step_started: bool, turn_ended: bool)
        ensures
            final(self).is_busy == if step_started {
                true
            } else if turn_ended {
                false
            } else {
                old(self).is_busy
            },
            final(self).last_was_busy == old(self).last_was_busy,
    {
        if step_started {
            self.is_busy = true;
        } else if turn_ended {
            self.is_busy = false;
        }
    }

    /// A tick: energy restarts from zero when the agent has just become
    /// busy, and is counted while it is busy.
    pub fn tick(&mut self) -> (r: TickPlan)
        ensures
            r.reset_energy == (old(self).is_busy && !old(self).last_was_busy),
            r.accumulate == old(self).is_busy,
            final(self).is_busy == old(self).is_busy,
            final(self).last_was_busy == old(self).is_busy,
    {
        let plan = TickPlan {
            reset_energy: self.is_busy && !self.last_was_busy,
            accumulate: self.is_busy,
        };
        self.last_was_busy = self.is_busy;
        plan
    }
}

} // verus!
