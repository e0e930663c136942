//! Round-trip latencies of appended messages, collected per batch.

use vstd::prelude::*;
use crate::batch::batch_complete;
use crate::stats::{
    lemma_sorted_latencies, mean, mean_nanos, p50_rank, p99_index, p99_rank, ranked,
    sorted_copy, summarizable, law_stats_ignore_order, check_summarizable, stats_error, StatsError,
};

verus! {

/// The number of messages in each batch of the round-trip test.
pub const BATCH_SIZE: u64 = 1000;

/// The number of batches the round-trip test sends.
pub const NUM_BATCHES: u64 = 10;

/// The pause before each batch of the round-trip test, in milliseconds.
pub const BATCH_DELAY_MS: u64 = 100;

/// The latency statistics of one batch, in nanoseconds.
pub struct LatencyStats {
    pub avg: u128,
    pub p50: u128,
    pub p99: u128,
}

impl Default for LatencyStats {
    fn default() -> (s: Self)
        ensures
            s.avg == 0,
            s.p50 == 0,
            s.p99 == 0,
    {
        LatencyStats { avg: 0, p50: 0, p99: 0 }
    }
}

/// `s` reports the latencies `l`: their mean, median and 99th percentile,
/// all zero when there is none.
pub open spec fn reports(l: Seq<u128>, s: LatencyStats) -> bool {
    &&& l.len() == 0 ==> s.avg == 0 && s.p50 == 0 && s.p99 == 0
    &&& l.len() > 0 ==> {
        &&& s.avg == mean_nanos(l)
        &&& s.p50 == ranked(l, p50_rank(l.len()))
        &&& s.p99 == ranked(l, p99_rank(l.len()) as int)
    }
}

/// One call that changes a timer.
pub enum TimerCall {
    /// `record` with this latency.
    Record(u128),
    /// `clear`.
    Clear,
}

/// `after` is what a timer holds after `call` on one that held `before`,
/// as `record` and `clear` state.
pub open spec fn applies(before: Seq<u128>, call: TimerCall, after: Seq<u128>) -> bool {
    match call {
        TimerCall::Record(d) => after == before.push(d),
        TimerCall::Clear => after == Seq::<u128>::empty(),
    }
}

/// The latencies recorded by `calls` after the last `Clear` among them (after
/// the first call if there is none), in the order they were recorded.
pub open spec fn recorded_since_clear(calls: Seq<TimerCall>) -> Seq<u128>
    decreases calls.len(),
{
    if calls.len() == 0 {
        Seq::<u128>::empty()
    } else {
        match calls.last() {
            TimerCall::Clear => Seq::<u128>::empty(),
            TimerCall::Record(d) => recorded_since_clear(calls.drop_last()).push(d),
        }
    }
}

/// A timer made by `new` and then given `calls` holds exactly the latencies
/// recorded since the last clear, so `completed_count` is the number of
/// records since the last clear. `states[k]` is what the timer holds after
/// its first `k` calls.
pub proof fn law_count_since_clear(calls: Seq<TimerCall>, states: Seq<Seq<u128>>)
    requires
        states.len() == calls.len() + 1,
        states[0] == Seq::<u128>::empty(),
        forall|k: int|
            #![trigger calls[k]]
            0 <= k < calls.len() ==> applies(states[k], calls[k], states[k + 1]),
    ensures
        states.last() == recorded_since_clear(calls),
        states.last().len() == recorded_since_clear(calls).len(),
    decreases calls.len(),
{
    if calls.len() > 0 {
        let n = calls.len() - 1;
        let front = calls.drop_last();
        let front_states = states.drop_last();
        assert forall|k: int|
            #![trigger front[k]]
            0 <= k < front.len() implies applies(front_states[k], front[k], front_states[k + 1]) by {
            assert(calls[k] == front[k]);
        }
        law_count_since_clear(front, front_states);
        assert(calls[n] == calls.last());
        assert(applies(states[n], calls[n], states[n + 1]));
    }
}

/// Tracks reducer round-trip latencies.
pub struct RoundtripTimer {
    latencies: Vec<u128>,
}

impl View for RoundtripTimer {
    type V = Seq<u128>;

    /// The latencies recorded since the timer was made or last cleared, in
    /// the order they were recorded.
    closed spec fn view(&self) -> Seq<u128> {
        self.latencies@
    }
}

impl RoundtripTimer {
    /// A timer with no latency recorded.
    pub fn new() -> (t: Self)
        ensures
            t@ == Seq::<u128>::empty(),
    {
        RoundtripTimer { latencies: Vec::new() }
    }

    /// Records one round-trip latency.
    pub fn record(&mut self, duration: u128)
        ensures
            final(self)@ == old(self)@.push(duration),
    {
        self.latencies.push(duration);
    }

    /// Handles one committed append: records its latency and returns
    /// whether the batch is complete, that is whether `batch_size`
    /// latencies are now recorded.
    pub fn record_confirmed(&mut self, latency: u128, batch_size: u64) -> (batch_done: bool)
        ensures
            final(self)@ == old(self)@.push(latency),
            batch_done == (final(self)@.len() >= batch_size),
    {
        self.record(latency);
        batch_complete(self.completed_count(), batch_size)
    }

    /// The mean, median and 99th percentile of the recorded latencies; all
    /// zero when none is recorded.
    pub fn stats(&self) -> (s: LatencyStats)
        requires
            summarizable(self@),
        ensures
            reports(self@, s),
    {
        if self.latencies.len() == 0 {
            return LatencyStats::default();
        }
        let sorted = sorted_copy(&self.latencies);
        proof {
            lemma_sorted_latencies(self@);
        }
        let n = sorted.len();
        let avg = mean(&self.latencies);
        let p50 = sorted[n / 2];
        let p99 = sorted[p99_index(n)];
        LatencyStats { avg, p50, p99 }
    }

    /// The statistics of `stats`, or why they cannot be taken: the total
    /// does not fit in a `Duration`, or the count taken as a `u32` is zero.
    pub fn checked_stats(&self) -> (r: Result<LatencyStats, StatsError>)
        ensures
            match r {
                Ok(s) => summarizable(self@) && reports(self@, s),
                Err(e) => !summarizable(self@) && stats_error(self@) == Some(e),
            },
    {
        match check_summarizable(&self.latencies) {
            Ok(()) => Ok(self.stats()),
            Err(e) => Err(e),
        }
    }

    /// Forgets every recorded latency.
    pub fn clear(&mut self)
        ensures
            final(self)@ == Seq::<u128>::empty(),
    {
        self.latencies.clear();
    }

    /// The number of latencies recorded.
    pub fn completed_count(&self) -> (n: usize)
        ensures
            n == self@.len(),
    {
        self.latencies.len()
    }
}

/// The statistics of a `RoundtripTimer` depend only on which latencies it
/// holds, not on the order they were recorded in: two lists with the same
/// samples are reported alike.
pub proof fn law_timer_stats_ignore_order(
    la: Seq<u128>,
    lb: Seq<u128>,
    sa: LatencyStats,
    sb: LatencyStats,
)
    requires
        la.to_multiset() == lb.to_multiset(),
        reports(la, sa),
        reports(lb, sb),
    ensures
        sa == sb,
{
    law_stats_ignore_order(la, lb);
    la.to_multiset_ensures();
    lb.to_multiset_ensures();
}

} // verus!
