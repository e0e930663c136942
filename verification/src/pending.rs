//! Inserts sent to the database and not yet confirmed, and the latencies
//! of those that were.

use vstd::prelude::*;
use std::collections::HashMap;
use vstd::std_specs::iter::IteratorSpec;
use std::time::Instant;
use crate::batch::batch_complete;
use crate::clock::{gap_nanos, instant_gap, not_before, Clock};
use crate::stats::{
    lemma_sorted_latencies, mean, mean_nanos, p50_rank, p99_index, p99_rank, ranked,
    sorted_copy, summarizable, law_stats_ignore_order, check_summarizable, stats_error, StatsError, MAX_LATENCY_NANOS,
};

verus! {

broadcast use vstd::std_specs::hash::group_hash_axioms;

/// The latency statistics of one batch, in nanoseconds, with the number of
/// confirmations they were taken over.
pub struct LatencyStats {
    pub avg: u128,
    pub min: u128,
    pub max: u128,
    pub p50: u128,
    pub p99: u128,
    pub count: usize,
}

impl Default for LatencyStats {
    fn default() -> (s: Self)
        ensures
            s.avg == 0,
            s.min == 0,
            s.max == 0,
            s.p50 == 0,
            s.p99 == 0,
            s.count == 0,
    {
        LatencyStats { avg: 0, min: 0, max: 0, p50: 0, p99: 0, count: 0 }
    }
}

/// `s` reports the latencies `l`: their mean, extremes, median, 99th
/// percentile and number, all zero when there is none.
pub open spec fn reports(l: Seq<u128>, s: LatencyStats) -> bool {
    &&& l.len() == 0 ==> s == LatencyStats { avg: 0, min: 0, max: 0, p50: 0, p99: 0, count: 0 }
    &&& l.len() > 0 ==> {
        &&& s.avg == mean_nanos(l)
        &&& s.min == ranked(l, 0)
        &&& s.max == ranked(l, l.len() - 1)
        &&& s.p50 == ranked(l, p50_rank(l.len()))
        &&& s.p99 == ranked(l, p99_rank(l.len()) as int)
        &&& s.count == l.len()
    }
}

/// `k` is the smallest id in `ids`.
pub open spec fn is_oldest(ids: Set<u64>, k: u64) -> bool {
    &&& ids.contains(k)
    &&& forall|j: u64| ids.contains(j) ==> k <= j
}

/// `after` is `before` with one more insert started: it got the id `id`,
/// the next one, which was not pending and now is; nothing else changed.
pub open spec fn starts(before: PendingInserts, after: PendingInserts, id: u64) -> bool {
    &&& id == before.next_id()
    &&& after.next_id() == id + 1
    &&& !before.started().contains_key(id)
    &&& after.started().contains_key(id)
    &&& after.started().remove(id) == before.started()
    &&& after.latencies() == before.latencies()
}

/// `after` is `before` with the insert `id` confirmed, `r` being what the
/// confirmation returned: a pending `id` stops being pending and its latency
/// `r`, the time from its start to a reading of the clock, is appended to
/// the latencies; an `id` not pending gives `None` and changes nothing.
pub open spec fn completes(
    before: PendingInserts,
    after: PendingInserts,
    id: u64,
    r: Option<u128>,
) -> bool {
    &&& r is Some <==> before.started().contains_key(id)
    &&& after.started() == before.started().remove(id)
    &&& after.next_id() == before.next_id()
    &&& match r {
        Some(latency) => {
            &&& after.latencies() == before.latencies().push(latency)
            &&& latency <= MAX_LATENCY_NANOS
            &&& exists|end: Instant| latency == #[trigger] instant_gap(before.started()[id], end)
        },
        None => after.latencies() == before.latencies(),
    }
}

/// `after` is `before` with its oldest pending insert confirmed, when one
/// is pending; with none pending nothing changes.
pub open spec fn completes_oldest(before: PendingInserts, after: PendingInserts) -> bool {
    if before.started().dom().is_empty() {
        &&& after.started() == before.started()
        &&& after.next_id() == before.next_id()
        &&& after.latencies() == before.latencies()
    } else {
        exists|k: u64|
            #[trigger] is_oldest(before.started().dom(), k) && completes(
                before,
                after,
                k,
                Some(after.latencies().last()),
            )
    }
}

/// `after` is `before` with the confirmed latencies forgotten; the pending
/// inserts and the next id stay.
pub open spec fn clears(before: PendingInserts, after: PendingInserts) -> bool {
    &&& after.latencies() == Seq::<u128>::empty()
    &&& after.started() == before.started()
    &&& after.next_id() == before.next_id()
}

/// `after` follows from `before` by one call of `start`, `complete`,
/// `confirm_oldest` or `clear_latencies`.
pub open spec fn step(before: PendingInserts, after: PendingInserts) -> bool {
    ||| exists|id: u64| #[trigger] starts(before, after, id)
    ||| exists|id: u64, r: Option<u128>| #[trigger] completes(before, after, id, r)
    ||| completes_oldest(before, after)
    ||| clears(before, after)
}

/// State `i + 1` of `ps` follows from state `i` by one call.
pub open spec fn step_at(ps: Seq<PendingInserts>, i: int) -> bool {
    step(ps[i], ps[i + 1])
}

/// Each state of `ps` follows from the one before it by one call: `ps` is
/// the life of one `PendingInserts` over a sequence of calls.
pub open spec fn run(ps: Seq<PendingInserts>) -> bool {
    forall|i: int| 0 <= i < ps.len() - 1 ==> #[trigger] step_at(ps, i)
}

/// The insert `id` is done with: it is not pending, and it was handed out
/// already, so no later start hands it out again.
pub open spec fn retired(p: PendingInserts, id: u64) -> bool {
    &&& !p.started().contains_key(id)
    &&& id < p.next_id()
}

/// Each reading of `r` is no earlier than every reading before it.
pub open spec fn chronological(r: Seq<Instant>) -> bool {
    forall|i: int, j: int| 0 <= i < j < r.len() ==> not_before(#[trigger] r[j], #[trigger] r[i])
}

/// `end` is a fresh reading taken after `before`: it is added to the
/// readings and is no earlier than any of them.
pub open spec fn reads_clock(before: PendingInserts, after: PendingInserts, end: Instant) -> bool {
    &&& after.readings() == before.readings().push(end)
    &&& forall|i: int|
        0 <= i < before.readings().len() ==> not_before(end, #[trigger] before.readings()[i])
}

/// `latency` is the time from `start` to `end`: the gap between them, no
/// smaller than the gap from `start` to any instant no later than `end`,
/// and split by any instant between them into two gaps that add up to it.
pub open spec fn spans(start: Instant, end: Instant, latency: u128) -> bool {
    &&& latency == instant_gap(start, end)
    &&& forall|c: Instant| not_before(end, c) ==> #[trigger] instant_gap(start, c) <= latency
    &&& forall|b: Instant|
        not_before(b, start) && not_before(end, b) ==> #[trigger] instant_gap(start, b)
            + instant_gap(b, end) == latency
}

/// `after` is `before` with one more insert started now: as `starts`, its
/// start time being a fresh reading of the clock.
pub open spec fn starts_now(before: PendingInserts, after: PendingInserts, id: u64) -> bool {
    &&& starts(before, after, id)
    &&& reads_clock(before, after, after.started()[id])
}

/// `after` is `before` with the insert `id` confirmed now: as `completes`,
/// with a fresh reading of the clock taken, and the latency, when there is
/// one, running from the insert's start to that reading.
pub open spec fn completes_now(
    before: PendingInserts,
    after: PendingInserts,
    id: u64,
    r: Option<u128>,
) -> bool {
    &&& completes(before, after, id, r)
    &&& reads_clock(before, after, after.readings().last())
    &&& r matches Some(latency) ==> spans(before.started()[id], after.readings().last(), latency)
}

/// Tracks pending inserts waiting for confirmation.
pub struct PendingInserts {
    inserts: HashMap<u64, Instant>,
    next_id: u64,
    latencies: Vec<u128>,
    clock: Clock,
}

impl PendingInserts {
    /// Every pending id was handed out before `next_id`.
    #[verifier::type_invariant]
    spec fn ids_below_next(self) -> bool {
        &&& forall|id: u64| #[trigger] self.inserts@.contains_key(id) ==> id < self.next_id
        &&& chronological(self.clock.readings())
    }

    /// The pending inserts: each id with the time it was started.
    pub closed spec fn started(&self) -> Map<u64, Instant> {
        self.inserts@
    }

    /// The id the next insert will get.
    pub closed spec fn next_id(&self) -> u64 {
        self.next_id
    }

    /// The latencies of the confirmed inserts since the last clear, in the
    /// order they were confirmed.
    pub closed spec fn latencies(&self) -> Seq<u128> {
        self.latencies@
    }

    /// The clock readings `start` and `complete` have taken, oldest first.
    pub closed spec fn readings(&self) -> Seq<Instant> {
        self.clock.readings()
    }

    /// Takes a reading of the clock.
    fn read_clock(&mut self) -> (t: Instant)
        ensures
            final(self).readings() == old(self).readings().push(t),
            forall|i: int|
                0 <= i < old(self).readings().len() ==> not_before(
                    t,
                    #[trigger] old(self).readings()[i],
                ),
            final(self).started() == old(self).started(),
            final(self).next_id() == old(self).next_id(),
            final(self).latencies() == old(self).latencies(),
    {
        proof {
            use_type_invariant(&*self);
        }
        let mut clock = Clock::new();
        std::mem::swap(&mut clock, &mut self.clock);
        let ghost before = clock.readings();
        let t = clock.read();
        proof {
            let r = clock.readings();
            assert forall|i: int, j: int| 0 <= i < j < r.len() implies not_before(
                #[trigger] r[j],
                #[trigger] r[i],
            ) by {
                assert(r[i] == before[i]);
                if j < r.len() - 1 {
                    assert(r[j] == before[j]);
                }
            }
        }
        self.clock = clock;
        t
    }

    /// Every pending id was handed out before the next one: what every
    /// operation keeps.
    pub open spec fn well_numbered(&self) -> bool {
        &&& self.started().dom().finite()
        &&& forall|id: u64| #[trigger] self.started().contains_key(id) ==> id < self.next_id()
    }

    /// No insert pending, none confirmed, ids starting at zero.
    pub fn new() -> (p: Self)
        ensures
            p.started() == Map::<u64, Instant>::empty(),
            p.next_id() == 0,
            p.latencies() == Seq::<u128>::empty(),
            p.readings() == Seq::<Instant>::empty(),
            p.well_numbered(),
    {
        PendingInserts {
            inserts: HashMap::new(),
            next_id: 0,
            latencies: Vec::new(),
            clock: Clock::new(),
        }
    }

    /// Marks a new insert as started now and returns its id. Its start
    /// time is a fresh reading of the clock, no earlier than any reading
    /// taken before.
    pub fn start(&mut self) -> (id: u64)
        requires
            old(self).next_id() < u64::MAX,
        ensures
            starts_now(*old(self), *final(self), id),
            final(self).well_numbered(),
            chronological(final(self).readings()),
    {
        let t = self.read_clock();
        self.start_at(t)
    }

    /// Marks a new insert as started at `t` and returns its id.
    pub fn start_at(&mut self, t: Instant) -> (id: u64)
        requires
            old(self).next_id() < u64::MAX,
        ensures
            starts(*old(self), *final(self), id),
            final(self).started() == old(self).started().insert(id, t),
            final(self).readings() == old(self).readings(),
            final(self).well_numbered(),
            chronological(final(self).readings()),
    {
        proof {
            use_type_invariant(&*self);
        }
        let id = self.next_id;
        self.next_id = self.next_id + 1;
        let mut inserts: HashMap<u64, Instant> = HashMap::new();
        std::mem::swap(&mut inserts, &mut self.inserts);
        inserts.insert(id, t);
        self.inserts = inserts;
        assert(self.inserts@.remove(id) =~= old(self).inserts@);
        id
    }

    /// Confirms the insert `id` now: when it is pending, it stops being so
    /// and the time from its start to now is recorded and returned;
    /// otherwise nothing changes and `None` is returned.
    ///
    /// The clock reading the latency runs to is a fresh one, no earlier than
    /// any reading taken before, so the latency covers at least the time
    /// from the start to each earlier reading.
    pub fn complete(&mut self, id: u64) -> (r: Option<u128>)
        ensures
            completes_now(*old(self), *final(self), id, r),
            r matches Some(latency) ==> forall|i: int|
                0 <= i < old(self).readings().len() ==> #[trigger] instant_gap(
                    old(self).started()[id],
                    old(self).readings()[i],
                ) <= latency,
            final(self).well_numbered(),
            chronological(final(self).readings()),
    {
        let end = self.read_clock();
        let r = self.complete_at(id, &end);
        proof {
            if r is Some {
                assert forall|i: int| 0 <= i < old(self).readings().len() implies #[trigger] instant_gap(
                    old(self).started()[id],
                    old(self).readings()[i],
                ) <= r->0 by {
                    assert(not_before(end, old(self).readings()[i]));
                }
            }
        }
        r
    }

    /// Confirms the insert `id` at the clock reading `end`: when it is
    /// pending, it stops being so and the time from its start to `end` is
    /// recorded and returned; otherwise nothing changes and `None` is
    /// returned.
    pub fn complete_at(&mut self, id: u64, end: &Instant) -> (r: Option<u128>)
        ensures
            completes(*old(self), *final(self), id, r),
            r matches Some(latency) ==> latency == instant_gap(old(self).started()[id], *end),
            r matches Some(latency) ==> forall|c: Instant|
                not_before(*end, c) ==> #[trigger] instant_gap(old(self).started()[id], c)
                    <= latency,
            r matches Some(latency) ==> forall|b: Instant|
                not_before(b, old(self).started()[id]) && not_before(*end, b) ==> #[trigger] instant_gap(
                    old(self).started()[id],
                    b,
                ) + instant_gap(b, *end) == latency,
            final(self).readings() == old(self).readings(),
            final(self).well_numbered(),
            chronological(final(self).readings()),
    {
        proof {
            use_type_invariant(&*self);
        }
        let mut inserts: HashMap<u64, Instant> = HashMap::new();
        std::mem::swap(&mut inserts, &mut self.inserts);
        let removed = inserts.remove(&id);
        self.inserts = inserts;
        if let Some(start) = removed {
            let latency = gap_nanos(&start, end);
            let mut latencies: Vec<u128> = Vec::new();
            std::mem::swap(&mut latencies, &mut self.latencies);
            latencies.push(latency);
            self.latencies = latencies;
            Some(latency)
        } else {
            proof {
                assert(old(self).inserts@.remove(id) =~= old(self).inserts@);
            }
            None
        }
    }

    /// The mean, extremes, median and 99th percentile of the confirmed
    /// latencies, and their number; all zero when there is none.
    pub fn stats(&self) -> (s: LatencyStats)
        requires
            summarizable(self.latencies()),
        ensures
            reports(self.latencies(), s),
    {
        if self.latencies.len() == 0 {
            return LatencyStats::default();
        }
        let sorted = sorted_copy(&self.latencies);
        proof {
            lemma_sorted_latencies(self.latencies@);
        }
        let n = sorted.len();
        let avg = mean(&self.latencies);
        let min = sorted[0];
        let max = sorted[n - 1];
        let p50 = sorted[n / 2];
        let p99 = sorted[p99_index(n)];
        LatencyStats { avg, min, max, p50, p99, count: n }
    }

    /// The smallest pending id, when an insert is pending.
    pub fn oldest_pending(&self) -> (r: Option<u64>)
        ensures
            match r {
                Some(k) => is_oldest(self.started().dom(), k),
                None => self.started().dom().is_empty(),
            },
    {
        let mut best: Option<u64> = None;
        let keys = self.inserts.keys();
        let ghost all: Seq<u64> = keys.remaining().unref();
        assert(all.to_set() == self.inserts@.dom());
        for k in it: keys
            invariant
                it.seq().unref() == all,
                all.to_set() == self.inserts@.dom(),
                match best {
                    Some(b) => {
                        &&& self.inserts@.contains_key(b)
                        &&& forall|i: int| 0 <= i < it.index() ==> b <= #[trigger] all[i]
                    },
                    None => it.index() == 0,
                },
        {
            proof {
                assert(all[it.index()] == *k);
                assert(all.contains(*k));
            }
            match best {
                Some(b) => {
                    if *k < b {
                        best = Some(*k);
                    }
                },
                None => {
                    best = Some(*k);
                },
            }
        }
        proof {
            match best {
                Some(b) => {
                    assert forall|j: u64| self.inserts@.dom().contains(j) implies b <= j by {
                        assert(all.to_set().contains(j));
                        assert(all.contains(j));
                        let i = choose|i: int| 0 <= i < all.len() && all[i] == j;
                        assert(b <= all[i]);
                    }
                },
                None => {
                    assert(all.len() == 0);
                    assert(all.to_set() =~= Set::<u64>::empty());
                },
            }
        }
        best
    }

    /// Handles one committed append. Appends are confirmed in the order
    /// they were sent, so the oldest pending insert is the one confirmed.
    /// Returns whether the batch is complete: whether `batch_size`
    /// latencies are now recorded.
    pub fn confirm_oldest(&mut self, batch_size: u64) -> (batch_done: bool)
        ensures
            completes_oldest(*old(self), *final(self)),
            batch_done == (final(self).latencies().len() >= batch_size),
            old(self).started().dom().is_empty() ==> final(self).readings() == old(self).readings(),
            !old(self).started().dom().is_empty() ==> {
                &&& final(self).readings() == old(self).readings().push(final(self).readings().last())
                &&& forall|i: int|
                    0 <= i < old(self).readings().len() ==> not_before(
                        final(self).readings().last(),
                        #[trigger] old(self).readings()[i],
                    )
                &&& forall|k: u64|
                    #[trigger] is_oldest(old(self).started().dom(), k) ==> {
                        &&& spans(
                            old(self).started()[k],
                            final(self).readings().last(),
                            final(self).latencies().last(),
                        )
                        &&& forall|i: int|
                            0 <= i < old(self).readings().len() ==> #[trigger] instant_gap(
                                old(self).started()[k],
                                old(self).readings()[i],
                            ) <= final(self).latencies().last()
                    }
            },
            final(self).well_numbered(),
            chronological(final(self).readings()),
    {
        proof {
            use_type_invariant(&*self);
        }
        match self.oldest_pending() {
            Some(k) => {
                let r = self.complete(k);
                assert(is_oldest(old(self).started().dom(), k));
                proof {
                    assert forall|j: u64| #[trigger] is_oldest(old(self).started().dom(), j) implies j == k by {
                        assert(j <= k && k <= j);
                    }
                }
            },
            None => {},
        }
        batch_complete(self.latencies.len(), batch_size)
    }

    /// The statistics of `stats`, or why they cannot be taken: the total
    /// does not fit in a `Duration`, or the count taken as a `u32` is zero.
    pub fn checked_stats(&self) -> (r: Result<LatencyStats, StatsError>)
        ensures
            match r {
                Ok(s) => summarizable(self.latencies()) && reports(self.latencies(), s),
                Err(e) => !summarizable(self.latencies()) && stats_error(self.latencies()) == Some(e),
            },
    {
        match check_summarizable(&self.latencies) {
            Ok(()) => Ok(self.stats()),
            Err(e) => Err(e),
        }
    }

    /// Forgets the confirmed latencies; the pending inserts stay.
    pub fn clear_latencies(&mut self)
        ensures
            clears(*old(self), *final(self)),
            final(self).readings() == old(self).readings(),
            final(self).well_numbered(),
            chronological(final(self).readings()),
    {
        proof {
            use_type_invariant(&*self);
        }
        let mut latencies: Vec<u128> = Vec::new();
        std::mem::swap(&mut latencies, &mut self.latencies);
        latencies.clear();
        self.latencies = latencies;
    }
}

/// Readings taken one after another stay in order: a fresh reading added to
/// chronological readings leaves them chronological.
pub proof fn law_readings_stay_chronological(
    p0: PendingInserts,
    p1: PendingInserts,
    end: Instant,
)
    requires
        chronological(p0.readings()),
        reads_clock(p0, p1, end),
    ensures
        chronological(p1.readings()),
{
    let r = p1.readings();
    assert forall|i: int, j: int| 0 <= i < j < r.len() implies not_before(
        #[trigger] r[j],
        #[trigger] r[i],
    ) by {
        if j < r.len() - 1 {
            assert(r[i] == p0.readings()[i] && r[j] == p0.readings()[j]);
        } else {
            assert(r[i] == p0.readings()[i]);
        }
    }
}

/// A start stamps its insert no earlier than any other pending insert that
/// was stamped by a reading of the clock, such as one started by `start`:
/// the new stamp is a fresh reading.
pub proof fn law_start_stamp_is_newest(
    p0: PendingInserts,
    p1: PendingInserts,
    id: u64,
    k: u64,
    a: int,
)
    requires
        starts_now(p0, p1, id),
        p0.started().contains_key(k),
        0 <= a < p0.readings().len(),
        p0.started()[k] == p0.readings()[a],
    ensures
        not_before(p1.started()[id], p0.started()[k]),
        k != id,
{
}

/// The latency of an insert started by a reading of the clock covers all
/// the time that passed before it was confirmed: for every reading taken
/// from its start to the confirmation, the latency is at least the time
/// from the start to that reading, and for a reading taken after the start
/// it splits there into that time and the time from that reading to the
/// confirmation.
pub proof fn law_latency_covers_time_since_start(
    p0: PendingInserts,
    p1: PendingInserts,
    id: u64,
    latency: u128,
    a: int,
)
    requires
        chronological(p0.readings()),
        0 <= a < p0.readings().len(),
        p0.started()[id] == p0.readings()[a],
        completes_now(p0, p1, id, Some(latency)),
    ensures
        forall|b: int|
            a <= b < p0.readings().len() ==> {
                &&& instant_gap(p0.started()[id], #[trigger] p0.readings()[b]) <= latency
                &&& a < b ==> instant_gap(p0.started()[id], p0.readings()[b]) + instant_gap(
                    p0.readings()[b],
                    p1.readings().last(),
                ) == latency
            },
{
    let r = p0.readings();
    let end = p1.readings().last();
    assert forall|b: int| a <= b < r.len() implies {
        &&& instant_gap(p0.started()[id], #[trigger] r[b]) <= latency
        &&& a < b ==> instant_gap(p0.started()[id], r[b]) + instant_gap(r[b], end) == latency
    } by {
        assert(not_before(end, r[b]));
        if a < b {
            assert(not_before(r[b], r[a]));
        }
    }
}

/// One call keeps the numbering sound, never lowers the next id, and keeps
/// a retired insert retired.
proof fn lemma_step_keeps(b: PendingInserts, a: PendingInserts)
    requires
        step(b, a),
        b.well_numbered(),
    ensures
        a.well_numbered(),
        b.next_id() <= a.next_id(),
        forall|id: u64| #[trigger] retired(b, id) ==> retired(a, id),
{
    if exists|id: u64| #[trigger] starts(b, a, id) {
        let n = choose|id: u64| #[trigger] starts(b, a, id);
        assert forall|x: u64| x != n implies (#[trigger] a.started().contains_key(x)
            <==> b.started().contains_key(x)) by {
            assert(a.started().remove(n).contains_key(x) == a.started().contains_key(x));
        }
    } else if exists|id: u64, r: Option<u128>| #[trigger] completes(b, a, id, r) {
    } else if completes_oldest(b, a) {
        if !b.started().dom().is_empty() {
            let k = choose|k: u64|
                #[trigger] is_oldest(b.started().dom(), k) && completes(
                    b,
                    a,
                    k,
                    Some(a.latencies().last()),
                );
        }
    }
}

/// Along a run, from state `i` on: the numbering stays sound, the next id
/// never decreases, and a retired insert stays retired.
proof fn lemma_run_keeps(ps: Seq<PendingInserts>, i: int, j: int)
    requires
        run(ps),
        0 <= i <= j < ps.len(),
        ps[i].well_numbered(),
    ensures
        ps[j].well_numbered(),
        ps[i].next_id() <= ps[j].next_id(),
        forall|id: u64| #[trigger] retired(ps[i], id) ==> retired(ps[j], id),
    decreases j - i,
{
    if i < j {
        lemma_run_keeps(ps, i, j - 1);
        assert(step_at(ps, j - 1));
        lemma_step_keeps(ps[j - 1], ps[j]);
    }
}

/// Ids strictly increase over the life of a `PendingInserts`: whatever calls
/// come between two starts, the later start hands out a larger id, so no id
/// is handed out twice.
pub proof fn law_ids_increase(ps: Seq<PendingInserts>, i: int, j: int, a: u64, b: u64)
    requires
        run(ps),
        0 <= i < j,
        j + 1 < ps.len(),
        starts(ps[i], ps[i + 1], a),
        starts(ps[j], ps[j + 1], b),
    ensures
        a < b,
{
    lemma_next_id_grows(ps, i + 1, j);
}

/// Along a run the next id never decreases.
proof fn lemma_next_id_grows(ps: Seq<PendingInserts>, i: int, j: int)
    requires
        run(ps),
        0 <= i <= j < ps.len(),
    ensures
        ps[i].next_id() <= ps[j].next_id(),
    decreases j - i,
{
    if i < j {
        lemma_next_id_grows(ps, i, j - 1);
        assert(step_at(ps, j - 1));
        let b = ps[j - 1];
        let a = ps[j];
        if completes_oldest(b, a) && !b.started().dom().is_empty() {
            let k = choose|k: u64|
                #[trigger] is_oldest(b.started().dom(), k) && completes(
                    b,
                    a,
                    k,
                    Some(a.latencies().last()),
                );
        }
    }
}

/// Each started insert yields at most one latency over the life of a
/// `PendingInserts`: once confirming `id` has returned a latency, every
/// later confirmation of `id`, whatever calls come between, returns nothing
/// and changes nothing.
pub proof fn law_confirmed_at_most_once(
    ps: Seq<PendingInserts>,
    i: int,
    j: int,
    id: u64,
    latency: u128,
    r: Option<u128>,
)
    requires
        run(ps),
        ps[i].well_numbered(),
        0 <= i < j,
        j + 1 < ps.len(),
        completes(ps[i], ps[i + 1], id, Some(latency)),
        completes(ps[j], ps[j + 1], id, r),
    ensures
        r is None,
        ps[j + 1].started() == ps[j].started(),
        ps[j + 1].latencies() == ps[j].latencies(),
        ps[j + 1].next_id() == ps[j].next_id(),
{
    assert(step_at(ps, i));
    lemma_step_keeps(ps[i], ps[i + 1]);
    assert(retired(ps[i + 1], id));
    lemma_run_keeps(ps, i + 1, j);
    assert(retired(ps[j], id));
    assert(ps[j].started().remove(id) =~= ps[j].started());
}

/// A start adds exactly one pending insert: no pending start time is
/// overwritten, so the number of pending inserts grows by one.
pub proof fn law_start_adds_one(p0: PendingInserts, p1: PendingInserts, id: u64)
    requires
        p0.well_numbered(),
        starts(p0, p1, id),
    ensures
        p1.started().dom().len() == p0.started().dom().len() + 1,
{
    assert(p1.started().dom() =~= p0.started().dom().insert(id)) by {
        assert forall|x: u64| #[trigger] p1.started().dom().contains(x) <==> p0.started().dom().insert(id).contains(x) by {
            assert(p1.started().remove(id).contains_key(x) == (x != id && p1.started().contains_key(x)));
        }
    }
}

/// Ids are handed out in order and once each: two starts in a row give
/// consecutive ids, and both inserts are pending afterwards.
pub proof fn law_ids_consecutive(
    p0: PendingInserts,
    p1: PendingInserts,
    p2: PendingInserts,
    a: u64,
    b: u64,
)
    requires
        starts(p0, p1, a),
        starts(p1, p2, b),
    ensures
        b == a + 1,
        p2.started().contains_key(a),
        p2.started().contains_key(b),
{
    assert(p2.started().remove(b).contains_key(a));
}

/// A started insert is confirmed once: confirming its id returns its
/// latency and records it; confirming it again returns nothing and changes
/// nothing; the pending inserts are then those from before the start.
pub proof fn law_confirmed_once(
    p0: PendingInserts,
    p1: PendingInserts,
    p2: PendingInserts,
    p3: PendingInserts,
    id: u64,
    r1: Option<u128>,
    r2: Option<u128>,
)
    requires
        starts(p0, p1, id),
        completes(p1, p2, id, r1),
        completes(p2, p3, id, r2),
    ensures
        r1 is Some,
        r2 is None,
        p3.started() == p0.started(),
        p3.latencies() == p0.latencies().push(r1->0),
        p3.next_id() == id + 1,
{
    assert(p2.started() =~= p0.started());
    assert(p3.started() =~= p0.started());
}

/// Inserts are confirmed in the order they were started: from nothing
/// pending, after two starts the first confirmation of the oldest insert
/// confirms the first one started and the second confirms the other.
pub proof fn law_confirmed_in_order(
    p0: PendingInserts,
    p1: PendingInserts,
    p2: PendingInserts,
    p3: PendingInserts,
    p4: PendingInserts,
    a: u64,
    b: u64,
)
    requires
        p0.started().dom().is_empty(),
        starts(p0, p1, a),
        starts(p1, p2, b),
        completes_oldest(p2, p3),
        completes_oldest(p3, p4),
    ensures
        p3.started().dom() == set![b],
        p4.started().dom().is_empty(),
        p4.latencies().len() == p0.latencies().len() + 2,
{
    law_ids_consecutive(p0, p1, p2, a, b);
    assert(p2.started().dom() =~= set![a, b]) by {
        assert(p1.started().dom() =~= set![a]) by {
            assert(p1.started().remove(a).dom() =~= p0.started().dom());
        }
        assert(p2.started().remove(b).dom() =~= p1.started().dom());
    }
    assert(is_oldest(p2.started().dom(), a));
    let k = choose|k: u64| #[trigger] is_oldest(p2.started().dom(), k) && completes(
        p2,
        p3,
        k,
        Some(p3.latencies().last()),
    );
    assert(k == a);
    assert(p3.started().dom() =~= set![b]);
    assert(!p3.started().dom().is_empty());
    assert(is_oldest(p3.started().dom(), b));
    let k2 = choose|k: u64| #[trigger] is_oldest(p3.started().dom(), k) && completes(
        p3,
        p4,
        k,
        Some(p4.latencies().last()),
    );
    assert(k2 == b);
    assert(p4.started().dom() =~= Set::<u64>::empty());
}

/// The statistics of a `PendingInserts` depend only on which latencies it
/// holds, not on the order they were confirmed in, nor on the pending
/// inserts: two lists with the same samples are reported alike.
pub proof fn law_pending_stats_ignore_order(
    la: Seq<u128>,
    lb: Seq<u128>,
    sa: LatencyStats,
    sb: LatencyStats,
)
    requires
        la.to_multiset() == lb.to_multiset(),
        reports(la, sa),
        reports(lb, sb),
    ensures
        sa == sb,
{
    law_stats_ignore_order(la, lb);
    la.to_multiset_ensures();
    lb.to_multiset_ensures();
}

/// A `RoundtripTimer` and a `PendingInserts` holding the same latencies
/// report the same mean, median and 99th percentile.
pub proof fn law_both_tools_agree(
    l: Seq<u128>,
    t: crate::roundtrip::LatencyStats,
    p: LatencyStats,
)
    requires
        crate::roundtrip::reports(l, t),
        reports(l, p),
    ensures
        t.avg == p.avg,
        t.p50 == p.p50,
        t.p99 == p.p99,
{
}

} // verus!
