//! Per-relay probe bookkeeping and the statistics derived from the
//! collected round-trip times.

use vstd::prelude::*;

use vstd::arithmetic::div_mod::{lemma_div_is_ordered, lemma_div_multiples_vanish};

use crate::filters::{admits_all, all_admit, PingFilter};
use crate::relays::Relay;
use crate::sorting::{lemma_sort_stable_len, sort_stable, sort_u64_vec, u64_le};

verus! {

/// Error of the probe orchestrator: a worker could not be awaited to
/// completion.  Distinct from an ordinary unreachable relay, which is a
/// valid outcome.
#[derive(Clone, Copy, Debug, PartialEq, Eq, Structural)]
pub enum RelaysPingerError {
    PingerAwaitFailed,
}

impl RelaysPingerError {
    /// Human-readable description of the error.
    pub fn message(&self) -> (r: String)
        ensures
            r@ == "Failed to await a task"@,
    {
        "Failed to await a task".to_owned()
    }
}

/// Sum of a sequence of timings.
pub open spec fn sum_of(s: Seq<u64>) -> int
    decreases s.len(),
{
    if s.len() == 0 {
        0
    } else {
        sum_of(s.drop_last()) + s.last()
    }
}

/// Arithmetic mean of a timing sequence, undefined when it is empty.
/// Division truncates, as the nanosecond arithmetic of the runtime does.
pub open spec fn mean_of(s: Seq<u64>) -> Option<u64> {
    if s.len() == 0 {
        None
    } else {
        Some((sum_of(s) / (s.len() as int)) as u64)
    }
}

/// Median of a timing sequence, undefined when it is empty: the middle
/// element of the ascending sort for odd lengths, the average of the two
/// elements around the middle for even lengths.
pub open spec fn median_of(s: Seq<u64>) -> Option<u64> {
    if s.len() == 0 {
        None
    } else {
        let t = sort_stable(u64_le(), s);
        let mid = s.len() as int / 2;
        if s.len() % 2 == 0 {
            Some(((t[mid - 1] + t[mid]) / 2) as u64)
        } else {
            Some(t[mid])
        }
    }
}

/// A relay paired with the round-trip times of its successful probes, in
/// nanoseconds, in chronological order.  Failed probes leave no entry, so
/// the sequence may be empty; that is a valid, non-error outcome.
#[derive(Debug)]
pub struct RelayTimed {
    pub relay: Relay,
    pub timings: Vec<u64>,
}

impl RelayTimed {
    pub fn new(relay: Relay, timings: Vec<u64>) -> (r: Self)
        ensures
            r.relay == relay,
            r.timings == timings,
    {
        Self { relay, timings }
    }

    /// Returns the relay.
    pub fn relay(&self) -> (r: &Relay)
        ensures
            r == &self.relay,
    {
        &self.relay
    }

    /// Gets the mean RTT; `None` when no probe succeeded.
    pub fn rtt_mean(&self) -> (r: Option<u64>)
        ensures
            r == mean_of(self.timings@),
            r is Some <==> self.timings@.len() > 0,
    {
        let n = self.timings.len();
        if n == 0 {
            return None;
        }
        let mut sum: u128 = 0;
        let mut i: usize = 0;
        while i < n
            invariant
                i <= n,
                n == self.timings@.len(),
                sum == sum_of(self.timings@.subrange(0, i as int)),
                sum <= i * (u64::MAX as int),
            decreases n - i,
        {
            let x = self.timings[i];
            proof {
                assert(self.timings@.subrange(0, i + 1).drop_last() =~= self.timings@.subrange(
                    0,
                    i as int,
                ));
                assert(self.timings@.subrange(0, i + 1).last() == x);
            }
            sum = sum + x as u128;
            i = i + 1;
        }
        proof {
            assert(self.timings@.subrange(0, n as int) =~= self.timings@);
            lemma_div_is_ordered(sum as int, (n as int) * (u64::MAX as int), n as int);
            lemma_div_multiples_vanish(u64::MAX as int, n as int);
        }
        Some((sum / (n as u128)) as u64)
    }

    /// Gets the median RTT; `None` when no probe succeeded.
    pub fn rtt_median(&self) -> (r: Option<u64>)
        ensures
            r == median_of(self.timings@),
            r is Some <==> self.timings@.len() > 0,
    {
        let n = self.timings.len();
        if n == 0 {
            return None;
        }
        let mut sorted_timings: Vec<u64> = Vec::new();
        let mut i: usize = 0;
        while i < n
            invariant
                i <= n,
                n == self.timings@.len(),
                sorted_timings@ == self.timings@.subrange(0, i as int),
            decreases n - i,
        {
            let x = self.timings[i];
            sorted_timings.push(x);
            proof {
                assert(self.timings@.subrange(0, i + 1) =~= self.timings@.subrange(
                    0,
                    i as int,
                ).push(x));
            }
            i = i + 1;
        }
        proof {
            assert(self.timings@.subrange(0, n as int) =~= self.timings@);
            lemma_sort_stable_len(u64_le(), self.timings@);
        }
        sort_u64_vec(&mut sorted_timings);
        let mid = n / 2;
        if n % 2 == 0 {
            let a = sorted_timings[mid - 1];
            let b = sorted_timings[mid];
            Some(((a as u128 + b as u128) / 2) as u64)
        } else {
            Some(sorted_timings[mid])
        }
    }
}

/// Probing configuration, shared read-only by all concurrent probers.
#[derive(Clone, Copy, Debug, PartialEq, Eq, Structural)]
pub struct RelayPingerConfig {
    /// How many times to ping the relay. Defaults to 4.
    pub count: usize,
    /// How long to wait before timing out a ping, in milliseconds.
    /// Defaults to 750 ms.
    pub timeout_ms: u64,
    /// How long to wait between pings, in milliseconds. Defaults to 1 s.
    pub interval_ms: u64,
}

impl RelayPingerConfig {
    /// A configuration schedules at least one probe.
    pub open spec fn wf(self) -> bool {
        self.count >= 1
    }

    pub fn new() -> (r: Self)
        ensures
            r.count == 4,
            r.timeout_ms == 750,
            r.interval_ms == 1000,
            r.wf(),
    {
        Self { count: 4, timeout_ms: 750, interval_ms: 1000 }
    }

    /// Set the number of pings to send.
    pub fn set_count(self, count: usize) -> (r: Self)
        requires
            count >= 1,
        ensures
            r.count == count,
            r.timeout_ms == self.timeout_ms,
            r.interval_ms == self.interval_ms,
            r.wf(),
    {
        Self { count, ..self }
    }

    /// Set the timeout for each ping, in milliseconds.
    pub fn set_timeout(self, timeout_ms: u64) -> (r: Self)
        ensures
            r.count == self.count,
            r.timeout_ms == timeout_ms,
            r.interval_ms == self.interval_ms,
    {
        Self { timeout_ms, ..self }
    }

    /// Set the interval between pings, in milliseconds.
    pub fn set_interval(self, interval_ms: u64) -> (r: Self)
        ensures
            r.count == self.count,
            r.timeout_ms == self.timeout_ms,
            r.interval_ms == interval_ms,
    {
        Self { interval_ms, ..self }
    }
}

impl Default for RelayPingerConfig {
    fn default() -> (r: Self)
        ensures
            r.count == 4,
            r.timeout_ms == 750,
            r.interval_ms == 1000,
            r.wf(),
    {
        Self::new()
    }
}

/// Bookkeeping of one relay's probe run.
///
/// The prober performs exactly `config.count` scheduled attempts.  The
/// connection attempts themselves happen outside the library; each one is
/// reported here — a successful one with its round-trip time, a failed or
/// timed-out one without.  A failure never aborts the remaining attempts.
/// After the last report, `finish` yields the relay's timing record.
#[derive(Debug)]
pub struct RelayPinger {
    pub relay: Relay,
    pub config: RelayPingerConfig,
    /// Probe attempts accounted for so far.
    pub ticks: usize,
    /// Round-trip times of the successful probes so far, in nanoseconds,
    /// in chronological order.
    pub timings: Vec<u64>,
}

impl RelayPinger {
    /// Every reachable prober state: no more attempts than configured,
    /// and at most one timing per attempt.
    pub open spec fn wf(self) -> bool {
        &&& self.config.wf()
        &&& self.ticks <= self.config.count
        &&& self.timings@.len() <= self.ticks
    }

    pub fn new(relay: Relay, config: RelayPingerConfig) -> (r: Self)
        requires
            config.wf(),
        ensures
            r.relay == relay,
            r.config == config,
            r.ticks == 0,
            r.timings@ == Seq::<u64>::empty(),
            r.wf(),
    {
        Self { relay, config, ticks: 0, timings: Vec::new() }
    }

    /// Whether all scheduled attempts have been accounted for.
    pub fn is_done(&self) -> (r: bool)
        ensures
            r == (self.ticks == self.config.count),
    {
        self.ticks == self.config.count
    }

    /// Records a probe that established a connection, with its round-trip
    /// time in nanoseconds.
    pub fn record_success(&mut self, rtt_ns: u64)
        requires
            old(self).wf(),
            old(self).ticks < old(self).config.count,
        ensures
            final(self).wf(),
            final(self).relay == old(self).relay,
            final(self).config == old(self).config,
            final(self).ticks == old(self).ticks + 1,
            final(self).timings@ == old(self).timings@.push(rtt_ns),
    {
        self.timings.push(rtt_ns);
        self.ticks = self.ticks + 1;
    }

    /// Records a probe that failed or timed out: nothing is kept, and the
    /// remaining attempts still run.
    pub fn record_failure(&mut self)
        requires
            old(self).wf(),
            old(self).ticks < old(self).config.count,
        ensures
            final(self).wf(),
            final(self).relay == old(self).relay,
            final(self).config == old(self).config,
            final(self).ticks == old(self).ticks + 1,
            final(self).timings@ == old(self).timings@,
    {
        self.ticks = self.ticks + 1;
    }

    /// Ends the run after the last scheduled attempt and yields the timing
    /// record.  Whatever succeeded is kept: between zero timings (relay
    /// never reachable — a valid outcome) and one per scheduled probe.
    pub fn finish(self) -> (r: RelayTimed)
        requires
            self.wf(),
            self.ticks == self.config.count,
        ensures
            r.relay == self.relay,
            r.timings@ == self.timings@,
            r.timings@.len() <= self.config.count,
    {
        RelayTimed::new(self.relay, self.timings)
    }
}

/// The records admitted by the ping-stage filters, in join order: every
/// joined outcome whose record all filters admit.
pub open spec fn admitted_of(outcomes: Seq<Option<RelayTimed>>, filters: Seq<PingFilter>) -> Seq<
    RelayTimed,
>
    decreases outcomes.len(),
{
    if outcomes.len() == 0 {
        Seq::empty()
    } else {
        let rest = admitted_of(outcomes.drop_last(), filters);
        match outcomes.last() {
            Option::Some(t) => if all_admit(filters, t) {
                rest.push(t)
            } else {
                rest
            },
            Option::None => rest,
        }
    }
}

/// The probe orchestrator's collection step.
///
/// One worker per relay runs outside the library; joining it yields
/// `Some` timing record, or `None` when the worker ended abnormally and
/// could not be awaited.
#[derive(Debug)]
pub struct RelaysPinger {
    /// Filters to apply to timed relays after pinging.
    pub filters: Vec<PingFilter>,
}

impl RelaysPinger {
    pub fn new(filters: Vec<PingFilter>) -> (r: Self)
        ensures
            r.filters@ == filters@,
    {
        Self { filters }
    }

    /// Collects all joined outcomes.  If any worker could not be awaited,
    /// the whole batch fails and no partial result is returned; otherwise
    /// the result holds every record the ping-stage filters admit, in join
    /// order.
    pub fn ping(self, outcomes: Vec<Option<RelayTimed>>) -> (r: Result<
        Vec<RelayTimed>,
        RelaysPingerError,
    >)
        ensures
            (r is Ok) <==> (forall|i: int| 0 <= i < outcomes@.len() ==> outcomes@[i] is Some),
            r is Ok ==> r->Ok_0@ == admitted_of(outcomes@, self.filters@),
            r is Err ==> r->Err_0 == RelaysPingerError::PingerAwaitFailed,
    {
        let mut pending = outcomes;
        let mut results: Vec<RelayTimed> = Vec::new();
        let ghost mut done: Seq<Option<RelayTimed>> = Seq::empty();
        while pending.len() > 0
            invariant
                done + pending@ == outcomes@,
                forall|i: int| 0 <= i < done.len() ==> done[i] is Some,
                results@ == admitted_of(done, self.filters@),
            decreases pending@.len(),
        {
            let o = pending.remove(0);
            let ghost o_spec = o;
            proof {
                assert(0 <= done.len() < outcomes@.len());
                assert(outcomes@[done.len() as int] == o_spec);
            }
            match o {
                Option::Some(t) => {
                    let ghost t_spec = t;
                    if admits_all(&self.filters, &t) {
                        results.push(t);
                    }
                    proof {
                        let prev = done;
                        done = done.push(Option::Some(t_spec));
                        assert(done.drop_last() =~= prev);
                        assert(done + pending@ =~= outcomes@);
                    }
                },
                Option::None => {
                    proof {
                        assert(outcomes@[done.len() as int] is None);
                    }
                    return Result::Err(RelaysPingerError::PingerAwaitFailed);
                },
            }
        }
        proof {
            assert(done =~= outcomes@);
        }
        Result::Ok(results)
    }
}

} // verus!
