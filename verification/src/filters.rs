//! The filter abstraction: predicates over pipeline items, tagged with the
//! stage at which they are evaluated.  A stage's filter set is
//! conjunctive: an item passes only if every filter admits it.

use vstd::prelude::*;

use crate::pinger::{mean_of, RelayTimed};
use crate::relays::{Protocol, Relay};

verus! {

/// Pipeline point at which a filter is evaluated: before probing, against
/// a `Relay`, or after probing, against a `RelayTimed`.
#[derive(Clone, Copy, Debug, PartialEq, Eq, Structural)]
pub enum Stage {
    Load,
    Ping,
}

/// A predicate over one kind of pipeline item.
pub trait Filter: Sized {
    type Item;

    /// Stage at which the filter is evaluated.
    spec fn stage_spec(&self) -> Stage;

    /// What the filter admits.
    spec fn matches_spec(&self, item: &Self::Item) -> bool;

    fn stage(&self) -> (r: Stage)
        ensures
            r == self.stage_spec(),
    ;

    /// Filter predicate.
    fn matches(&self, item: &Self::Item) -> (r: bool)
        ensures
            r == self.matches_spec(item),
    ;
}

/// Load-stage filter by distance: admits a relay whose precomputed
/// distance is strictly below the threshold.  Millimeters.
#[derive(Debug)]
pub struct FilterByDistance {
    /// Distance threshold, in millimeters.
    pub distance: u64,
}

impl FilterByDistance {
    pub fn new(distance: u64) -> (r: Self)
        ensures
            r.distance == distance,
    {
        Self { distance }
    }
}

impl Filter for FilterByDistance {
    type Item = Relay;

    open spec fn stage_spec(&self) -> Stage {
        Stage::Load
    }

    open spec fn matches_spec(&self, relay: &Relay) -> bool {
        relay.distance < self.distance
    }

    fn stage(&self) -> Stage {
        Stage::Load
    }

    fn matches(&self, relay: &Relay) -> bool {
        relay.distance < self.distance
    }
}

/// Load-stage filter by protocol.  An absent protocol admits everything.
#[derive(Debug)]
pub struct FilterByProtocol {
    /// Protocol to compare with. `None` means any protocol.
    pub protocol: Option<Protocol>,
}

impl FilterByProtocol {
    pub fn new(protocol: Option<Protocol>) -> (r: Self)
        ensures
            r.protocol == protocol,
    {
        Self { protocol }
    }
}

impl Filter for FilterByProtocol {
    type Item = Relay;

    open spec fn stage_spec(&self) -> Stage {
        Stage::Load
    }

    open spec fn matches_spec(&self, relay: &Relay) -> bool {
        match self.protocol {
            Option::None => true,
            Option::Some(p) => relay.protocol == p,
        }
    }

    fn stage(&self) -> Stage {
        Stage::Load
    }

    fn matches(&self, relay: &Relay) -> bool {
        match &self.protocol {
            Option::None => true,
            Option::Some(p) => relay.protocol == *p,
        }
    }
}

/// Ping-stage filter by round-trip time, in nanoseconds.  An absent
/// threshold admits everything; a configured threshold admits a relay only
/// if its mean RTT is defined (at least one probe succeeded) and at most
/// the threshold.
#[derive(Debug)]
pub struct FilterByRTT {
    /// RTT threshold to compare with, in nanoseconds. `None` means any RTT.
    pub rtt: Option<u64>,
}

impl FilterByRTT {
    pub fn new(rtt: Option<u64>) -> (r: Self)
        ensures
            r.rtt == rtt,
    {
        Self { rtt }
    }
}

impl Filter for FilterByRTT {
    type Item = RelayTimed;

    open spec fn stage_spec(&self) -> Stage {
        Stage::Ping
    }

    open spec fn matches_spec(&self, timed: &RelayTimed) -> bool {
        match self.rtt {
            Option::None => true,
            Option::Some(threshold) => match mean_of(timed.timings@) {
                Option::None => false,
                Option::Some(mean) => mean <= threshold,
            },
        }
    }

    fn stage(&self) -> Stage {
        Stage::Ping
    }

    fn matches(&self, timed: &RelayTimed) -> bool {
        match self.rtt {
            Option::None => true,
            Option::Some(threshold) => match timed.rtt_mean() {
                Option::None => false,
                Option::Some(mean) => mean <= threshold,
            },
        }
    }
}

/// The closed set of load-stage filters, so a heterogeneous filter set can
/// live in one vector.
#[derive(Debug)]
pub enum LoadFilter {
    Distance(FilterByDistance),
    Protocol(FilterByProtocol),
}

impl Filter for LoadFilter {
    type Item = Relay;

    open spec fn stage_spec(&self) -> Stage {
        Stage::Load
    }

    open spec fn matches_spec(&self, relay: &Relay) -> bool {
        match self {
            LoadFilter::Distance(f) => f.matches_spec(relay),
            LoadFilter::Protocol(f) => f.matches_spec(relay),
        }
    }

    fn stage(&self) -> Stage {
        Stage::Load
    }

    fn matches(&self, relay: &Relay) -> bool {
        match self {
            LoadFilter::Distance(f) => f.matches(relay),
            LoadFilter::Protocol(f) => f.matches(relay),
        }
    }
}

/// The closed set of ping-stage filters.
#[derive(Debug)]
pub enum PingFilter {
    RTT(FilterByRTT),
}

impl Filter for PingFilter {
    type Item = RelayTimed;

    open spec fn stage_spec(&self) -> Stage {
        Stage::Ping
    }

    open spec fn matches_spec(&self, timed: &RelayTimed) -> bool {
        match self {
            PingFilter::RTT(f) => f.matches_spec(timed),
        }
    }

    fn stage(&self) -> Stage {
        Stage::Ping
    }

    fn matches(&self, timed: &RelayTimed) -> bool {
        match self {
            PingFilter::RTT(f) => f.matches(timed),
        }
    }
}

/// The distance filter admits a relay exactly when its precomputed
/// distance lies strictly below the threshold; a relay at the threshold
/// is rejected.
pub proof fn lemma_distance_filter_admits(f: FilterByDistance, relay: Relay)
    ensures
        f.matches_spec(&relay) <==> relay.distance < f.distance,
        relay.distance == f.distance ==> !f.matches_spec(&relay),
{
}

/// The RTT filter admits a record exactly when no threshold is configured,
/// or the record's mean RTT is defined (at least one probe succeeded) and
/// at most the threshold.  In particular a record without timings is
/// rejected whenever a threshold is configured, and admitted when none is.
pub proof fn lemma_rtt_filter_admits(f: FilterByRTT, timed: RelayTimed)
    ensures
        f.matches_spec(&timed) <==> match f.rtt {
            Option::None => true,
            Option::Some(threshold) => mean_of(timed.timings@) is Some && mean_of(
                timed.timings@,
            )->Some_0 <= threshold,
        },
        timed.timings@.len() == 0 && f.rtt is Some ==> !f.matches_spec(&timed),
        f.rtt is None ==> f.matches_spec(&timed),
{
}

/// A conjunctive filter set admits an item when every filter does.
pub open spec fn all_admit<F: Filter>(filters: Seq<F>, item: F::Item) -> bool {
    forall|i: int| 0 <= i < filters.len() ==> (#[trigger] filters[i]).matches_spec(&item)
}

/// Evaluates a whole filter set over one item.
pub fn admits_all<F: Filter>(filters: &Vec<F>, item: &F::Item) -> (r: bool)
    ensures
        r == all_admit(filters@, *item),
{
    let mut i: usize = 0;
    while i < filters.len()
        invariant
            i <= filters@.len(),
            forall|k: int| 0 <= k < i ==> (#[trigger] filters@[k]).matches_spec(item),
        decreases filters@.len() - i,
    {
        if !filters[i].matches(item) {
            return false;
        }
        i = i + 1;
    }
    true
}

} // verus!
