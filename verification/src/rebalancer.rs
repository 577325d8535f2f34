//! Which grains have to leave a silo after the ring changed.

use vstd::prelude::*;

use crate::failure_detector::MembershipChange;
use crate::grain::{GrainId, GrainIdView};
use crate::hash_ring::{HashRing, HashRingView};
use crate::maps;
use crate::maps::Duplicate;
use crate::text::same_text;
use crate::time;
use crate::time::{Duration, Instant};

verus! {

/// What reaches the rebalancer.
pub enum ChangeEvent {
    /// The membership changed.
    Changed(MembershipChange),
    /// So many changes were missed.
    Lagged(u64),
    /// No more changes will come.
    Closed,
}

/// Whether the ring gives a grain to another silo.
pub open spec fn belongs_elsewhere(ring: HashRingView, silo_id: Seq<char>) -> spec_fn(
    GrainIdView,
) -> bool {
    |id: GrainIdView|
        match ring.owner(id.joined()) {
            Some(owner) => owner.silo_id != silo_id,
            None => false,
        }
}

/// Moves grains off a silo that the ring gives to others.
#[derive(Clone, Debug, PartialEq, Eq)]
pub struct Rebalancer {
    local_silo_id: String,
}

impl View for Rebalancer {
    type V = Seq<char>;

    closed spec fn view(&self) -> Seq<char> {
        self.local_silo_id@
    }
}

impl Rebalancer {
    pub fn new(local_silo_id: String) -> (rebalancer: Rebalancer)
        ensures
            rebalancer@ == local_silo_id@,
    {
        Rebalancer { local_silo_id }
    }

    /// Whether to look at the grains after an event; once no more changes come, the
    /// rebalancer is done. A missed change is as good as one that was seen.
    pub fn on_event(&self, event: &ChangeEvent) -> (go_on: bool)
        ensures
            go_on == !(event is Closed),
    {
        match event {
            ChangeEvent::Changed(_) => true,
            ChangeEvent::Lagged(_) => true,
            ChangeEvent::Closed => false,
        }
    }

    /// The grains that the ring gives to other silos, in the order they come in. On an
    /// empty ring every grain stays.
    pub fn rebalance(&self, ring: &HashRing, grain_ids: &Vec<GrainId>) -> (to_remove: Vec<GrainId>)
        ensures
            maps::views(to_remove@) == maps::views(grain_ids@).filter(
                belongs_elsewhere(ring@, self@),
            ),
    {
        let ghost all = maps::views(grain_ids@);
        let ghost keep = belongs_elsewhere(ring@, self@);
        let mut to_remove: Vec<GrainId> = Vec::new();
        let mut i: usize = 0;
        proof {
            maps::lemma_filter_nothing(all, keep);
            assert(maps::views(to_remove@) =~= Seq::<GrainIdView>::empty());
        }
        while i < grain_ids.len()
            invariant
                i <= grain_ids.len(),
                all == maps::views(grain_ids@),
                keep == belongs_elsewhere(ring@, self@),
                maps::views(to_remove@) == all.take(i as int).filter(keep),
            decreases grain_ids.len() - i,
        {
            let id = &grain_ids[i];
            proof {
                assert(all[i as int] == id@);
                maps::lemma_take_filter(all, keep, i as int);
            }
            let elsewhere: bool = match ring.get(id.joined().as_str()) {
                Some(target) => !same_text(target.silo_id.as_str(), self.local_silo_id.as_str()),
                None => false,
            };
            if elsewhere {
                let ghost before = to_remove@;
                to_remove.push(id.duplicate());
                assert(maps::views(to_remove@) =~= maps::views(before).push(id@));
            }
            i += 1;
        }
        assert(all.take(i as int) =~= all);
        to_remove
    }

    /// The time that is left for grains to wind down, of five seconds from the start; none
    /// once it is used up, when a grain is stopped at once.
    pub fn grace_left(&self, started: Instant, now: Instant) -> (left: Option<Duration>)
        ensures
            match left {
                Some(d) => d@ + now.since(started) == 5 * time::NANOS_PER_SEC && d@ > 0,
                None => now.since(started) >= 5 * time::NANOS_PER_SEC,
            },
            grace_after(now.since(started)) == (match left {
                Some(d) => Some(d@),
                None => None,
            }),
    {
        let grace: u128 = 5 * time::NANOS_PER_SEC;
        let elapsed: u128 = now.duration_since(started).as_nanos();
        if elapsed >= grace {
            None
        } else {
            Some(Duration::from_nanos((grace - elapsed) as u64))
        }
    }
}

/// The nanoseconds that are left to wind down after some have gone by.
pub open spec fn grace_after(elapsed: nat) -> Option<nat> {
    if elapsed < 5_000_000_000 {
        Some((5_000_000_000 - elapsed) as nat)
    } else {
        None
    }
}

/// A grain is moved off exactly when it is here and the ring gives it to another silo.
pub proof fn rebalancing_is_exact(
    ring: HashRingView,
    silo_id: Seq<char>,
    grains: Seq<GrainIdView>,
    id: GrainIdView,
)
    ensures
        grains.filter(belongs_elsewhere(ring, silo_id)).contains(id) <==> (grains.contains(id) && (
        ring.owner(id.joined()) matches Some(owner) && owner.silo_id != silo_id)),
{
    let keep = belongs_elsewhere(ring, silo_id);
    maps::lemma_filter_distinct(grains, keep);
    if grains.contains(id) && keep(id) {
        let i = grains.index_of(id);
        grains.lemma_filter_contains(keep, i);
    }
}

/// Grains wind down within five seconds: what has gone by and what is left make them up, until
/// nothing is left.
pub proof fn grains_wind_down_in_time(started: Instant, now: Instant)
    requires
        started.nanos <= now.nanos,
    ensures
        ({
            let end = started.nanos + 5_000_000_000;
            match grace_after(now.since(started)) {
                Some(left) => left > 0 && now.nanos + left == end,
                None => now.nanos >= end,
            }
        }),
{
}

/// Grains are moved off in the order in which they come in.
pub proof fn grains_leave_in_order(
    ring: HashRingView,
    silo_id: Seq<char>,
    one: Seq<GrainIdView>,
    other: Seq<GrainIdView>,
)
    ensures
        (one + other).filter(belongs_elsewhere(ring, silo_id)) == one.filter(
            belongs_elsewhere(ring, silo_id),
        ) + other.filter(belongs_elsewhere(ring, silo_id)),
{
    Seq::filter_distributes_over_add(one, other, belongs_elsewhere(ring, silo_id));
}

} // verus!
