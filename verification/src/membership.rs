//! What a silo answers to the membership requests of others.

use vstd::prelude::*;

use crate::connection_pool::ConnectionPool;
use crate::error::{Code, Status, StatusView};
use crate::failure_detector::{MembershipChange, MembershipChangeView};
use crate::grain::{GrainId, GrainIdView};
use crate::hash_ring;
use crate::hash_ring::{HashRing, HashRingView, SiloAddress, SiloAddressView};
use crate::maps;
use crate::maps::Duplicate;
use crate::message_registry::MessageRegistry;
use crate::placement;
use crate::placement::find_member;
use crate::proto::{
    GossipEntry, LookupGrainResponse, PingReqResponse, PingResponse, ProtoSiloAddress,
    ProtoSiloAddressView,
};
use crate::swim;
use crate::swim::{
    from_proto_addr, gossip_to_proto, proto_to_gossip, to_proto_addr, GossipUpdate,
    GossipUpdateView, GossipWorld, SwimMemberView, SwimState, SwimStateView,
};
use crate::text;
use crate::time;
use crate::time::{Duration, Instant};

verus! {

/// Lets a limited number of requests pass per second.
#[derive(Clone, Copy, Debug, PartialEq, Eq, Structural)]
pub struct RateLimiter {
    pub window_start: Instant,
    pub passed: u32,
    pub max_per_second: u32,
}

impl RateLimiter {
    /// Whether a request passes at a time.
    pub open spec fn passes(self, now: Instant) -> bool {
        now.since(self.window_start) >= time::NANOS_PER_SEC || self.passed < self.max_per_second
    }

    /// The limiter after a request at a time.
    pub open spec fn after(self, now: Instant) -> RateLimiter {
        if now.since(self.window_start) >= time::NANOS_PER_SEC {
            RateLimiter { window_start: now, passed: 1, ..self }
        } else if self.passed < self.max_per_second {
            RateLimiter { passed: (self.passed + 1) as u32, ..self }
        } else {
            self
        }
    }

    pub fn new(max_per_second: u32, now: Instant) -> (limiter: RateLimiter)
        ensures
            limiter == (RateLimiter { window_start: now, passed: 0, max_per_second }),
    {
        RateLimiter { window_start: now, passed: 0, max_per_second }
    }

    /// Lets a request pass, or refuses it: a second that has seen as many as allowed sees
    /// no more.
    pub fn check(&mut self, now: Instant) -> (verdict: Result<(), Status>)
        ensures
            *final(self) == old(self).after(now),
            match verdict {
                Ok(()) => old(self).passes(now),
                Err(status) => !old(self).passes(now) && status@ == rate_refusal(),
            },
    {
        if now.duration_since(self.window_start).as_secs() >= 1 {
            self.window_start = now;
            self.passed = 1;
            Ok(())
        } else if self.passed < self.max_per_second {
            self.passed = self.passed + 1;
            Ok(())
        } else {
            Err(Status::new(Code::ResourceExhausted, "membership rate limit exceeded"))
        }
    }
}

/// What a request is told that comes too soon.
pub open spec fn rate_refusal() -> StatusView {
    StatusView { code: Code::ResourceExhausted, message: "membership rate limit exceeded"@ }
}

/// What a request is told that leaves something out.
pub open spec fn missing(what: Seq<char>) -> StatusView {
    StatusView { code: Code::InvalidArgument, message: what }
}

/// Within a second no more requests pass than allowed (and one, where none is): the number
/// counted stays within that bound.
pub proof fn limiter_stays_within_its_bound(limiter: RateLimiter, now: Instant)
    requires
        limiter.passed <= limiter.max_per_second || limiter.passed <= 1,
    ensures
        ({
            let after = limiter.after(now);
            &&& after.passed <= after.max_per_second || after.passed <= 1
            &&& after.max_per_second == limiter.max_per_second
            &&& !limiter.passes(now) ==> after == limiter
            &&& after.window_start == limiter.window_start ==> after.passed == limiter.passed + (
            if limiter.passes(now) {
                1int
            } else {
                0
            }) || now.since(limiter.window_start) >= time::NANOS_PER_SEC
        }),
{
}

/// Whether a silo is on the ring, by its identity.
pub open spec fn on_ring(ring: HashRingView, silo_id: Seq<char>) -> bool {
    placement::member_with_id(ring.members(), silo_id) is Some
}

/// Addresses as they are sent.
pub open spec fn sent_addrs(members: Seq<SiloAddressView>) -> Seq<ProtoSiloAddressView> {
    members.map_values(|m: SiloAddressView| swim::sent_addr(m))
}

/// The part of a silo that answers membership requests.
#[derive(Clone, Debug, PartialEq, Eq)]
pub struct MembershipService {
    local_addr: SiloAddress,
    gossip_fanout: usize,
    join_limiter: RateLimiter,
}

/// The contents of a [`MembershipService`].
pub struct MembershipServiceView {
    pub local_addr: SiloAddressView,
    pub gossip_fanout: usize,
    pub join_limiter: RateLimiter,
}

impl View for MembershipService {
    type V = MembershipServiceView;

    closed spec fn view(&self) -> MembershipServiceView {
        MembershipServiceView {
            local_addr: self.local_addr@,
            gossip_fanout: self.gossip_fanout,
            join_limiter: self.join_limiter,
        }
    }
}

/// What the arrival and departure of silos change.
pub struct Roster {
    pub swim: SwimStateView,
    pub ring: HashRingView,
    pub changes: Seq<MembershipChangeView>,
}

impl Roster {
    /// After a silo joined through this one.
    pub open spec fn joined_by(self, silo: SiloAddressView) -> Roster {
        Roster {
            swim: admitted(self.swim, silo),
            ring: self.ring.with(silo),
            changes: self.changes.push(MembershipChangeView::SiloJoined(silo)),
        }
    }

    /// After a silo told that it joined.
    pub open spec fn told_of_join(self, silo: SiloAddressView) -> Roster {
        if on_ring(self.ring, silo.silo_id) {
            self
        } else {
            Roster {
                swim: self.swim.with_member(silo.silo_id, SwimMemberView::joined(silo)),
                ring: self.ring.with(silo),
                changes: self.changes.push(MembershipChangeView::SiloJoined(silo)),
            }
        }
    }

    /// After it was told that a silo left.
    pub open spec fn told_of_leave(self, silo: SiloAddressView) -> Roster {
        if on_ring(self.ring, silo.silo_id) {
            Roster {
                swim: SwimStateView {
                    members: self.swim.members.remove(silo.silo_id),
                    ..self.swim
                },
                ring: self.ring.without(silo.silo_id),
                changes: self.changes.push(MembershipChangeView::SiloLeft(silo)),
            }
        } else {
            self
        }
    }
}

/// The roster of a silo.
pub open spec fn roster(state: &SwimState, ring: &HashRing, changes: &Vec<MembershipChange>) -> Roster {
    Roster { swim: state@, ring: ring@, changes: maps::views(changes@) }
}

/// The knowledge of members after a silo joined through this one.
pub open spec fn admitted(state: SwimStateView, silo: SiloAddressView) -> SwimStateView {
    if state.members.dom().contains(silo.silo_id) {
        state
    } else {
        state.with_member(silo.silo_id, SwimMemberView::joined(silo)).telling(
            GossipUpdateView::Join { addr: silo },
        )
    }
}

/// How many pieces of news go along with a message.
pub open spec fn told(pending: Seq<GossipUpdateView>, fanout: usize) -> int {
    if fanout <= pending.len() {
        fanout as int
    } else {
        pending.len() as int
    }
}

fn addrs_to_proto(members: &Vec<SiloAddress>) -> (sent: Vec<ProtoSiloAddress>)
    ensures
        maps::views(sent@) == sent_addrs(maps::views(members@)),
{
    let mut sent: Vec<ProtoSiloAddress> = Vec::new();
    let mut i: usize = 0;
    while i < members.len()
        invariant
            i <= members.len(),
            sent@.len() == i,
            forall|j: int| 0 <= j < i ==> (#[trigger] sent@[j])@ == swim::sent_addr(members@[j]@),
        decreases members.len() - i,
    {
        sent.push(to_proto_addr(&members[i]));
        i += 1;
    }
    assert(maps::views(sent@) =~= sent_addrs(maps::views(members@)));
    sent
}

impl MembershipService {
    /// A service that admits ten joining silos per second.
    pub fn new(local_addr: SiloAddress, gossip_fanout: usize, now: Instant) -> (service:
        MembershipService)
        ensures
            service@ == (MembershipServiceView {
                local_addr: local_addr@,
                gossip_fanout,
                join_limiter: RateLimiter { window_start: now, passed: 0, max_per_second: 10 },
            }),
    {
        MembershipService { local_addr, gossip_fanout, join_limiter: RateLimiter::new(10, now) }
    }

    /// A silo asks to join: it is put on the ring and told of, and learns who is on it.
    pub fn join(
        &mut self,
        check: Result<(), Status>,
        joiner: Option<ProtoSiloAddress>,
        state: &mut SwimState,
        ring: &mut HashRing,
        changes: &mut Vec<MembershipChange>,
        now: Instant,
    ) -> (answer: Result<Vec<ProtoSiloAddress>, Status>)
        ensures
            final(self)@.local_addr == old(self)@.local_addr,
            final(self)@.gossip_fanout == old(self)@.gossip_fanout,
            final(self)@.join_limiter == (if check is Ok {
                old(self)@.join_limiter.after(now)
            } else {
                old(self)@.join_limiter
            }),
            match (check, joiner) {
                (Err(status), _) => answer == Err::<Vec<ProtoSiloAddress>, Status>(status),
                (Ok(()), Some(p)) if old(self)@.join_limiter.passes(now) => {
                    let silo = swim::received_addr(p@);
                    &&& final(ring)@ == old(ring)@.with(silo)
                    &&& final(state)@ == admitted(old(state)@, silo)
                    &&& maps::views(final(changes)@) == maps::views(old(changes)@).push(
                        MembershipChangeView::SiloJoined(silo),
                    )
                    &&& answer matches Ok(members) && maps::views(members@) == sent_addrs(
                        final(ring)@.members(),
                    )
                },
                (Ok(()), joiner) => answer matches Err(status) && status@ == (if !old(
                    self,
                )@.join_limiter.passes(now) {
                    rate_refusal()
                } else {
                    missing("missing joiner"@)
                }),
            },
            answer is Err ==> {
                &&& final(state)@ == old(state)@
                &&& final(ring)@ == old(ring)@
                &&& final(changes)@ == old(changes)@
            },
            answer is Ok ==> roster(final(state), final(ring), final(changes)) == roster(
                old(state),
                old(ring),
                old(changes),
            ).joined_by(swim::received_addr(joiner->0@)),
    {
        if let Err(status) = check {
            return Err(status);
        }
        if let Err(status) = self.join_limiter.check(now) {
            return Err(status);
        }
        let silo = match joiner {
            Some(p) => from_proto_addr(p),
            None => {
                return Err(Status::new(Code::InvalidArgument, "missing joiner"));
            },
        };
        ring.add(silo.duplicate());
        if !state.knows(silo.silo_id.as_str()) {
            state.welcome(silo.duplicate());
            state.enqueue_gossip(GossipUpdate::Join { addr: silo.duplicate() });
        }
        let members = addrs_to_proto(&ring.members());
        let ghost before = changes@;
        let ghost s = silo@;
        changes.push(MembershipChange::SiloJoined(silo));
        assert(maps::views(changes@) =~= maps::views(before).push(
            MembershipChangeView::SiloJoined(s),
        ));
        Ok(members)
    }

    /// A silo tells that it joined: one that is not on the ring yet is put there.
    pub fn notify_join(
        &mut self,
        check: Result<(), Status>,
        silo: Option<ProtoSiloAddress>,
        state: &mut SwimState,
        ring: &mut HashRing,
        changes: &mut Vec<MembershipChange>,
        now: Instant,
    ) -> (answer: Result<(), Status>)
        ensures
            final(self)@.local_addr == old(self)@.local_addr,
            final(self)@.gossip_fanout == old(self)@.gossip_fanout,
            final(self)@.join_limiter == (if check is Ok {
                old(self)@.join_limiter.after(now)
            } else {
                old(self)@.join_limiter
            }),
            match (check, silo) {
                (Err(status), _) => answer == Err::<(), Status>(status),
                (Ok(()), Some(p)) if old(self)@.join_limiter.passes(now) => answer is Ok,
                (Ok(()), silo) => answer matches Err(status) && status@ == (if !old(
                    self,
                )@.join_limiter.passes(now) {
                    rate_refusal()
                } else {
                    missing("missing silo"@)
                }),
            },
            if answer is Ok && !on_ring(old(ring)@, swim::received_addr(silo->0@).silo_id) {
                let addr = swim::received_addr(silo->0@);
                &&& final(ring)@ == old(ring)@.with(addr)
                &&& final(state)@ == old(state)@.with_member(
                    addr.silo_id,
                    SwimMemberView::joined(addr),
                )
                &&& maps::views(final(changes)@) == maps::views(old(changes)@).push(
                    MembershipChangeView::SiloJoined(addr),
                )
            } else {
                &&& final(state)@ == old(state)@
                &&& final(ring)@ == old(ring)@
                &&& final(changes)@ == old(changes)@
            },
            answer is Ok ==> roster(final(state), final(ring), final(changes)) == roster(
                old(state),
                old(ring),
                old(changes),
            ).told_of_join(swim::received_addr(silo->0@)),
    {
        if let Err(status) = check {
            return Err(status);
        }
        if let Err(status) = self.join_limiter.check(now) {
            return Err(status);
        }
        let silo = match silo {
            Some(p) => from_proto_addr(p),
            None => {
                return Err(Status::new(Code::InvalidArgument, "missing silo"));
            },
        };
        if find_member(&ring.members(), silo.silo_id.as_str()).is_some() {
            return Ok(());
        }
        ring.add(silo.duplicate());
        state.welcome(silo.duplicate());
        let ghost before = changes@;
        let ghost s = silo@;
        changes.push(MembershipChange::SiloJoined(silo));
        assert(maps::views(changes@) =~= maps::views(before).push(
            MembershipChangeView::SiloJoined(s),
        ));
        Ok(())
    }

    /// A silo tells that one left: where it is on the ring it is taken off and forgotten.
    pub fn notify_leave(
        &self,
        check: Result<(), Status>,
        silo: Option<ProtoSiloAddress>,
        state: &mut SwimState,
        ring: &mut HashRing,
        changes: &mut Vec<MembershipChange>,
    ) -> (answer: Result<(), Status>)
        ensures
            match (check, silo) {
                (Err(status), _) => answer == Err::<(), Status>(status),
                (Ok(()), Some(p)) => answer is Ok,
                (Ok(()), None) => answer matches Err(status) && status@ == missing(
                    "missing silo"@,
                ),
            },
            if answer is Ok && on_ring(old(ring)@, swim::received_addr(silo->0@).silo_id) {
                let addr = swim::received_addr(silo->0@);
                &&& final(ring)@ == old(ring)@.without(addr.silo_id)
                &&& final(state)@ == (SwimStateView {
                    members: old(state)@.members.remove(addr.silo_id),
                    ..old(state)@
                })
                &&& maps::views(final(changes)@) == maps::views(old(changes)@).push(
                    MembershipChangeView::SiloLeft(addr),
                )
            } else {
                &&& final(state)@ == old(state)@
                &&& final(ring)@ == old(ring)@
                &&& final(changes)@ == old(changes)@
            },
            answer is Ok ==> roster(final(state), final(ring), final(changes)) == roster(
                old(state),
                old(ring),
                old(changes),
            ).told_of_leave(swim::received_addr(silo->0@)),
    {
        if let Err(status) = check {
            return Err(status);
        }
        let silo = match silo {
            Some(p) => from_proto_addr(p),
            None => {
                return Err(Status::new(Code::InvalidArgument, "missing silo"));
            },
        };
        if find_member(&ring.members(), silo.silo_id.as_str()).is_none() {
            return Ok(());
        }
        ring.remove(&silo);
        state.forget(silo.silo_id.as_str());
        let ghost before = changes@;
        let ghost s = silo@;
        changes.push(MembershipChange::SiloLeft(silo));
        assert(maps::views(changes@) =~= maps::views(before).push(
            MembershipChangeView::SiloLeft(s),
        ));
        Ok(())
    }

    /// Takes in the news that came with a message.
    fn take_in(
        &self,
        gossip: &Vec<GossipEntry>,
        state: &mut SwimState,
        ring: &mut HashRing,
        pool: &mut ConnectionPool,
        changes: &mut Vec<MembershipChange>,
        now: Instant,
    )
        requires
            refutable(gossip@, old(state)@),
        ensures
            world(final(state), final(ring), final(pool), final(changes)) == world(
                old(state),
                old(ring),
                old(pool),
                old(changes),
            ).after_all(swim::received_updates(maps::views(gossip@)), now),
    {
        let incoming = proto_to_gossip(gossip);
        assert(maps::views(incoming@).len() == incoming@.len());
        state.apply_gossip(&incoming, ring, pool, changes, now);
    }

    /// Another silo probes this one: its news is taken in, and answered with some.
    pub fn ping(
        &self,
        check: Result<(), Status>,
        gossip: &Vec<GossipEntry>,
        state: &mut SwimState,
        ring: &mut HashRing,
        pool: &mut ConnectionPool,
        changes: &mut Vec<MembershipChange>,
        now: Instant,
    ) -> (answer: Result<PingResponse, Status>)
        requires
            check is Ok ==> refutable(gossip@, old(state)@),
        ensures
            match check {
                Err(status) => {
                    &&& answer == Err::<PingResponse, Status>(status)
                    &&& world(final(state), final(ring), final(pool), final(changes)) == world(
                        old(state),
                        old(ring),
                        old(pool),
                        old(changes),
                    )
                },
                Ok(()) => {
                    let before = world(old(state), old(ring), old(pool), old(changes));
                    let after = before.after_all(
                        swim::received_updates(maps::views(gossip@)),
                        now,
                    );
                    let n = told(after.swim.pending, self@.gossip_fanout);
                    &&& answer matches Ok(response) && response.silo_id@ == self@.local_addr.silo_id
                        && maps::views(response.gossip@) == swim::sent_updates(
                        after.swim.pending.take(n),
                    )
                    &&& world(final(state), final(ring), final(pool), final(changes)) == (
                    GossipWorld {
                        swim: SwimStateView { pending: after.swim.pending.skip(n), ..after.swim },
                        ..after
                    })
                },
            },
    {
        if let Err(status) = check {
            return Err(status);
        }
        self.take_in(gossip, state, ring, pool, changes, now);
        let outgoing = state.drain_gossip(self.gossip_fanout);
        Ok(
            PingResponse {
                silo_id: self.local_addr.silo_id.clone(),
                gossip: gossip_to_proto(&outgoing),
            },
        )
    }

    /// Another silo asks this one to probe a target: its news is taken in, and the target
    /// made out. (News is taken in even where no target is named.)
    pub fn ping_req(
        &self,
        check: Result<(), Status>,
        gossip: &Vec<GossipEntry>,
        target: Option<ProtoSiloAddress>,
        state: &mut SwimState,
        ring: &mut HashRing,
        pool: &mut ConnectionPool,
        changes: &mut Vec<MembershipChange>,
        now: Instant,
    ) -> (answer: Result<SiloAddress, Status>)
        requires
            check is Ok ==> refutable(gossip@, old(state)@),
        ensures
            match (check, target) {
                (Err(status), _) => answer == Err::<SiloAddress, Status>(status),
                (Ok(()), Some(p)) => answer matches Ok(addr) && addr@ == swim::received_addr(p@),
                (Ok(()), None) => answer matches Err(status) && status@ == missing(
                    "missing target"@,
                ),
            },
            world(final(state), final(ring), final(pool), final(changes)) == (if check is Ok {
                world(old(state), old(ring), old(pool), old(changes)).after_all(
                    swim::received_updates(maps::views(gossip@)),
                    now,
                )
            } else {
                world(old(state), old(ring), old(pool), old(changes))
            }),
    {
        if let Err(status) = check {
            return Err(status);
        }
        self.take_in(gossip, state, ring, pool, changes, now);
        match target {
            Some(p) => Ok(from_proto_addr(p)),
            None => Err(Status::new(Code::InvalidArgument, "missing target")),
        }
    }

    /// The answer once the target was probed: whether it is alive, and some news.
    pub fn ping_req_answer(&self, target_alive: bool, state: &mut SwimState) -> (response:
        PingReqResponse)
        ensures
            ({
                let pending = old(state)@.pending;
                let n = told(pending, self@.gossip_fanout);
                &&& response.target_alive == target_alive
                &&& maps::views(response.gossip@) == swim::sent_updates(pending.take(n))
                &&& final(state)@ == (SwimStateView { pending: pending.skip(n), ..old(state)@ })
            }),
            maps::views(response.gossip@) == swim::sent_updates(
                old(state)@.drained(self@.gossip_fanout).0,
            ),
            final(state)@ == old(state)@.drained(self@.gossip_fanout).1,
    {
        let outgoing = state.drain_gossip(self.gossip_fanout);
        PingReqResponse { target_alive, gossip: gossip_to_proto(&outgoing) }
    }

    /// How long a target has to answer when it is probed for another silo.
    pub fn ping_target_timeout(&self) -> (timeout: Duration)
        ensures
            timeout@ == time::NANOS_PER_SEC,
    {
        Duration::from_secs(1)
    }

    /// Tells who is on the ring.
    pub fn get_members(&self, check: Result<(), Status>, ring: &HashRing) -> (answer: Result<
        Vec<ProtoSiloAddress>,
        Status,
    >)
        ensures
            match check {
                Err(status) => answer == Err::<Vec<ProtoSiloAddress>, Status>(status),
                Ok(()) => answer matches Ok(members) && maps::views(members@) == sent_addrs(
                    ring@.members(),
                ),
            },
    {
        if let Err(status) = check {
            return Err(status);
        }
        Ok(addrs_to_proto(&ring.members()))
    }

    /// The grain to look for here, when another silo asks whether it is active; none where
    /// its type is not served here.
    pub fn lookup_grain(
        &self,
        check: Result<(), Status>,
        registry: &MessageRegistry,
        grain_type: &str,
        grain_key: &str,
    ) -> (grain: Result<Option<GrainId>, Status>)
        ensures
            match (check, grain) {
                (Err(status), grain) => grain == Err::<Option<GrainId>, Status>(status),
                (Ok(()), Ok(Some(id))) => registry@.has_grain_type(grain_type@) && id@ == (
                GrainIdView { grain_type: grain_type@, key: grain_key@ }),
                (Ok(()), Ok(None)) => !registry@.has_grain_type(grain_type@),
                (Ok(()), Err(_)) => false,
            },
    {
        if let Err(status) = check {
            return Err(status);
        }
        match registry.grain_type_str(grain_type) {
            Some(name) => Ok(Some(GrainId { grain_type: name, key: grain_key.to_string() })),
            None => Ok(None),
        }
    }

    /// The answer to whether a grain is active here.
    pub fn lookup_answer(&self, active: bool) -> (response: LookupGrainResponse)
        ensures
            response.active == active,
            response.silo_id@ == (if active {
                self@.local_addr.silo_id
            } else {
                Seq::empty()
            }),
            response.endpoint@ == (if active {
                self@.local_addr.endpoint()
            } else {
                Seq::empty()
            }),
            (response.active, response.silo_id@, response.endpoint@) == found_here(
                self@.local_addr,
                active,
            ),
    {
        if active {
            LookupGrainResponse {
                active,
                silo_id: self.local_addr.silo_id.clone(),
                endpoint: self.local_addr.endpoint(),
            }
        } else {
            LookupGrainResponse { active, silo_id: String::new(), endpoint: String::new() }
        }
    }
}

/// Whether this silo can refute every suspicion that a message holds against it.
pub open spec fn refutable(gossip: Seq<GossipEntry>, state: SwimStateView) -> bool {
    forall|i: int|
        0 <= i < swim::received_updates(maps::views(gossip)).len() ==> !swim::irrefutable(
            #[trigger] swim::received_updates(maps::views(gossip))[i],
            state.local_addr.silo_id,
        )
}

/// Everything that news changes.
pub open spec fn world(
    state: &SwimState,
    ring: &HashRing,
    pool: &ConnectionPool,
    changes: &Vec<MembershipChange>,
) -> GossipWorld {
    GossipWorld { swim: state@, ring: ring@, pool: pool@, changes: maps::views(changes@) }
}

/// A silo that joins is among those it is told of, where silos take positions at all.
pub proof fn joiner_is_listed(ring: HashRingView, silo: SiloAddressView)
    requires
        ring.virtual_nodes > 0,
    ensures
        ring.with(silo).members().contains(silo),
        sent_addrs(ring.with(silo).members()).contains(swim::sent_addr(silo)),
{
    let after = ring.with(silo);
    let p = hash_ring::node_position(silo.silo_id, 0);
    assert(ring.positions(silo.silo_id).contains(p));
    assert(after.slots.dom().contains(p) && after.slots[p] == silo);
    hash_ring::members_are_those_on_the_ring(after, silo);
    let i = after.members().index_of(silo);
    assert(after.members()[i] == silo);
    assert(sent_addrs(after.members())[i] == swim::sent_addr(silo));
}

/// Once a silo's departure is known it is on the ring no more.
pub proof fn departed_silo_is_not_listed(ring: HashRingView, silo_id: Seq<char>)
    requires
        ring.placed(),
    ensures
        !on_ring(ring.without(silo_id), silo_id),
{
    hash_ring::removed_silo_owns_nothing(ring, silo_id);
    placement::local_placement_finds_the_local_silo(ring.without(silo_id).members(), silo_id);
}

/// A silo that joins through this one is put on the ring and announced. Where it was not a
/// member it becomes one, alive and at incarnation zero, at the address that it gave, and that
/// is told on; what is known of others stays.
pub proof fn joiners_become_members(
    before: Roster,
    silo: SiloAddressView,
    other: Seq<char>,
    p: u64,
)
    requires
        other != silo.silo_id,
    ensures
        ({
            let after = before.joined_by(silo);
            let id = silo.silo_id;
            &&& after.swim.members.dom().contains(id)
            &&& if before.swim.members.dom().contains(id) {
                after.swim == before.swim
            } else {
                &&& after.swim.members[id].addr == silo
                &&& after.swim.members[id].status is Alive
                &&& after.swim.members[id].incarnation == 0
                &&& after.swim.pending == before.swim.pending.push(
                    GossipUpdateView::Join { addr: silo },
                )
            }
            &&& after.swim.members.dom().contains(other)
                == before.swim.members.dom().contains(other)
            &&& after.swim.members[other] == before.swim.members[other]
            &&& before.ring.positions(id).contains(p) ==> after.ring.slots.dom().contains(p)
                && after.ring.slots[p] == silo
            &&& after.changes == before.changes.push(MembershipChangeView::SiloJoined(silo))
        }),
{
}

/// A silo that tells of its joining becomes a member and is put on the ring, at the address that
/// it gave, where no silo of its identity is on the ring; else nothing changes.
pub proof fn announced_joins_are_taken_in_once(
    before: Roster,
    silo: SiloAddressView,
    other: Seq<char>,
    p: u64,
)
    requires
        other != silo.silo_id,
    ensures
        ({
            let after = before.told_of_join(silo);
            let id = silo.silo_id;
            if before.ring.silo_ids().contains(id) {
                after == before
            } else {
                &&& after.swim.members.dom().contains(id)
                &&& after.swim.members[id].addr == silo
                &&& after.swim.members[id].status is Alive
                &&& after.swim.members[id].incarnation == 0
                &&& after.swim.members.dom().contains(other)
                    == before.swim.members.dom().contains(other)
                &&& after.swim.members[other] == before.swim.members[other]
                &&& after.swim.pending == before.swim.pending
                &&& before.ring.positions(id).contains(p) ==> after.ring.slots.dom().contains(p)
                    && after.ring.slots[p] == silo
                &&& after.changes == before.changes.push(MembershipChangeView::SiloJoined(silo))
            }
        }),
{
    lemma_on_ring(before.ring, silo.silo_id);
}

/// A silo that is told to have left is no member and not on the ring any more, and is announced
/// to have left, where a silo of its identity was on the ring; else nothing changes. What is
/// known of others stays.
pub proof fn announced_departures_end_a_membership(
    before: Roster,
    silo: SiloAddressView,
    other: Seq<char>,
)
    requires
        before.ring.placed(),
        other != silo.silo_id,
    ensures
        ({
            let after = before.told_of_leave(silo);
            let id = silo.silo_id;
            &&& !after.ring.silo_ids().contains(id)
            &&& if before.ring.silo_ids().contains(id) {
                &&& !after.swim.members.dom().contains(id)
                &&& after.changes == before.changes.push(MembershipChangeView::SiloLeft(silo))
            } else {
                after == before
            }
            &&& after.swim.members.dom().contains(other)
                == before.swim.members.dom().contains(other)
            &&& after.swim.members[other] == before.swim.members[other]
        }),
{
    let after = before.told_of_leave(silo);
    lemma_on_ring(before.ring, silo.silo_id);
    lemma_on_ring(after.ring, silo.silo_id);
    departed_silo_is_not_listed(before.ring, silo.silo_id);
}

proof fn lemma_on_ring(ring: HashRingView, id: Seq<char>)
    ensures
        on_ring(ring, id) == ring.silo_ids().contains(id),
{
    let members = ring.members();
    placement::local_placement_finds_the_local_silo(members, id);
    if on_ring(ring, id) {
        let i = choose|i: int| 0 <= i < members.len() && (#[trigger] members[i]).silo_id == id;
        assert(members.contains(members[i]));
    }
    if ring.silo_ids().contains(id) {
        let s = choose|s: SiloAddressView| #[trigger] members.contains(s) && s.silo_id == id;
        assert(members[members.index_of(s)].silo_id == id);
    }
}

/// News goes along with an answer from the oldest on, as much as may go or as there is; what is
/// told and what is kept are what there was, in its order.
pub proof fn the_oldest_news_is_told_first(pending: Seq<GossipUpdateView>, fanout: usize)
    ensures
        ({
            let n = told(pending, fanout);
            &&& 0 <= n <= pending.len()
            &&& n <= fanout
            &&& n < fanout ==> n == pending.len()
            &&& pending.take(n) + pending.skip(n) == pending
        }),
{
    let n = told(pending, fanout);
    assert(pending.take(n) + pending.skip(n) =~= pending);
}

/// The limiter lets a request pass where fewer than allowed have passed in the running second,
/// and where a second has gone by since it began to run, which then begins anew.
pub proof fn limits_hold_for_a_second(limiter: RateLimiter, now: Instant)
    requires
        limiter.passed < u32::MAX,
    ensures
        ({
            let over = now.nanos >= limiter.window_start.nanos + 1_000_000_000;
            let after = limiter.after(now);
            &&& limiter.passes(now) <==> over || limiter.passed < limiter.max_per_second
            &&& over ==> after.window_start == now && after.passed == 1
            &&& !over ==> after.window_start == limiter.window_start
            &&& !over && limiter.passes(now) ==> after.passed == limiter.passed + 1
            &&& !limiter.passes(now) ==> after == limiter
            &&& after.max_per_second == limiter.max_per_second
        }),
{
}

/// Refusals say what is wrong: too many requests, or an argument that is missing.
pub proof fn membership_refusals_say_why(what: Seq<char>)
    ensures
        rate_refusal().code is ResourceExhausted,
        rate_refusal().message == "membership rate limit exceeded"@,
        missing(what).code is InvalidArgument,
        missing(what).message == what,
{
}

/// Members are told in their order, each with its host, port and identity.
pub proof fn members_are_told_in_order(members: Seq<SiloAddressView>, i: int)
    requires
        0 <= i < members.len(),
    ensures
        sent_addrs(members).len() == members.len(),
        sent_addrs(members)[i].host == members[i].host,
        sent_addrs(members)[i].port == members[i].port,
        sent_addrs(members)[i].silo_id == members[i].silo_id,
{
}

/// The answer to whether a grain is active here: whether it is, and this silo's identity and
/// endpoint, where it is.
pub open spec fn found_here(local: SiloAddressView, active: bool) -> (bool, Seq<char>, Seq<char>) {
    if active {
        (true, local.silo_id, local.endpoint())
    } else {
        (false, Seq::empty(), Seq::empty())
    }
}

/// A grain that is active here is answered to be at this silo's host and port, under this silo's
/// identity; of one that is not, nothing is told.
pub proof fn active_grains_are_found_where_they_are(local: SiloAddressView)
    ensures
        found_here(local, true).0,
        found_here(local, true).1 == local.silo_id,
        found_here(local, true).2 == local.host + seq![':'] + text::decimal(local.port as nat),
        !found_here(local, false).0,
        found_here(local, false).1.len() == 0,
        found_here(local, false).2.len() == 0,
{
    assert(found_here(local, true).2 =~= local.host + seq![':'] + text::decimal(
        local.port as nat,
    ));
}

} // verus!
