//! Finding out which members have failed: probes, indirect probes, suspicion.

use vstd::prelude::*;

use crate::connection_pool::ConnectionPool;
use crate::hash_ring;
use crate::hash_ring::{HashRing, SiloAddress, SiloAddressView};
use crate::maps;
use crate::maps::Duplicate;
use crate::swim;
use crate::swim::{GossipUpdate, GossipWorld, MemberStatusView, SwimState, SwimStateView};
use crate::text::same_text;
use crate::time;
use crate::time::{Duration, Instant};

verus! {

/// A change of membership, for those who have to react to it.
#[derive(Clone, Debug, PartialEq, Eq)]
pub enum MembershipChange {
    SiloJoined(SiloAddress),
    SiloLeft(SiloAddress),
}

/// The contents of a [`MembershipChange`].
pub enum MembershipChangeView {
    SiloJoined(SiloAddressView),
    SiloLeft(SiloAddressView),
}

impl View for MembershipChange {
    type V = MembershipChangeView;

    open spec fn view(&self) -> MembershipChangeView {
        match self {
            MembershipChange::SiloJoined(s) => MembershipChangeView::SiloJoined(s@),
            MembershipChange::SiloLeft(s) => MembershipChangeView::SiloLeft(s@),
        }
    }
}

/// How members are probed.
#[derive(Clone, Copy, Debug, PartialEq, Eq)]
pub struct FailureDetectorConfig {
    /// How often a member is probed.
    pub protocol_period: Duration,
    /// How long a probed member has to answer.
    pub ping_timeout: Duration,
    /// How many others are asked to probe a member that did not answer.
    pub ping_req_count: usize,
    /// How long a member is suspected before it is declared dead.
    pub suspect_timeout: Duration,
    /// How many pieces of news go along with a message.
    pub gossip_fanout: usize,
}

impl Default for FailureDetectorConfig {
    fn default() -> (config: Self)
        ensures
            config.protocol_period@ == 2 * time::NANOS_PER_SEC,
            config.ping_timeout@ == time::NANOS_PER_SEC,
            config.ping_req_count == 3,
            config.suspect_timeout@ == 5 * time::NANOS_PER_SEC,
            config.gossip_fanout == 6,
    {
        FailureDetectorConfig {
            protocol_period: Duration::from_secs(2),
            ping_timeout: Duration::from_secs(1),
            ping_req_count: 3,
            suspect_timeout: Duration::from_secs(5),
            gossip_fanout: 6,
        }
    }
}

impl FailureDetectorConfig {
    /// The configuration that corresponds to counting missed pings: a member is suspected
    /// for as long as that many pings take.
    pub fn from_legacy(
        ping_interval: Duration,
        ping_timeout: Duration,
        max_missed_pings: u32,
    ) -> (config: FailureDetectorConfig)
        requires
            ping_interval@ * max_missed_pings <= time::MAX_NANOS,
        ensures
            config.protocol_period == ping_interval,
            config.ping_timeout == ping_timeout,
            config.suspect_timeout@ == ping_interval@ * max_missed_pings,
            config.ping_req_count == 3,
            config.gossip_fanout == 6,
    {
        FailureDetectorConfig {
            protocol_period: ping_interval,
            ping_timeout,
            ping_req_count: 3,
            suspect_timeout: ping_interval.times(max_missed_pings),
            gossip_fanout: 6,
        }
    }

    /// How long a member asked to probe another has to answer: twice a direct probe.
    pub fn indirect_timeout(&self) -> (timeout: Duration)
        requires
            self.ping_timeout@ * 2 <= time::MAX_NANOS,
        ensures
            timeout@ == self.ping_timeout@ * 2,
    {
        self.ping_timeout.times(2)
    }
}

/// Draws a number below `n` with `fastrand::usize`, which panics on an empty range. Which
/// number comes is left to chance.
#[verifier::external_body]
pub(crate) fn random_below(n: usize) -> (i: usize)
    requires
        n > 0,
    ensures
        i < n,
{
    fastrand::usize(..n)
}

/// Puts numbers into random order with `fastrand::shuffle`. The same numbers stay, each as
/// often as before; which order comes is left to chance.
#[verifier::external_body]
fn shuffle(numbers: &mut Vec<usize>)
    ensures
        final(numbers)@.to_multiset() == old(numbers)@.to_multiset(),
{
    fastrand::shuffle(numbers)
}

/// Probes the members of a cluster.
#[derive(Clone, Debug, PartialEq, Eq)]
pub struct FailureDetector {
    config: FailureDetectorConfig,
    swim_state: SwimState,
}

/// The contents of a [`FailureDetector`].
pub struct FailureDetectorView {
    pub config: FailureDetectorConfig,
    pub swim: SwimStateView,
}

impl View for FailureDetector {
    type V = FailureDetectorView;

    closed spec fn view(&self) -> FailureDetectorView {
        FailureDetectorView { config: self.config, swim: self.swim_state@ }
    }
}

/// Whether a member is another than the named one.
pub open spec fn other_than(silo_id: Seq<char>) -> spec_fn(SiloAddressView) -> bool {
    |s: SiloAddressView| s.silo_id != silo_id
}

/// The addresses of the members, in ascending order of their identities.
pub open spec fn member_addrs(swim: SwimStateView) -> Seq<SiloAddressView> {
    maps::in_text_order(swim.members.dom()).map_values(|id: Seq<char>| swim.members[id].addr)
}

/// Who may be asked to probe a target: the other members.
pub open spec fn helpers(swim: SwimStateView, target: Seq<char>) -> Seq<SiloAddressView> {
    member_addrs(swim).filter(other_than(target))
}

/// A choice of the first few in a given order.
pub open spec fn chosen(
    candidates: Seq<SiloAddressView>,
    order: Seq<usize>,
    count: usize,
) -> Seq<SiloAddressView> {
    let picks = if count <= order.len() {
        order.take(count as int)
    } else {
        order
    };
    picks.map_values(|i: usize| candidates[i as int])
}

/// Whether a list holds each number below `n` once.
pub open spec fn is_order_of(order: Seq<usize>, n: nat) -> bool {
    &&& order.len() == n
    &&& order.no_duplicates()
    &&& forall|i: int| 0 <= i < order.len() ==> (#[trigger] order[i]) < n
}

fn random_order(n: usize) -> (order: Vec<usize>)
    ensures
        is_order_of(order@, n as nat),
{
    let mut order: Vec<usize> = Vec::new();
    let mut i: usize = 0;
    while i < n
        invariant
            i <= n,
            order@.len() == i,
            forall|j: int| 0 <= j < i ==> #[trigger] order@[j] == j,
        decreases n - i,
    {
        order.push(i);
        i += 1;
    }
    let ghost before = order@;
    shuffle(&mut order);
    proof {
        broadcast use vstd::seq_lib::group_to_multiset_ensures;

        let after = order@;
        assert(before.no_duplicates());
        before.lemma_multiset_has_no_duplicates();
        assert(after.to_multiset().len() == before.to_multiset().len());
        assert(after.len() == before.len());
        after.lemma_multiset_has_no_duplicates_conv();
        assert forall|j: int| 0 <= j < after.len() implies (#[trigger] after[j]) < n by {
            assert(after.contains(after[j]));
            assert(after.to_multiset().count(after[j]) > 0);
            assert(before.to_multiset().count(after[j]) > 0);
            assert(before.contains(after[j]));
        }
    }
    order
}

impl FailureDetector {
    /// A detector on a silo that knows of no other.
    pub fn new(config: FailureDetectorConfig, local_addr: SiloAddress) -> (detector: FailureDetector)
        ensures
            detector@.config == config,
            detector@.swim == (SwimStateView {
                members: Map::empty(),
                local_incarnation: 0,
                local_addr: local_addr@,
                pending: Seq::empty(),
            }),
    {
        FailureDetector { config, swim_state: SwimState::new(local_addr) }
    }

    /// A detector that goes on from what is known.
    pub fn with_state(config: FailureDetectorConfig, swim_state: SwimState) -> (detector:
        FailureDetector)
        ensures
            detector@.config == config,
            detector@.swim == swim_state@,
    {
        FailureDetector { config, swim_state }
    }

    /// What is known of the members.
    pub fn swim_state(&self) -> (state: &SwimState)
        ensures
            state@ == self@.swim,
    {
        &self.swim_state
    }

    /// The member at a position, in ascending order of identities.
    pub fn target_at(&self, i: usize) -> (target: SiloAddress)
        requires
            i < member_addrs(self@.swim).len(),
        ensures
            target@ == member_addrs(self@.swim)[i as int],
    {
        let n: usize = self.swim_state.member_count();
        self.swim_state.member_addr_at(i)
    }

    /// A member to probe, picked at random; none where there is no member.
    pub fn pick_target(&self) -> (target: Option<SiloAddress>)
        ensures
            target is None <==> member_addrs(self@.swim).len() == 0,
            target matches Some(addr) ==> member_addrs(self@.swim).contains(addr@),
    {
        let n: usize = self.swim_state.member_count();
        if n == 0 {
            return None;
        }
        let i: usize = random_below(n);
        let target = self.target_at(i);
        assert(member_addrs(self@.swim)[i as int] == target@);
        Some(target)
    }

    /// The news that goes along with a probe.
    pub fn probe_gossip(&mut self) -> (gossip: Vec<GossipUpdate>)
        ensures
            ({
                let pending = old(self)@.swim.pending;
                let count = if old(self)@.config.gossip_fanout <= pending.len() {
                    old(self)@.config.gossip_fanout as int
                } else {
                    pending.len() as int
                };
                &&& maps::views(gossip@) == pending.take(count)
                &&& final(self)@.config == old(self)@.config
                &&& final(self)@.swim == (SwimStateView {
                    pending: pending.skip(count),
                    ..old(self)@.swim
                })
            }),
            (maps::views(gossip@), final(self)@.swim) == old(self)@.swim.drained(
                old(self)@.config.gossip_fanout,
            ),
    {
        self.swim_state.drain_gossip(self.config.gossip_fanout)
    }

    /// Who may be asked to probe a target, in ascending order of identities.
    pub fn helper_candidates(&self, target: &SiloAddress) -> (candidates: Vec<SiloAddress>)
        ensures
            maps::views(candidates@) == helpers(self@.swim, target@.silo_id),
    {
        let n: usize = self.swim_state.member_count();
        let ghost all = member_addrs(self@.swim);
        let ghost keep = other_than(target@.silo_id);
        let mut candidates: Vec<SiloAddress> = Vec::new();
        let mut i: usize = 0;
        proof {
            maps::lemma_filter_nothing(all, keep);
            assert(maps::views(candidates@) =~= Seq::<SiloAddressView>::empty());
        }
        while i < n
            invariant
                i <= n,
                n == all.len(),
                all == member_addrs(self@.swim),
                keep == other_than(target@.silo_id),
                maps::views(candidates@) == all.take(i as int).filter(keep),
            decreases n - i,
        {
            let addr = self.swim_state.member_addr_at(i);
            proof {
                maps::lemma_take_filter(all, keep, i as int);
            }
            if !same_text(addr.silo_id.as_str(), target.silo_id.as_str()) {
                let ghost before = candidates@;
                let ghost a = addr@;
                candidates.push(addr);
                assert(maps::views(candidates@) =~= maps::views(before).push(a));
            }
            i += 1;
        }
        assert(all.take(n as int) =~= all);
        candidates
    }

    /// Whom to ask to probe a target: the first few candidates in the given order.
    pub fn choose_helpers(&self, candidates: &Vec<SiloAddress>, order: &Vec<usize>) -> (peers: Vec<
        SiloAddress,
    >)
        requires
            is_order_of(order@, candidates@.len()),
        ensures
            maps::views(peers@) == chosen(
                maps::views(candidates@),
                order@,
                self@.config.ping_req_count,
            ),
    {
        let count: usize = if self.config.ping_req_count <= order.len() {
            self.config.ping_req_count
        } else {
            order.len()
        };
        let mut peers: Vec<SiloAddress> = Vec::new();
        let mut i: usize = 0;
        while i < count
            invariant
                i <= count,
                count <= order@.len(),
                is_order_of(order@, candidates@.len()),
                peers@.len() == i,
                forall|j: int|
                    0 <= j < i ==> (#[trigger] peers@[j])@ == candidates@[order@[j] as int]@,
            decreases count - i,
        {
            assert(order@[i as int] < candidates@.len());
            peers.push(candidates[order[i]].duplicate());
            i += 1;
        }
        proof {
            let want = chosen(maps::views(candidates@), order@, self@.config.ping_req_count);
            assert(maps::views(peers@).len() == want.len());
            assert forall|j: int| 0 <= j < want.len() implies maps::views(peers@)[j] == want[j] by {
                assert(order@[j] < candidates@.len());
            }
            assert(maps::views(peers@) =~= want);
        }
        peers
    }

    /// Whom to ask to probe a target that did not answer: a few of the others, picked at
    /// random.
    pub fn indirect_peers(&self, target: &SiloAddress) -> (peers: Vec<SiloAddress>)
        ensures
            exists|order: Seq<usize>|
                is_order_of(order, helpers(self@.swim, target@.silo_id).len())
                    && maps::views(peers@) == #[trigger] chosen(
                    helpers(self@.swim, target@.silo_id),
                    order,
                    self@.config.ping_req_count,
                ),
    {
        let candidates = self.helper_candidates(target);
        let order = random_order(candidates.len());
        let peers = self.choose_helpers(&candidates, &order);
        assert(maps::views(candidates@).len() == candidates@.len());
        peers
    }

    /// Whom to ask next, after the replies so far: the peers are asked one after the other,
    /// up to the first that reached the target.
    pub fn next_helper(&self, peers: &Vec<SiloAddress>, replies: &Vec<bool>) -> (next: Option<
        SiloAddress,
    >)
        ensures
            match next {
                Some(peer) => !replies@.contains(true) && replies@.len() < peers@.len() && peer@
                    == peers@[replies@.len() as int]@,
                None => replies@.contains(true) || replies@.len() >= peers@.len(),
            },
            helper_to_ask(maps::views(peers@), replies@) == (match next {
                Some(peer) => Some(peer@),
                None => None,
            }),
    {
        if any_yes(replies) || replies.len() >= peers.len() {
            None
        } else {
            Some(peers[replies.len()].duplicate())
        }
    }

    /// Draws the conclusion from the probes of a member: one that answered, to this silo or
    /// to another, is believed alive, one that did not is suspected.
    pub fn conclude_probe(
        &mut self,
        target: &SiloAddress,
        direct_ok: bool,
        indirect_ok: bool,
        now: Instant,
    )
        ensures
            final(self)@.config == old(self)@.config,
            final(self)@.swim == (if direct_ok || indirect_ok {
                old(self)@.swim.believing_alive(target@.silo_id)
            } else {
                old(self)@.swim.suspecting(target@.silo_id, now)
            }),
            final(self)@.swim == probed(
                old(self)@.swim,
                target@.silo_id,
                direct_ok,
                indirect_ok,
                now,
            ),
    {
        if direct_ok || indirect_ok {
            self.swim_state.mark_alive(target.silo_id.as_str());
        } else {
            self.swim_state.suspect_member(target.silo_id.as_str(), now);
        }
    }

    /// Declares every member dead that has been suspected for too long.
    pub fn expire_suspects(
        &mut self,
        ring: &mut HashRing,
        pool: &mut ConnectionPool,
        changes: &mut Vec<MembershipChange>,
        now: Instant,
    )
        ensures
            final(self)@.config == old(self)@.config,
            (GossipWorld {
                swim: final(self)@.swim,
                ring: final(ring)@,
                pool: final(pool)@,
                changes: maps::views(final(changes)@),
            }) == (GossipWorld {
                swim: old(self)@.swim,
                ring: old(ring)@,
                pool: old(pool)@,
                changes: maps::views(old(changes)@),
            }).without_members(
                old(self)@.swim.overdue_members(now, old(self)@.config.suspect_timeout@),
            ),
    {
        self.swim_state.expire_suspects(ring, pool, changes, self.config.suspect_timeout, now);
    }
}

/// Whether any of the peers that were asked reached the target.
pub fn any_yes(replies: &Vec<bool>) -> (yes: bool)
    ensures
        yes == replies@.contains(true),
{
    let mut i: usize = 0;
    while i < replies.len()
        invariant
            i <= replies.len(),
            forall|j: int| 0 <= j < i ==> !(#[trigger] replies@[j]),
        decreases replies.len() - i,
    {
        if replies[i] {
            assert(replies@[i as int]);
            return true;
        }
        i += 1;
    }
    false
}

/// Whoever is asked to probe a target is another member, and nobody is asked twice.
pub proof fn helpers_are_other_members(
    swim: SwimStateView,
    target: Seq<char>,
    order: Seq<usize>,
    count: usize,
    i: int,
)
    requires
        is_order_of(order, helpers(swim, target).len()),
        0 <= i < chosen(helpers(swim, target), order, count).len(),
    ensures
        chosen(helpers(swim, target), order, count).len() == (if count <= order.len() {
            count as nat
        } else {
            order.len()
        }),
        chosen(helpers(swim, target), order, count)[i].silo_id != target,
        member_addrs(swim).contains(chosen(helpers(swim, target), order, count)[i]),
{
    let all = member_addrs(swim);
    let keep = other_than(target);
    let picks = chosen(helpers(swim, target), order, count);
    assert(order[i] < helpers(swim, target).len());
    assert(picks[i] == helpers(swim, target)[order[i] as int]);
    maps::lemma_filter_distinct(all, keep);
    assert(helpers(swim, target).contains(picks[i]));
}

/// What happened in one period: who was probed, whether it answered, and else in which order
/// the others were drawn and what those that were asked replied.
pub struct Probe {
    pub target: SiloAddressView,
    pub direct_ok: bool,
    pub order: Seq<usize>,
    pub replies: Seq<bool>,
}

impl Probe {
    /// The peers that may be asked, in the order in which they are.
    pub open spec fn peers(self, swim: SwimStateView, count: usize) -> Seq<SiloAddressView> {
        chosen(helpers(swim, self.target.silo_id), self.order, count)
    }

    /// The peers that were asked.
    pub open spec fn asked(self, swim: SwimStateView, count: usize) -> Seq<SiloAddressView> {
        self.peers(swim, count).take(self.replies.len() as int)
    }

    /// Whether the target was reached, by this silo or by a peer.
    pub open spec fn reached(self) -> bool {
        self.direct_ok || self.replies.contains(true)
    }

    /// Whether the peers were asked as they are to be: nobody where the target answered;
    /// else one after the other, each where no earlier one reached the target, until one did
    /// or all were asked.
    pub open spec fn orderly(self, swim: SwimStateView, count: usize) -> bool {
        if self.direct_ok {
            self.replies.len() == 0
        } else {
            &&& is_order_of(self.order, helpers(swim, self.target.silo_id).len())
            &&& self.replies.len() <= self.peers(swim, count).len()
            &&& forall|n: int|
                0 <= n < self.replies.len() ==> !(#[trigger] self.replies.take(n)).contains(true)
            &&& self.replies.contains(true) || self.replies.len() == self.peers(swim, count).len()
        }
    }
}

/// What is known once the conclusion is drawn from a probe.
pub open spec fn concluded(swim: SwimStateView, probe: Probe, now: Instant) -> SwimStateView {
    if probe.reached() {
        swim.believing_alive(probe.target.silo_id)
    } else {
        swim.suspecting(probe.target.silo_id, now)
    }
}

/// The world at the end of a period, in which the conclusion is drawn from a probe and then
/// everyone suspected for too long is declared dead.
pub open spec fn after_period(
    world: GossipWorld,
    probe: Probe,
    timeout: nat,
    concluded_at: Instant,
    expired_at: Instant,
) -> GossipWorld {
    let swim = concluded(world.swim, probe, concluded_at);
    (GossipWorld { swim, ..world }).without_members(swim.overdue_members(expired_at, timeout))
}

/// One whole period. At most so many members as are configured are asked to probe the target,
/// none of them the target itself, and nobody once one has reached it. A target that was
/// reached is alive at the end. One that was not becomes suspected where it was believed alive,
/// and stays a member and on the ring, unless the timeout passes before the period is over.
/// Nobody is declared dead but a member that has been suspected for longer than the timeout;
/// a target that was reached is not.
pub proof fn one_period_kills_nobody_who_answers(
    seen: SwimStateView,
    world: GossipWorld,
    config: FailureDetectorConfig,
    probe: Probe,
    concluded_at: Instant,
    expired_at: Instant,
)
    requires
        probe.orderly(seen, config.ping_req_count),
        world.swim.members.dom().finite(),
        world.swim.keyed(),
        world.in_step(),
        world.ring.placed(),
        world.ring.virtual_nodes > 0,
        hash_ring::labels_apart(world.heard_of(Seq::empty()), world.ring.virtual_nodes as nat),
    ensures
        ({
            let asked = probe.asked(seen, config.ping_req_count);
            let timeout = config.suspect_timeout@;
            let t = probe.target.silo_id;
            let known = world.swim.members.dom().contains(t);
            let was = world.swim.members[t];
            let after = after_period(world, probe, timeout, concluded_at, expired_at);
            &&& asked.len() == probe.replies.len()
            &&& asked.len() <= config.ping_req_count
            &&& probe.direct_ok ==> asked.len() == 0
            &&& forall|i: int|
                0 <= i < asked.len() ==> (#[trigger] asked[i]).silo_id != t && member_addrs(
                    seen,
                ).contains(asked[i])
            &&& forall|i: int|
                0 <= i < probe.replies.len() - 1 ==> !(#[trigger] probe.replies[i])
            &&& known && probe.reached() ==> after.swim.members.dom().contains(t)
                && after.swim.members[t].status is Alive && after.ring.silo_ids().contains(t)
            &&& known && !probe.reached() && was.status is Alive && expired_at.since(concluded_at)
                <= timeout ==> {
                &&& after.swim.members.dom().contains(t)
                &&& after.swim.members[t].status == (MemberStatusView::Suspect {
                    since: concluded_at,
                    reported_by: world.swim.local_addr.silo_id,
                })
                &&& after.ring.silo_ids().contains(t)
            }
            &&& forall|id: Seq<char>| #[trigger]
                world.swim.members.dom().contains(id) && !after.swim.members.dom().contains(id)
                    ==> concluded(world.swim, probe, concluded_at).overdue(id, expired_at, timeout)
                    && !(id == t && probe.reached())
            &&& forall|id: Seq<char>| #[trigger]
                after.swim.members.dom().contains(id) ==> world.swim.members.dom().contains(id)
            &&& after.in_step()
        }),
{
    let count = config.ping_req_count;
    let asked = probe.asked(seen, count);
    let timeout = config.suspect_timeout@;
    let t = probe.target.silo_id;
    let swim = concluded(world.swim, probe, concluded_at);
    let next = GossipWorld { swim, ..world };
    let dead = swim.overdue_members(expired_at, timeout);
    let after = after_period(world, probe, timeout, concluded_at, expired_at);
    if !probe.direct_ok {
        assert forall|i: int| 0 <= i < asked.len() implies (#[trigger] asked[i]).silo_id != t
            && member_addrs(seen).contains(asked[i]) by {
            helpers_are_other_members(seen, t, probe.order, count, i);
            assert(asked[i] == probe.peers(seen, count)[i]);
        }
        if asked.len() > 0 {
            helpers_are_other_members(seen, t, probe.order, count, 0);
        }
        assert forall|i: int| 0 <= i < probe.replies.len() - 1 implies !(
        #[trigger] probe.replies[i]) by {
            let before = probe.replies.take(probe.replies.len() - 1);
            assert(!before.contains(true));
            assert(before[i] == probe.replies[i]);
            if probe.replies[i] {
                assert(before.contains(true));
            }
        }
    }
    assert(swim.members.dom() =~= world.swim.members.dom());
    assert(next.heard_of(Seq::empty()) =~= world.heard_of(Seq::empty()));
    swim::ring_holds_the_members_after_deaths(world, Seq::empty(), t, concluded_at);
    swim::ring_holds_the_members_after_deaths(next, dead, t, concluded_at);
    assert forall|id: Seq<char>|
        after.swim.members.dom().contains(id) <==> swim.members.dom().contains(id)
            && !swim.overdue(id, expired_at, timeout) by {
        swim::expiry_removes_the_overdue(next, expired_at, timeout, id);
    }
    swim::only_the_declared_die(next, dead, t);
}

/// Whom a silo may probe are exactly its members, each at its address; whom it may ask for help
/// are exactly the others of them.
pub proof fn members_are_probed_and_others_help(
    swim: SwimStateView,
    target: Seq<char>,
    addr: SiloAddressView,
)
    requires
        swim.members.dom().finite(),
        swim.keyed(),
    ensures
        member_addrs(swim).contains(addr) <==> swim.members.dom().contains(addr.silo_id)
            && swim.members[addr.silo_id].addr == addr,
        helpers(swim, target).contains(addr) <==> swim.members.dom().contains(addr.silo_id)
            && swim.members[addr.silo_id].addr == addr && addr.silo_id != target,
{
    let ids = maps::in_text_order(swim.members.dom());
    let all = member_addrs(swim);
    let keep = other_than(target);
    maps::lemma_text_order_is_complete(swim.members.dom());
    maps::lemma_filter_distinct(all, keep);
    if all.contains(addr) {
        let i = all.index_of(addr);
        assert(ids.contains(ids[i]));
        assert(swim.members.dom().contains(ids[i]));
    }
    if swim.members.dom().contains(addr.silo_id) && swim.members[addr.silo_id].addr == addr {
        let i = ids.index_of(addr.silo_id);
        assert(all[i] == addr);
        if keep(addr) {
            all.lemma_filter_contains(keep, i);
        }
    }
}

/// Of the candidates the first few are chosen in the order that was drawn, as many as wanted or
/// as there are.
pub proof fn helpers_are_chosen_in_the_drawn_order(
    candidates: Seq<SiloAddressView>,
    order: Seq<usize>,
    count: usize,
    i: int,
)
    requires
        is_order_of(order, candidates.len()),
    ensures
        count <= candidates.len() ==> chosen(candidates, order, count).len() == count,
        count > candidates.len() ==> chosen(candidates, order, count).len() == candidates.len(),
        0 <= i < chosen(candidates, order, count).len() ==> chosen(candidates, order, count)[i]
            == candidates[order[i] as int],
{
}

/// The state after a member was probed, with what came of it directly and through helpers.
pub open spec fn probed(
    swim: SwimStateView,
    silo_id: Seq<char>,
    direct_ok: bool,
    indirect_ok: bool,
    now: Instant,
) -> SwimStateView {
    if direct_ok || indirect_ok {
        swim.believing_alive(silo_id)
    } else {
        swim.suspecting(silo_id, now)
    }
}

/// The helper to ask next, by the replies of those asked before.
pub open spec fn helper_to_ask(peers: Seq<SiloAddressView>, replies: Seq<bool>) -> Option<
    SiloAddressView,
> {
    if replies.contains(true) || replies.len() >= peers.len() {
        None
    } else {
        Some(peers[replies.len() as int])
    }
}

/// A member that was reached, directly or through a helper, is alive. One that nobody reached is
/// suspected from then on, by this silo, where it was alive, and stays suspected as it was where
/// it was not. Other members stay as they are.
pub proof fn only_members_nobody_reaches_are_suspected(
    swim: SwimStateView,
    silo_id: Seq<char>,
    direct_ok: bool,
    indirect_ok: bool,
    now: Instant,
    other: Seq<char>,
)
    requires
        swim.members.dom().contains(silo_id),
        other != silo_id,
    ensures
        ({
            let after = probed(swim, silo_id, direct_ok, indirect_ok, now).members;
            &&& after.dom() == swim.members.dom()
            &&& after[silo_id].addr == swim.members[silo_id].addr
            &&& after[silo_id].incarnation == swim.members[silo_id].incarnation
            &&& direct_ok || indirect_ok ==> after[silo_id].status is Alive
            &&& !direct_ok && !indirect_ok && swim.members[silo_id].status is Alive
                ==> after[silo_id].status == (MemberStatusView::Suspect {
                since: now,
                reported_by: swim.local_addr.silo_id,
            })
            &&& !direct_ok && !indirect_ok && swim.members[silo_id].status is Suspect
                ==> after[silo_id] == swim.members[silo_id]
            &&& after[other] == swim.members[other]
        }),
{
    let after = probed(swim, silo_id, direct_ok, indirect_ok, now).members;
    assert(after.dom() =~= swim.members.dom());
}

/// Helpers are asked one after the other, until one reached the target or all were asked.
pub proof fn helpers_are_asked_in_turn(
    peers: Seq<SiloAddressView>,
    replies: Seq<bool>,
    i: int,
)
    ensures
        0 <= i < replies.len() && replies[i] ==> helper_to_ask(peers, replies) is None,
        (forall|j: int| 0 <= j < replies.len() ==> !(#[trigger] replies[j])) ==> helper_to_ask(
            peers,
            replies,
        ) == (if replies.len() < peers.len() {
            Some(peers[replies.len() as int])
        } else {
            None
        }),
{
}

} // verus!
