//! Membership by gossip: who is believed alive, suspected or dead, and what is told on.

use vstd::prelude::*;

use std::collections::VecDeque;

use crate::connection_pool::{ConnectionPool, ConnectionPoolView, Service};
use crate::failure_detector::{MembershipChange, MembershipChangeView};
use crate::hash_ring;
use crate::hash_ring::{HashRing, HashRingView, SiloAddress, SiloAddressView};
use crate::maps;
use crate::maps::{Duplicate, StrMap};
use crate::proto::{GossipEntry, GossipEntryView, ProtoSiloAddress, ProtoSiloAddressView};
use crate::text::same_text;
use crate::time::{Duration, Instant};

verus! {

/// What is believed of a member.
#[derive(Clone, Debug, PartialEq, Eq)]
pub enum MemberStatus {
    Alive,
    Suspect { since: Instant, reported_by: String },
}

/// The contents of a [`MemberStatus`].
pub enum MemberStatusView {
    Alive,
    Suspect { since: Instant, reported_by: Seq<char> },
}

impl View for MemberStatus {
    type V = MemberStatusView;

    open spec fn view(&self) -> MemberStatusView {
        match self {
            MemberStatus::Alive => MemberStatusView::Alive,
            MemberStatus::Suspect { since, reported_by } => MemberStatusView::Suspect {
                since: *since,
                reported_by: reported_by@,
            },
        }
    }
}

impl Duplicate for MemberStatus {
    fn duplicate(&self) -> (copy: Self) {
        match self {
            MemberStatus::Alive => MemberStatus::Alive,
            MemberStatus::Suspect { since, reported_by } => MemberStatus::Suspect {
                since: *since,
                reported_by: reported_by.clone(),
            },
        }
    }
}

/// A member of the cluster.
#[derive(Clone, Debug, PartialEq, Eq)]
pub struct SwimMember {
    pub addr: SiloAddress,
    pub status: MemberStatus,
    pub incarnation: u64,
}

/// The contents of a [`SwimMember`].
pub struct SwimMemberView {
    pub addr: SiloAddressView,
    pub status: MemberStatusView,
    pub incarnation: u64,
}

impl View for SwimMember {
    type V = SwimMemberView;

    open spec fn view(&self) -> SwimMemberView {
        SwimMemberView {
            addr: self.addr@,
            status: self.status@,
            incarnation: self.incarnation,
        }
    }
}

impl Duplicate for SwimMember {
    fn duplicate(&self) -> (copy: Self) {
        SwimMember {
            addr: self.addr.duplicate(),
            status: self.status.duplicate(),
            incarnation: self.incarnation,
        }
    }
}

impl SwimMemberView {
    /// A member that has just joined.
    pub open spec fn joined(addr: SiloAddressView) -> SwimMemberView {
        SwimMemberView { addr, status: MemberStatusView::Alive, incarnation: 0 }
    }
}

impl SwimMember {
    /// A member that has just joined.
    pub fn joined(addr: SiloAddress) -> (member: SwimMember)
        ensures
            member@ == SwimMemberView::joined(addr@),
    {
        SwimMember { addr, status: MemberStatus::Alive, incarnation: 0 }
    }
}

/// A piece of news about a member.
#[derive(Clone, Debug, PartialEq, Eq)]
pub enum GossipUpdate {
    Alive { addr: SiloAddress, incarnation: u64 },
    Suspect { addr: SiloAddress, incarnation: u64, reported_by: String },
    Dead { addr: SiloAddress, incarnation: u64 },
    Join { addr: SiloAddress },
}

/// The contents of a [`GossipUpdate`].
pub enum GossipUpdateView {
    Alive { addr: SiloAddressView, incarnation: u64 },
    Suspect { addr: SiloAddressView, incarnation: u64, reported_by: Seq<char> },
    Dead { addr: SiloAddressView, incarnation: u64 },
    Join { addr: SiloAddressView },
}

impl View for GossipUpdate {
    type V = GossipUpdateView;

    open spec fn view(&self) -> GossipUpdateView {
        match self {
            GossipUpdate::Alive { addr, incarnation } => GossipUpdateView::Alive {
                addr: addr@,
                incarnation: *incarnation,
            },
            GossipUpdate::Suspect { addr, incarnation, reported_by } => GossipUpdateView::Suspect {
                addr: addr@,
                incarnation: *incarnation,
                reported_by: reported_by@,
            },
            GossipUpdate::Dead { addr, incarnation } => GossipUpdateView::Dead {
                addr: addr@,
                incarnation: *incarnation,
            },
            GossipUpdate::Join { addr } => GossipUpdateView::Join { addr: addr@ },
        }
    }
}

impl GossipUpdateView {
    /// The silo that the news is about.
    pub open spec fn about(self) -> SiloAddressView {
        match self {
            GossipUpdateView::Alive { addr, .. } => addr,
            GossipUpdateView::Suspect { addr, .. } => addr,
            GossipUpdateView::Dead { addr, .. } => addr,
            GossipUpdateView::Join { addr } => addr,
        }
    }
}

/// What a silo knows of the others, and the news that it has yet to pass on.
#[derive(Clone, Debug, PartialEq, Eq)]
pub struct SwimState {
    pub members: StrMap<SwimMember>,
    pub local_incarnation: u64,
    pub local_addr: SiloAddress,
    pending_gossip: VecDeque<GossipUpdate>,
}

/// The contents of a [`SwimState`].
pub struct SwimStateView {
    /// Members by identity.
    pub members: Map<Seq<char>, SwimMemberView>,
    pub local_incarnation: u64,
    pub local_addr: SiloAddressView,
    /// The news to pass on, oldest first.
    pub pending: Seq<GossipUpdateView>,
}

impl View for SwimState {
    type V = SwimStateView;

    closed spec fn view(&self) -> SwimStateView {
        SwimStateView {
            members: self.members@,
            local_incarnation: self.local_incarnation,
            local_addr: self.local_addr@,
            pending: maps::views(self.pending_gossip@),
        }
    }
}

/// Everything that news changes: what is known, the ring, the open connections, and the
/// changes announced so far.
pub struct GossipWorld {
    pub swim: SwimStateView,
    pub ring: HashRingView,
    pub pool: ConnectionPoolView,
    pub changes: Seq<MembershipChangeView>,
}

impl SwimStateView {
    /// The state with a member's entry replaced.
    pub open spec fn with_member(self, silo_id: Seq<char>, member: SwimMemberView) -> SwimStateView {
        SwimStateView { members: self.members.insert(silo_id, member), ..self }
    }

    /// The state with one more piece of news to pass on.
    pub open spec fn telling(self, update: GossipUpdateView) -> SwimStateView {
        SwimStateView { pending: self.pending.push(update), ..self }
    }

    /// Whether each member stands under its own identity.
    pub open spec fn keyed(self) -> bool {
        forall|id: Seq<char>| #[trigger]
            self.members.dom().contains(id) ==> self.members[id].addr.silo_id == id
    }

    /// The oldest news, as much as is asked for or as there is, and the state without it.
    pub open spec fn drained(self, n: usize) -> (Seq<GossipUpdateView>, SwimStateView) {
        let count = if n <= self.pending.len() {
            n as int
        } else {
            self.pending.len() as int
        };
        (
            self.pending.take(count),
            SwimStateView { pending: self.pending.skip(count), ..self },
        )
    }

    /// The state after a member was found not to answer.
    pub open spec fn suspecting(self, silo_id: Seq<char>, now: Instant) -> SwimStateView {
        if self.members.dom().contains(silo_id) && self.members[silo_id].status is Alive {
            let member = self.members[silo_id];
            self.with_member(
                silo_id,
                SwimMemberView {
                    status: MemberStatusView::Suspect {
                        since: now,
                        reported_by: self.local_addr.silo_id,
                    },
                    ..member
                },
            ).telling(
                GossipUpdateView::Suspect {
                    addr: member.addr,
                    incarnation: member.incarnation,
                    reported_by: self.local_addr.silo_id,
                },
            )
        } else {
            self
        }
    }

    /// The state after a member was found to answer.
    pub open spec fn believing_alive(self, silo_id: Seq<char>) -> SwimStateView {
        if self.members.dom().contains(silo_id) {
            self.with_member(
                silo_id,
                SwimMemberView { status: MemberStatusView::Alive, ..self.members[silo_id] },
            )
        } else {
            self
        }
    }

    /// Whether a member has been suspected for longer than a time.
    pub open spec fn overdue(self, silo_id: Seq<char>, now: Instant, timeout: nat) -> bool {
        self.members[silo_id].status matches MemberStatusView::Suspect { since, .. } && now.since(
            since,
        ) > timeout
    }

    /// The members that have been suspected for longer than a time, in ascending order of
    /// their identities.
    pub open spec fn overdue_members(self, now: Instant, timeout: nat) -> Seq<Seq<char>> {
        maps::in_text_order(self.members.dom()).filter(|id: Seq<char>| self.overdue(id, now, timeout))
    }
}

impl GossipWorld {
    /// The world after one piece of news.
    pub open spec fn after(self, update: GossipUpdateView, now: Instant) -> GossipWorld {
        let id = update.about().silo_id;
        let swim = self.swim;
        let known = swim.members.dom().contains(id);
        let member = swim.members[id];
        if id == swim.local_addr.silo_id {
            match update {
                GossipUpdateView::Suspect { incarnation, .. } => if incarnation
                    >= swim.local_incarnation {
                    let next = (incarnation + 1) as u64;
                    GossipWorld {
                        swim: SwimStateView { local_incarnation: next, ..swim }.telling(
                            GossipUpdateView::Alive { addr: swim.local_addr, incarnation: next },
                        ),
                        ..self
                    }
                } else {
                    self
                },
                _ => self,
            }
        } else {
            match update {
                GossipUpdateView::Alive { addr, incarnation } => if known && incarnation
                    > member.incarnation {
                    GossipWorld {
                        swim: swim.with_member(
                            id,
                            SwimMemberView { status: MemberStatusView::Alive, incarnation, ..member },
                        ),
                        ..self
                    }
                } else {
                    self
                },
                GossipUpdateView::Suspect { addr, incarnation, reported_by } => if known
                    && incarnation >= member.incarnation && member.status is Alive {
                    GossipWorld {
                        swim: swim.with_member(
                            id,
                            SwimMemberView {
                                status: MemberStatusView::Suspect { since: now, reported_by },
                                incarnation,
                                ..member
                            },
                        ),
                        ..self
                    }
                } else {
                    self
                },
                GossipUpdateView::Dead { addr, incarnation } => if known && incarnation
                    >= member.incarnation {
                    GossipWorld {
                        swim: SwimStateView { members: swim.members.remove(id), ..swim },
                        ring: self.ring.without(id),
                        pool: self.pool.without(addr.endpoint()),
                        changes: self.changes.push(MembershipChangeView::SiloLeft(addr)),
                    }
                } else {
                    self
                },
                GossipUpdateView::Join { addr } => if !known {
                    GossipWorld {
                        swim: swim.with_member(id, SwimMemberView::joined(addr)),
                        ring: self.ring.with(addr),
                        changes: self.changes.push(MembershipChangeView::SiloJoined(addr)),
                        ..self
                    }
                } else {
                    self
                },
            }
        }
    }

    /// The world after several pieces of news, in their order.
    pub open spec fn after_all(self, updates: Seq<GossipUpdateView>, now: Instant) -> GossipWorld
        decreases updates.len(),
    {
        if updates.len() == 0 {
            self
        } else {
            self.after_all(updates.drop_last(), now).after(updates.last(), now)
        }
    }

    /// Whether the silos on the ring are exactly the members and this silo, which is not a
    /// member of its own.
    pub open spec fn in_step(self) -> bool {
        let local = self.swim.local_addr.silo_id;
        &&& !self.swim.members.dom().contains(local)
        &&& self.ring.silo_ids() == self.swim.members.dom().insert(local)
    }

    /// What is announced of a piece of news: that a silo joined where it makes one a member,
    /// that it left where it ends a membership, and nothing otherwise.
    pub open spec fn announces(
        self,
        update: GossipUpdateView,
        now: Instant,
    ) -> Seq<MembershipChangeView> {
        let id = update.about().silo_id;
        let before = self.swim.members.dom().contains(id);
        let after = self.after(update, now).swim.members.dom().contains(id);
        if !before && after {
            seq![MembershipChangeView::SiloJoined(update.about())]
        } else if before && !after {
            seq![MembershipChangeView::SiloLeft(update.about())]
        } else {
            Seq::empty()
        }
    }

    /// What is announced of several pieces of news, in their order.
    pub open spec fn announces_all(
        self,
        updates: Seq<GossipUpdateView>,
        now: Instant,
    ) -> Seq<MembershipChangeView>
        decreases updates.len(),
    {
        if updates.len() == 0 {
            Seq::empty()
        } else {
            self.announces_all(updates.drop_last(), now) + self.after_all(
                updates.drop_last(),
                now,
            ).announces(updates.last(), now)
        }
    }

    /// The identities that this silo knows or hears of: its own, those of the members, and
    /// those that the news is about.
    pub open spec fn heard_of(self, updates: Seq<GossipUpdateView>) -> Set<Seq<char>> {
        Set::new(
            |id: Seq<char>|
                id == self.swim.local_addr.silo_id || self.swim.members.dom().contains(id) || exists|
                    i: int,
                |
                    0 <= i < updates.len() && (#[trigger] updates[i]).about().silo_id == id,
        )
    }

    /// The world after a member was declared dead.
    pub open spec fn without_member(self, silo_id: Seq<char>) -> GossipWorld {
        if self.swim.members.dom().contains(silo_id) {
            let member = self.swim.members[silo_id];
            GossipWorld {
                swim: SwimStateView {
                    members: self.swim.members.remove(silo_id),
                    ..self.swim
                }.telling(
                    GossipUpdateView::Dead { addr: member.addr, incarnation: member.incarnation },
                ),
                ring: self.ring.without(member.addr.silo_id),
                pool: self.pool.without(member.addr.endpoint()),
                changes: self.changes.push(MembershipChangeView::SiloLeft(member.addr)),
            }
        } else {
            self
        }
    }

    /// The world after several members were declared dead, in their order.
    pub open spec fn without_members(self, silo_ids: Seq<Seq<char>>) -> GossipWorld
        decreases silo_ids.len(),
    {
        if silo_ids.len() == 0 {
            self
        } else {
            self.without_members(silo_ids.drop_last()).without_member(silo_ids.last())
        }
    }
}

/// Whether news cannot be refuted: it suspects this silo at the last incarnation there is.
pub open spec fn irrefutable(update: GossipUpdateView, local_silo_id: Seq<char>) -> bool {
    update matches GossipUpdateView::Suspect { addr, incarnation, .. } && addr.silo_id
        == local_silo_id && incarnation == u64::MAX
}

impl SwimState {
    /// A silo that knows of no other.
    pub fn new(local_addr: SiloAddress) -> (state: SwimState)
        ensures
            state@ == (SwimStateView {
                members: Map::empty(),
                local_incarnation: 0,
                local_addr: local_addr@,
                pending: Seq::empty(),
            }),
    {
        let state = SwimState {
            members: StrMap::new(),
            local_incarnation: 0,
            local_addr,
            pending_gossip: VecDeque::new(),
        };
        assert(state@.pending =~= Seq::<GossipUpdateView>::empty());
        state
    }

    /// Takes up to `n` pieces of news to pass on, the oldest first.
    pub fn drain_gossip(&mut self, n: usize) -> (updates: Vec<GossipUpdate>)
        ensures
            ({
                let count = if n <= old(self)@.pending.len() {
                    n as int
                } else {
                    old(self)@.pending.len() as int
                };
                &&& maps::views(updates@) == old(self)@.pending.take(count)
                &&& final(self)@ == (SwimStateView {
                    pending: old(self)@.pending.skip(count),
                    ..old(self)@
                })
            }),
            (maps::views(updates@), final(self)@) == old(self)@.drained(n),
    {
        let ghost all = self.pending_gossip@;
        let mut updates: Vec<GossipUpdate> = Vec::new();
        let mut i: usize = 0;
        assert(all.skip(0) =~= all);
        assert(updates@ =~= all.take(0));
        while i < n && self.pending_gossip.len() > 0
            invariant
                i <= n,
                i <= all.len(),
                updates@ == all.take(i as int),
                self.pending_gossip@ == all.skip(i as int),
                self.members@ == old(self).members@,
                self.local_incarnation == old(self).local_incarnation,
                self.local_addr@ == old(self).local_addr@,
            decreases n - i,
        {
            match self.pending_gossip.pop_front() {
                Some(update) => {
                    proof {
                        assert(all.take(i + 1) =~= all.take(i as int).push(all[i as int]));
                        assert(all.skip(i as int).skip(1) =~= all.skip(i + 1));
                        assert(all.skip(i as int)[0] == all[i as int]);
                        assert(all.skip(i as int).subrange(1, all.len() - i) =~= all.skip(i + 1));
                    }
                    updates.push(update);
                },
                None => {},
            }
            i += 1;
        }
        proof {
            assert(maps::views(updates@) =~= maps::views(all).take(i as int));
            assert(maps::views(self.pending_gossip@) =~= maps::views(all).skip(i as int));
            assert(i == n || i == all.len());
        }
        updates
    }

    /// Adds a piece of news to pass on.
    pub fn enqueue_gossip(&mut self, update: GossipUpdate)
        ensures
            final(self)@ == old(self)@.telling(update@),
    {
        let ghost before = self.pending_gossip@;
        self.pending_gossip.push_back(update);
        assert(maps::views(self.pending_gossip@) =~= maps::views(before).push(update@));
    }

    fn put_member(&mut self, silo_id: &str, member: SwimMember)
        ensures
            final(self)@ == old(self)@.with_member(silo_id@, member@),
    {
        self.members.insert(silo_id.to_string(), member);
    }

    /// Whether a list of news holds some that cannot be refuted.
    pub fn cannot_refute(&self, updates: &Vec<GossipUpdate>) -> (yes: bool)
        ensures
            yes == (exists|i: int|
                0 <= i < updates@.len() && irrefutable(
                    #[trigger] maps::views(updates@)[i],
                    self@.local_addr.silo_id,
                )),
    {
        let mut i: usize = 0;
        while i < updates.len()
            invariant
                i <= updates.len(),
                forall|j: int|
                    0 <= j < i ==> !irrefutable(
                        #[trigger] maps::views(updates@)[j],
                        self@.local_addr.silo_id,
                    ),
            decreases updates.len() - i,
        {
            assert(maps::views(updates@)[i as int] == updates@[i as int]@);
            if let GossipUpdate::Suspect { addr, incarnation, .. } = &updates[i] {
                if *incarnation == u64::MAX && same_text(
                    addr.silo_id.as_str(),
                    self.local_addr.silo_id.as_str(),
                ) {
                    assert(irrefutable(
                        maps::views(updates@)[i as int],
                        self@.local_addr.silo_id,
                    ));
                    return true;
                }
            }
            i += 1;
        }
        false
    }

    fn apply_alive(&mut self, addr: &SiloAddress, incarnation: u64)
        requires
            addr@.silo_id != old(self)@.local_addr.silo_id,
        ensures
            final(self)@ == (if old(self)@.members.dom().contains(addr@.silo_id) && incarnation
                > old(self)@.members[addr@.silo_id].incarnation {
                old(self)@.with_member(
                    addr@.silo_id,
                    SwimMemberView {
                        status: MemberStatusView::Alive,
                        incarnation,
                        ..old(self)@.members[addr@.silo_id]
                    },
                )
            } else {
                old(self)@
            }),
    {
        let revived: Option<SwimMember> = match self.members.get(addr.silo_id.as_str()) {
            Some(member) => if incarnation > member.incarnation {
                Some(
                    SwimMember {
                        addr: member.addr.duplicate(),
                        status: MemberStatus::Alive,
                        incarnation,
                    },
                )
            } else {
                None
            },
            None => None,
        };
        if let Some(member) = revived {
            self.put_member(addr.silo_id.as_str(), member);
        }
    }

    fn apply_suspect(
        &mut self,
        addr: &SiloAddress,
        incarnation: u64,
        reported_by: &String,
        now: Instant,
    )
        requires
            addr@.silo_id != old(self)@.local_addr.silo_id,
        ensures
            final(self)@ == (if old(self)@.members.dom().contains(addr@.silo_id) && incarnation
                >= old(self)@.members[addr@.silo_id].incarnation && old(
                self,
            )@.members[addr@.silo_id].status is Alive {
                old(self)@.with_member(
                    addr@.silo_id,
                    SwimMemberView {
                        status: MemberStatusView::Suspect { since: now, reported_by: reported_by@ },
                        incarnation,
                        ..old(self)@.members[addr@.silo_id]
                    },
                )
            } else {
                old(self)@
            }),
    {
        let suspected: Option<SwimMember> = match self.members.get(addr.silo_id.as_str()) {
            Some(member) => {
                let alive: bool = match member.status {
                    MemberStatus::Alive => true,
                    MemberStatus::Suspect { .. } => false,
                };
                if alive && incarnation >= member.incarnation {
                    Some(
                        SwimMember {
                            addr: member.addr.duplicate(),
                            status: MemberStatus::Suspect {
                                since: now,
                                reported_by: reported_by.clone(),
                            },
                            incarnation,
                        },
                    )
                } else {
                    None
                }
            },
            None => None,
        };
        if let Some(member) = suspected {
            self.put_member(addr.silo_id.as_str(), member);
        }
    }

    fn apply_one(
        &mut self,
        update: &GossipUpdate,
        ring: &mut HashRing,
        pool: &mut ConnectionPool,
        changes: &mut Vec<MembershipChange>,
        now: Instant,
    )
        requires
            !irrefutable(update@, old(self)@.local_addr.silo_id),
        ensures
            (GossipWorld {
                swim: final(self)@,
                ring: final(ring)@,
                pool: final(pool)@,
                changes: maps::views(final(changes)@),
            }) == (GossipWorld {
                swim: old(self)@,
                ring: old(ring)@,
                pool: old(pool)@,
                changes: maps::views(old(changes)@),
            }).after(update@, now),
    {
        match update {
            GossipUpdate::Alive { addr, incarnation } => {
                if same_text(addr.silo_id.as_str(), self.local_addr.silo_id.as_str()) {
                    return ;
                }
                self.apply_alive(addr, *incarnation);
            },
            GossipUpdate::Suspect { addr, incarnation, reported_by } => {
                if same_text(addr.silo_id.as_str(), self.local_addr.silo_id.as_str()) {
                    if *incarnation >= self.local_incarnation {
                        self.local_incarnation = *incarnation + 1;
                        let refutation = GossipUpdate::Alive {
                            addr: self.local_addr.duplicate(),
                            incarnation: self.local_incarnation,
                        };
                        self.enqueue_gossip(refutation);
                    }
                    return ;
                }
                self.apply_suspect(addr, *incarnation, reported_by, now);
            },
            GossipUpdate::Dead { addr, incarnation } => {
                if same_text(addr.silo_id.as_str(), self.local_addr.silo_id.as_str()) {
                    return ;
                }
                let dies: bool = match self.members.get(addr.silo_id.as_str()) {
                    Some(member) => *incarnation >= member.incarnation,
                    None => false,
                };
                if dies {
                    ring.remove(addr);
                    pool.remove(addr.endpoint().as_str());
                    self.members.remove(addr.silo_id.as_str());
                    let ghost before = changes@;
                    changes.push(MembershipChange::SiloLeft(addr.duplicate()));
                    assert(maps::views(changes@) =~= maps::views(before).push(
                        MembershipChangeView::SiloLeft(addr@),
                    ));
                }
            },
            GossipUpdate::Join { addr } => {
                if same_text(addr.silo_id.as_str(), self.local_addr.silo_id.as_str()) {
                    return ;
                }
                if !self.members.contains_key(addr.silo_id.as_str()) {
                    ring.add(addr.duplicate());
                    self.put_member(addr.silo_id.as_str(), SwimMember::joined(addr.duplicate()));
                    let ghost before = changes@;
                    changes.push(MembershipChange::SiloJoined(addr.duplicate()));
                    assert(maps::views(changes@) =~= maps::views(before).push(
                        MembershipChangeView::SiloJoined(addr@),
                    ));
                }
            },
        }
    }

    /// Takes in news, in its order: updates what is known and the ring, drops the
    /// connections to the dead, and announces who joined and who left.
    pub fn apply_gossip(
        &mut self,
        updates: &Vec<GossipUpdate>,
        ring: &mut HashRing,
        pool: &mut ConnectionPool,
        changes: &mut Vec<MembershipChange>,
        now: Instant,
    )
        requires
            forall|i: int|
                0 <= i < updates@.len() ==> !irrefutable(
                    #[trigger] maps::views(updates@)[i],
                    old(self)@.local_addr.silo_id,
                ),
        ensures
            (GossipWorld {
                swim: final(self)@,
                ring: final(ring)@,
                pool: final(pool)@,
                changes: maps::views(final(changes)@),
            }) == (GossipWorld {
                swim: old(self)@,
                ring: old(ring)@,
                pool: old(pool)@,
                changes: maps::views(old(changes)@),
            }).after_all(maps::views(updates@), now),
    {
        let ghost start = GossipWorld {
            swim: self@,
            ring: ring@,
            pool: pool@,
            changes: maps::views(changes@),
        };
        let ghost news = maps::views(updates@);
        let mut i: usize = 0;
        assert(news.take(0) =~= Seq::<GossipUpdateView>::empty());
        while i < updates.len()
            invariant
                i <= updates.len(),
                news == maps::views(updates@),
                forall|j: int|
                    0 <= j < updates@.len() ==> !irrefutable(
                        #[trigger] maps::views(updates@)[j],
                        start.swim.local_addr.silo_id,
                    ),
                self@.local_addr == start.swim.local_addr,
                (GossipWorld {
                    swim: self@,
                    ring: ring@,
                    pool: pool@,
                    changes: maps::views(changes@),
                }) == start.after_all(news.take(i as int), now),
            decreases updates.len() - i,
        {
            proof {
                assert(news[i as int] == updates@[i as int]@);
                assert(!irrefutable(
                    maps::views(updates@)[i as int],
                    start.swim.local_addr.silo_id,
                ));
                assert(news.take(i + 1).drop_last() =~= news.take(i as int));
                assert(news.take(i + 1).last() == news[i as int]);
            }
            self.apply_one(&updates[i], ring, pool, changes, now);
            i += 1;
        }
        assert(news.take(i as int) =~= news);
    }

    /// Notes that a member does not answer: it is suspected from now on, and that is told.
    pub fn suspect_member(&mut self, silo_id: &str, now: Instant)
        ensures
            final(self)@ == old(self)@.suspecting(silo_id@, now),
    {
        let found: Option<SwimMember> = match self.members.get(silo_id) {
            Some(member) => match member.status {
                MemberStatus::Alive => Some(member.duplicate()),
                MemberStatus::Suspect { .. } => None,
            },
            None => None,
        };
        if let Some(member) = found {
            let reported_by = self.local_addr.silo_id.clone();
            let update = GossipUpdate::Suspect {
                addr: member.addr.duplicate(),
                incarnation: member.incarnation,
                reported_by: reported_by.clone(),
            };
            self.put_member(
                silo_id,
                SwimMember {
                    addr: member.addr,
                    status: MemberStatus::Suspect { since: now, reported_by },
                    incarnation: member.incarnation,
                },
            );
            self.enqueue_gossip(update);
        }
    }

    /// Notes that a member answers.
    pub fn mark_alive(&mut self, silo_id: &str)
        ensures
            final(self)@ == old(self)@.believing_alive(silo_id@),
    {
        let found: Option<SwimMember> = match self.members.get(silo_id) {
            Some(member) => Some(member.duplicate()),
            None => None,
        };
        if let Some(member) = found {
            self.put_member(
                silo_id,
                SwimMember {
                    addr: member.addr,
                    status: MemberStatus::Alive,
                    incarnation: member.incarnation,
                },
            );
        }
    }

    /// Declares a member dead: takes it out of what is known and off the ring, drops its
    /// connections, and tells and announces it.
    pub fn declare_dead(
        &mut self,
        silo_id: &str,
        ring: &mut HashRing,
        pool: &mut ConnectionPool,
        changes: &mut Vec<MembershipChange>,
    )
        ensures
            (GossipWorld {
                swim: final(self)@,
                ring: final(ring)@,
                pool: final(pool)@,
                changes: maps::views(final(changes)@),
            }) == (GossipWorld {
                swim: old(self)@,
                ring: old(ring)@,
                pool: old(pool)@,
                changes: maps::views(old(changes)@),
            }).without_member(silo_id@),
    {
        if let Some(member) = self.members.remove(silo_id) {
            ring.remove(&member.addr);
            pool.remove(member.addr.endpoint().as_str());
            self.enqueue_gossip(
                GossipUpdate::Dead {
                    addr: member.addr.duplicate(),
                    incarnation: member.incarnation,
                },
            );
            let ghost before = changes@;
            let ghost addr = member.addr@;
            changes.push(MembershipChange::SiloLeft(member.addr));
            assert(maps::views(changes@) =~= maps::views(before).push(
                MembershipChangeView::SiloLeft(addr),
            ));
        } else {
            assert(self@.members =~= old(self)@.members);
        }
    }

    /// Whether a member is known.
    pub fn knows(&self, silo_id: &str) -> (yes: bool)
        ensures
            yes == self@.members.dom().contains(silo_id@),
    {
        self.members.contains_key(silo_id)
    }

    /// Takes a silo in as a member that has just joined.
    pub fn welcome(&mut self, addr: SiloAddress)
        ensures
            final(self)@ == old(self)@.with_member(
                addr@.silo_id,
                SwimMemberView::joined(addr@),
            ),
    {
        let id = addr.silo_id.clone();
        self.put_member(id.as_str(), SwimMember::joined(addr));
    }

    /// Forgets a member.
    pub fn forget(&mut self, silo_id: &str)
        ensures
            final(self)@ == (SwimStateView {
                members: old(self)@.members.remove(silo_id@),
                ..old(self)@
            }),
    {
        self.members.remove(silo_id);
    }

    /// The number of members.
    pub fn member_count(&self) -> (n: usize)
        ensures
            self@.members.dom().finite(),
            n == maps::in_text_order(self@.members.dom()).len(),
    {
        self.members.len()
    }

    /// The address of the member at a position, in ascending order of identities.
    pub fn member_addr_at(&self, i: usize) -> (addr: SiloAddress)
        requires
            i < maps::in_text_order(self@.members.dom()).len(),
        ensures
            self@.members.dom().finite(),
            addr@ == self@.members[maps::in_text_order(self@.members.dom())[i as int]].addr,
    {
        let n: usize = self.members.len();
        self.members.value_at(i).addr.duplicate()
    }

    /// The identities of all members, alive or suspected, in ascending order.
    pub fn live_member_ids(&self) -> (ids: Vec<String>)
        ensures
            self@.members.dom().finite(),
            maps::views(ids@) == maps::in_text_order(self@.members.dom()),
            forall|id: Seq<char>| #[trigger]
                self@.members.dom().contains(id) <==> maps::views(ids@).contains(id),
    {
        let n: usize = self.members.len();
        let mut ids: Vec<String> = Vec::new();
        let mut i: usize = 0;
        while i < n
            invariant
                i <= n,
                n == self.members.key_seq().len(),
                ids@.len() == i,
                forall|j: int|
                    0 <= j < i ==> (#[trigger] ids@[j])@ == self.members.key_seq()[j],
            decreases n - i,
        {
            ids.push(self.members.key_at(i).clone());
            i += 1;
        }
        proof {
            assert(maps::views(ids@) =~= maps::in_text_order(self@.members.dom()));
            maps::lemma_text_order_is_complete(self@.members.dom());
        }
        ids
    }

    fn overdue_ids(&self, now: Instant, timeout: Duration) -> (ids: Vec<String>)
        ensures
            maps::views(ids@) == self@.overdue_members(now, timeout@),
    {
        let n: usize = self.members.len();
        let mut ids: Vec<String> = Vec::new();
        let ghost all = maps::in_text_order(self@.members.dom());
        let ghost keep = |id: Seq<char>| self@.overdue(id, now, timeout@);
        let mut i: usize = 0;
        proof {
            maps::lemma_filter_nothing(all, keep);
            assert(maps::views(ids@) =~= Seq::<Seq<char>>::empty());
        }
        while i < n
            invariant
                i <= n,
                n == self.members.key_seq().len(),
                self.members.key_seq() == all,
                all == maps::in_text_order(self@.members.dom()),
                keep == (|id: Seq<char>| self@.overdue(id, now, timeout@)),
                maps::views(ids@) == all.take(i as int).filter(keep),
            decreases n - i,
        {
            let id = self.members.key_at(i);
            let member = self.members.value_at(i);
            proof {
                maps::lemma_take_filter(all, keep, i as int);
            }
            let overdue: bool = match &member.status {
                MemberStatus::Suspect { since, .. } => !timeout.at_least(
                    now.duration_since(*since),
                ),
                MemberStatus::Alive => false,
            };
            if overdue {
                let ghost before = ids@;
                ids.push(id.clone());
                assert(maps::views(ids@) =~= maps::views(before).push(id@));
            }
            i += 1;
        }
        assert(all.take(n as int) =~= all);
        ids
    }

    /// Declares every member dead that has been suspected for longer than the timeout.
    pub fn expire_suspects(
        &mut self,
        ring: &mut HashRing,
        pool: &mut ConnectionPool,
        changes: &mut Vec<MembershipChange>,
        timeout: Duration,
        now: Instant,
    )
        ensures
            (GossipWorld {
                swim: final(self)@,
                ring: final(ring)@,
                pool: final(pool)@,
                changes: maps::views(final(changes)@),
            }) == (GossipWorld {
                swim: old(self)@,
                ring: old(ring)@,
                pool: old(pool)@,
                changes: maps::views(old(changes)@),
            }).without_members(old(self)@.overdue_members(now, timeout@)),
    {
        let ghost start = GossipWorld {
            swim: self@,
            ring: ring@,
            pool: pool@,
            changes: maps::views(changes@),
        };
        let ids = self.overdue_ids(now, timeout);
        let ghost dead = maps::views(ids@);
        let mut i: usize = 0;
        assert(dead.take(0) =~= Seq::<Seq<char>>::empty());
        while i < ids.len()
            invariant
                i <= ids.len(),
                dead == maps::views(ids@),
                (GossipWorld {
                    swim: self@,
                    ring: ring@,
                    pool: pool@,
                    changes: maps::views(changes@),
                }) == start.without_members(dead.take(i as int)),
            decreases ids.len() - i,
        {
            proof {
                assert(dead[i as int] == ids@[i as int]@);
                assert(dead.take(i + 1).drop_last() =~= dead.take(i as int));
                assert(dead.take(i + 1).last() == dead[i as int]);
            }
            self.declare_dead(ids[i].as_str(), ring, pool, changes);
            i += 1;
        }
        assert(dead.take(i as int) =~= dead);
    }
}

/// A silo's address as it is sent.
pub open spec fn sent_addr(addr: SiloAddressView) -> ProtoSiloAddressView {
    ProtoSiloAddressView { host: addr.host, port: addr.port as u32, silo_id: addr.silo_id }
}

/// A silo's address as it is received; of the port the low 16 bits count.
pub open spec fn received_addr(addr: ProtoSiloAddressView) -> SiloAddressView {
    SiloAddressView {
        host: addr.host,
        port: (addr.port % 0x1_0000) as u16,
        silo_id: addr.silo_id,
    }
}

/// A silo's address as it is sent.
pub fn to_proto_addr(s: &SiloAddress) -> (p: ProtoSiloAddress)
    ensures
        p@ == sent_addr(s@),
{
    ProtoSiloAddress { host: s.host.clone(), port: s.port as u32, silo_id: s.silo_id.clone() }
}

/// A silo's address as it is received; of the port the low 16 bits count.
pub fn from_proto_addr(p: ProtoSiloAddress) -> (s: SiloAddress)
    ensures
        s@ == received_addr(p@),
{
    let port: u32 = p.port;
    assert((port as u16) == (port % 0x1_0000) as u16) by (bit_vector);
    SiloAddress { host: p.host, port: #[verifier::truncate] (port as u16), silo_id: p.silo_id }
}

/// News as it is sent: the four kinds are numbered from zero.
pub open spec fn sent_update(update: GossipUpdateView) -> GossipEntryView {
    match update {
        GossipUpdateView::Alive { addr, incarnation } => GossipEntryView {
            update_type: 0,
            silo: Some(sent_addr(addr)),
            incarnation,
            reported_by: Seq::empty(),
        },
        GossipUpdateView::Suspect { addr, incarnation, reported_by } => GossipEntryView {
            update_type: 1,
            silo: Some(sent_addr(addr)),
            incarnation,
            reported_by,
        },
        GossipUpdateView::Dead { addr, incarnation } => GossipEntryView {
            update_type: 2,
            silo: Some(sent_addr(addr)),
            incarnation,
            reported_by: Seq::empty(),
        },
        GossipUpdateView::Join { addr } => GossipEntryView {
            update_type: 3,
            silo: Some(sent_addr(addr)),
            incarnation: 0,
            reported_by: Seq::empty(),
        },
    }
}

/// News as it is received; none where no silo is named or the kind is unknown.
pub open spec fn received_update(entry: GossipEntryView) -> Option<GossipUpdateView> {
    match entry.silo {
        None => None,
        Some(silo) => {
            let addr = received_addr(silo);
            if entry.update_type == 0 {
                Some(GossipUpdateView::Alive { addr, incarnation: entry.incarnation })
            } else if entry.update_type == 1 {
                Some(
                    GossipUpdateView::Suspect {
                        addr,
                        incarnation: entry.incarnation,
                        reported_by: entry.reported_by,
                    },
                )
            } else if entry.update_type == 2 {
                Some(GossipUpdateView::Dead { addr, incarnation: entry.incarnation })
            } else if entry.update_type == 3 {
                Some(GossipUpdateView::Join { addr })
            } else {
                None
            }
        },
    }
}

/// All the news among what is received.
pub open spec fn received_updates(entries: Seq<GossipEntryView>) -> Seq<GossipUpdateView>
    decreases entries.len(),
{
    if entries.len() == 0 {
        Seq::empty()
    } else {
        match received_update(entries.last()) {
            Some(update) => received_updates(entries.drop_last()).push(update),
            None => received_updates(entries.drop_last()),
        }
    }
}

/// News as it is sent.
pub open spec fn sent_updates(updates: Seq<GossipUpdateView>) -> Seq<GossipEntryView> {
    updates.map_values(|u: GossipUpdateView| sent_update(u))
}

fn entry_of(update: &GossipUpdate) -> (entry: GossipEntry)
    ensures
        entry@ == sent_update(update@),
{
    match update {
        GossipUpdate::Alive { addr, incarnation } => GossipEntry {
            update_type: 0,
            silo: Some(to_proto_addr(addr)),
            incarnation: *incarnation,
            reported_by: String::new(),
        },
        GossipUpdate::Suspect { addr, incarnation, reported_by } => GossipEntry {
            update_type: 1,
            silo: Some(to_proto_addr(addr)),
            incarnation: *incarnation,
            reported_by: reported_by.clone(),
        },
        GossipUpdate::Dead { addr, incarnation } => GossipEntry {
            update_type: 2,
            silo: Some(to_proto_addr(addr)),
            incarnation: *incarnation,
            reported_by: String::new(),
        },
        GossipUpdate::Join { addr } => GossipEntry {
            update_type: 3,
            silo: Some(to_proto_addr(addr)),
            incarnation: 0,
            reported_by: String::new(),
        },
    }
}

/// News as it is sent.
pub fn gossip_to_proto(updates: &Vec<GossipUpdate>) -> (entries: Vec<GossipEntry>)
    ensures
        maps::views(entries@) == sent_updates(maps::views(updates@)),
{
    let mut entries: Vec<GossipEntry> = Vec::new();
    let mut i: usize = 0;
    while i < updates.len()
        invariant
            i <= updates.len(),
            entries@.len() == i,
            forall|j: int| 0 <= j < i ==> (#[trigger] entries@[j])@ == sent_update(updates@[j]@),
        decreases updates.len() - i,
    {
        entries.push(entry_of(&updates[i]));
        i += 1;
    }
    assert(maps::views(entries@) =~= sent_updates(maps::views(updates@)));
    entries
}

fn copy_proto_addr(p: &ProtoSiloAddress) -> (copy: ProtoSiloAddress)
    ensures
        copy@ == p@,
{
    ProtoSiloAddress { host: p.host.clone(), port: p.port, silo_id: p.silo_id.clone() }
}

fn update_of(entry: &GossipEntry) -> (update: Option<GossipUpdate>)
    ensures
        match update {
            Some(u) => received_update(entry@) == Some(u@),
            None => received_update(entry@) is None,
        },
{
    let addr = match &entry.silo {
        Some(silo) => from_proto_addr(copy_proto_addr(silo)),
        None => {
            return None;
        },
    };
    if entry.update_type == 0 {
        Some(GossipUpdate::Alive { addr, incarnation: entry.incarnation })
    } else if entry.update_type == 1 {
        Some(
            GossipUpdate::Suspect {
                addr,
                incarnation: entry.incarnation,
                reported_by: entry.reported_by.clone(),
            },
        )
    } else if entry.update_type == 2 {
        Some(GossipUpdate::Dead { addr, incarnation: entry.incarnation })
    } else if entry.update_type == 3 {
        Some(GossipUpdate::Join { addr })
    } else {
        None
    }
}

/// The news among what is received, in its order.
pub fn proto_to_gossip(entries: &Vec<GossipEntry>) -> (updates: Vec<GossipUpdate>)
    ensures
        maps::views(updates@) == received_updates(maps::views(entries@)),
{
    let mut updates: Vec<GossipUpdate> = Vec::new();
    let ghost all = maps::views(entries@);
    let mut i: usize = 0;
    proof {
        assert(all.take(0) =~= Seq::<GossipEntryView>::empty());
        assert(maps::views(updates@) =~= Seq::<GossipUpdateView>::empty());
    }
    while i < entries.len()
        invariant
            i <= entries.len(),
            all == maps::views(entries@),
            maps::views(updates@) == received_updates(all.take(i as int)),
        decreases entries.len() - i,
    {
        proof {
            assert(all[i as int] == entries@[i as int]@);
            assert(all.take(i + 1).drop_last() =~= all.take(i as int));
            assert(all.take(i + 1).last() == all[i as int]);
        }
        if let Some(update) = update_of(&entries[i]) {
            let ghost before = updates@;
            let ghost u = update@;
            updates.push(update);
            assert(maps::views(updates@) =~= maps::views(before).push(u));
        }
        i += 1;
    }
    assert(all.take(i as int) =~= all);
    updates
}

/// A silo's address survives the trip over the wire.
pub proof fn addresses_survive_the_wire(addr: SiloAddressView)
    ensures
        received_addr(sent_addr(addr)) == addr,
{
    let port: u16 = addr.port;
    assert(((port as u32) % 0x1_0000) as u16 == port) by (bit_vector);
}

/// News survives the trip over the wire, in its order.
pub proof fn gossip_survives_the_wire(updates: Seq<GossipUpdateView>)
    ensures
        received_updates(sent_updates(updates)) == updates,
    decreases updates.len(),
{
    if updates.len() > 0 {
        let rest = updates.drop_last();
        gossip_survives_the_wire(rest);
        addresses_survive_the_wire(updates.last().about());
        assert(sent_updates(updates).drop_last() =~= sent_updates(rest));
        assert(sent_updates(updates).last() == sent_update(updates.last()));
        assert(received_update(sent_update(updates.last())) == Some(updates.last()));
        assert(updates =~= rest.push(updates.last()));
    } else {
        assert(updates =~= Seq::<GossipUpdateView>::empty());
    }
}

/// News never lowers an incarnation: neither this silo's own nor that of a member that
/// stays known.
pub proof fn incarnations_never_fall(
    world: GossipWorld,
    update: GossipUpdateView,
    now: Instant,
    id: Seq<char>,
)
    requires
        !irrefutable(update, world.swim.local_addr.silo_id),
    ensures
        world.after(update, now).swim.local_incarnation >= world.swim.local_incarnation,
        world.swim.members.dom().contains(id) && world.after(
            update,
            now,
        ).swim.members.dom().contains(id) ==> world.after(update, now).swim.members[id].incarnation
            >= world.swim.members[id].incarnation,
{
}

/// A silo that is suspected answers with a higher incarnation, and no news makes it leave
/// its own ring.
pub proof fn suspicion_of_oneself_is_refuted(
    world: GossipWorld,
    update: GossipUpdateView,
    now: Instant,
)
    requires
        update.about().silo_id == world.swim.local_addr.silo_id,
        !irrefutable(update, world.swim.local_addr.silo_id),
    ensures
        ({
            let after = world.after(update, now);
            &&& after.ring == world.ring
            &&& after.swim.members == world.swim.members
            &&& update matches GossipUpdateView::Suspect { incarnation, .. } ==> {
                &&& after.swim.local_incarnation > incarnation
                &&& incarnation >= world.swim.local_incarnation ==> after.swim.pending.len() > 0
                    && after.swim.pending.last() == (GossipUpdateView::Alive {
                    addr: world.swim.local_addr,
                    incarnation: after.swim.local_incarnation,
                })
            }
        }),
{
}

/// News that is older than what is known changes nothing.
pub proof fn stale_news_is_ignored(world: GossipWorld, update: GossipUpdateView, now: Instant)
    requires
        world.swim.members.dom().contains(update.about().silo_id),
        match update {
            GossipUpdateView::Alive { addr, incarnation } => incarnation
                <= world.swim.members[addr.silo_id].incarnation,
            GossipUpdateView::Suspect { addr, incarnation, .. } => incarnation
                < world.swim.members[addr.silo_id].incarnation,
            GossipUpdateView::Dead { addr, incarnation } => incarnation
                < world.swim.members[addr.silo_id].incarnation,
            GossipUpdateView::Join { .. } => true,
        },
        update.about().silo_id != world.swim.local_addr.silo_id,
    ensures
        world.after(update, now) == world,
{
}

/// A member that is reported dead is neither known nor on the ring any more, and no key
/// maps to it; one that joins is both known and on the ring.
pub proof fn ring_follows_membership(
    world: GossipWorld,
    update: GossipUpdateView,
    now: Instant,
    key: Seq<char>,
)
    requires
        world.ring.placed(),
        update.about().silo_id != world.swim.local_addr.silo_id,
    ensures
        ({
            let id = update.about().silo_id;
            let after = world.after(update, now);
            &&& update is Dead && after != world ==> {
                &&& !after.swim.members.dom().contains(id)
                &&& (after.ring.owner(key) matches Some(owner) ==> owner.silo_id != id)
                &&& after.changes == world.changes.push(
                    MembershipChangeView::SiloLeft(update.about()),
                )
            }
            &&& update is Join && !world.swim.members.dom().contains(id) ==> {
                &&& after.swim.members.dom().contains(id)
                &&& after.swim.members[id] == SwimMemberView::joined(update.about())
                &&& after.ring == world.ring.with(update.about())
            }
        }),
{
    hash_ring::removed_silo_owns_nothing(world.ring, update.about().silo_id);
}

/// Each member stays under its own identity, whatever the news and however members are
/// suspected or die.
pub proof fn members_stay_keyed(
    world: GossipWorld,
    update: GossipUpdateView,
    now: Instant,
    silo_id: Seq<char>,
)
    requires
        world.swim.keyed(),
    ensures
        world.after(update, now).swim.keyed(),
        world.swim.suspecting(silo_id, now).keyed(),
        world.swim.believing_alive(silo_id).keyed(),
        world.without_member(silo_id).swim.keyed(),
{
}

/// A silo stays on its own ring through all news, whatever positions others take or free,
/// where no other silo shares a position with it.
pub proof fn local_silo_keeps_its_positions(
    world: GossipWorld,
    update: GossipUpdateView,
    now: Instant,
    p: u64,
)
    requires
        world.ring.slots.dom().contains(p),
        world.ring.slots[p].silo_id == world.swim.local_addr.silo_id,
        update.about().silo_id != world.swim.local_addr.silo_id ==> !world.ring.positions(
            update.about().silo_id,
        ).contains(p),
    ensures
        world.after(update, now).ring.slots.dom().contains(p),
        world.after(update, now).ring.slots[p] == world.ring.slots[p],
{
}

/// Declaring members dead removes exactly them from what is known.
pub proof fn only_the_declared_die(world: GossipWorld, silo_ids: Seq<Seq<char>>, id: Seq<char>)
    ensures
        world.without_members(silo_ids).swim.members.dom().contains(id) <==> (
        world.swim.members.dom().contains(id) && !silo_ids.contains(id)),
        !silo_ids.contains(id) ==> world.without_members(silo_ids).swim.members[id]
            == world.swim.members[id],
    decreases silo_ids.len(),
{
    if silo_ids.len() > 0 {
        let rest = silo_ids.drop_last();
        only_the_declared_die(world, rest, id);
        if silo_ids.contains(id) {
            let i = silo_ids.index_of(id);
            if i < rest.len() {
                assert(rest[i] == id);
            }
        }
        if rest.contains(id) {
            assert(silo_ids[rest.index_of(id)] == id);
        }
        assert(silo_ids[silo_ids.len() - 1] == silo_ids.last());
    }
}

/// Expiry removes exactly the members that have been suspected for longer than the timeout.
pub proof fn expiry_removes_the_overdue(
    world: GossipWorld,
    now: Instant,
    timeout: nat,
    id: Seq<char>,
)
    requires
        world.swim.members.dom().finite(),
    ensures
        world.without_members(world.swim.overdue_members(now, timeout)).swim.members.dom().contains(
            id,
        ) <==> (world.swim.members.dom().contains(id) && !world.swim.overdue(id, now, timeout)),
{
    let all = maps::in_text_order(world.swim.members.dom());
    let keep = |k: Seq<char>| world.swim.overdue(k, now, timeout);
    let dead = world.swim.overdue_members(now, timeout);
    only_the_declared_die(world, dead, id);
    maps::lemma_text_order_is_complete(world.swim.members.dom());
    maps::lemma_filter_distinct(all, keep);
    if world.swim.members.dom().contains(id) && world.swim.overdue(id, now, timeout) {
        let i = all.index_of(id);
        all.lemma_filter_contains(keep, i);
    }
    if dead.contains(id) {
        assert(all.filter(keep).contains(id));
    }
}

/// News of a higher incarnation clears a suspicion.
pub proof fn alive_news_clears_suspicion(
    world: GossipWorld,
    addr: SiloAddressView,
    incarnation: u64,
    now: Instant,
)
    requires
        addr.silo_id != world.swim.local_addr.silo_id,
        world.swim.members.dom().contains(addr.silo_id),
        incarnation > world.swim.members[addr.silo_id].incarnation,
    ensures
        ({
            let after = world.after(GossipUpdateView::Alive { addr, incarnation }, now);
            after.swim.members[addr.silo_id].status is Alive
                && after.swim.members[addr.silo_id].incarnation == incarnation
        }),
{
}

proof fn lemma_slots_after_deaths(
    world: GossipWorld,
    silo_ids: Seq<Seq<char>>,
    id: Seq<char>,
    p: u64,
)
    requires
        world.swim.keyed(),
        world.without_members(silo_ids).ring.slots.dom().contains(p),
    ensures
        world.without_members(silo_ids).swim.keyed(),
        world.ring.slots.dom().contains(p),
        world.without_members(silo_ids).ring.slots[p] == world.ring.slots[p],
        world.without_members(silo_ids).ring.virtual_nodes == world.ring.virtual_nodes,
        silo_ids.contains(id) && world.swim.members.dom().contains(id) ==> !world.ring.positions(
            id,
        ).contains(p),
    decreases silo_ids.len(),
{
    if silo_ids.len() > 0 {
        let rest = silo_ids.drop_last();
        let last = silo_ids.last();
        let before = world.without_members(rest);
        lemma_slots_after_deaths(world, rest, id, p);
        only_the_declared_die(world, rest, id);
        only_the_declared_die(world, rest, last);
        if silo_ids.contains(id) && world.swim.members.dom().contains(id) {
            if !rest.contains(id) {
                let i = silo_ids.index_of(id);
                if i < rest.len() {
                    assert(rest[i] == id);
                }
                assert(last == id);
                assert(before.swim.members.dom().contains(id));
                assert(before.swim.members[id].addr.silo_id == id);
            }
        }
    }
}

/// Once members are declared dead, no key maps to any of them.
pub proof fn the_dead_own_nothing(
    world: GossipWorld,
    silo_ids: Seq<Seq<char>>,
    id: Seq<char>,
    key: Seq<char>,
)
    requires
        world.swim.keyed(),
        world.ring.placed(),
        silo_ids.contains(id),
        world.swim.members.dom().contains(id),
    ensures
        world.without_members(silo_ids).ring.owner(key) matches Some(owner) ==> owner.silo_id
            != id,
{
    let after = world.without_members(silo_ids);
    if !after.ring.is_empty() {
        hash_ring::owner_is_first_met(after.ring, key);
        let p = after.ring.owner_slot(key);
        lemma_slots_after_deaths(world, silo_ids, id, p);
    }
}

/// A piece of news touches no member but the one that it is about, and announces exactly
/// whether that one joined or left.
pub proof fn news_touches_one_member(
    world: GossipWorld,
    update: GossipUpdateView,
    now: Instant,
    id: Seq<char>,
)
    ensures
        world.after(update, now).changes == world.changes + world.announces(update, now),
        id != update.about().silo_id ==> {
            &&& world.after(update, now).swim.members.dom().contains(id)
                == world.swim.members.dom().contains(id)
            &&& world.after(update, now).swim.members[id] == world.swim.members[id]
        },
{
    assert(world.after(update, now).changes =~= world.changes + world.announces(update, now));
}

proof fn lemma_in_step(
    world: GossipWorld,
    update: GossipUpdateView,
    now: Instant,
    ids: Set<Seq<char>>,
)
    requires
        world.in_step(),
        world.ring.placed(),
        world.ring.virtual_nodes > 0,
        hash_ring::labels_apart(ids, world.ring.virtual_nodes as nat),
        world.swim.members.dom().insert(world.swim.local_addr.silo_id).subset_of(ids),
        ids.contains(update.about().silo_id),
    ensures
        world.after(update, now).in_step(),
        world.after(update, now).ring.placed(),
        world.after(update, now).ring.virtual_nodes == world.ring.virtual_nodes,
        world.after(update, now).swim.local_addr == world.swim.local_addr,
        world.after(update, now).swim.members.dom().insert(
            world.swim.local_addr.silo_id,
        ).subset_of(ids),
{
    let after = world.after(update, now);
    let local = world.swim.local_addr.silo_id;
    let id = update.about().silo_id;
    hash_ring::only_the_named_identity_changes(world.ring, update.about(), ids);
    hash_ring::placement_is_kept(world.ring, update.about());
    if after.ring == world.ring {
        assert(after.swim.members.dom() =~= world.swim.members.dom());
    } else if update is Dead {
        assert(after.swim.members.dom() =~= world.swim.members.dom().remove(id));
        assert(world.swim.members.dom().insert(local).remove(id)
            =~= after.swim.members.dom().insert(local));
    } else {
        assert(after.swim.members.dom() =~= world.swim.members.dom().insert(id));
        assert(world.swim.members.dom().insert(local).insert(id)
            =~= after.swim.members.dom().insert(local));
    }
}

proof fn lemma_news_keeps_step(
    world: GossipWorld,
    updates: Seq<GossipUpdateView>,
    now: Instant,
    ids: Set<Seq<char>>,
)
    requires
        world.in_step(),
        world.ring.placed(),
        world.ring.virtual_nodes > 0,
        hash_ring::labels_apart(ids, world.ring.virtual_nodes as nat),
        world.heard_of(updates).subset_of(ids),
    ensures
        world.after_all(updates, now).in_step(),
        world.after_all(updates, now).ring.placed(),
        world.after_all(updates, now).ring.virtual_nodes == world.ring.virtual_nodes,
        world.after_all(updates, now).swim.local_addr == world.swim.local_addr,
        world.after_all(updates, now).swim.members.dom().insert(
            world.swim.local_addr.silo_id,
        ).subset_of(ids),
        world.after_all(updates, now).changes == world.changes + world.announces_all(updates, now),
    decreases updates.len(),
{
    let local = world.swim.local_addr.silo_id;
    if updates.len() == 0 {
        assert forall|id: Seq<char>|
            world.swim.members.dom().insert(local).contains(id) implies ids.contains(id) by {
            assert(world.heard_of(updates).contains(id));
        }
        assert(world.changes =~= world.changes + world.announces_all(updates, now));
    } else {
        let rest = updates.drop_last();
        assert forall|id: Seq<char>| world.heard_of(rest).contains(id) implies ids.contains(id) by {
            if exists|i: int| 0 <= i < rest.len() && (#[trigger] rest[i]).about().silo_id == id {
                let i = choose|i: int|
                    0 <= i < rest.len() && (#[trigger] rest[i]).about().silo_id == id;
                assert(updates[i].about().silo_id == id);
            }
            assert(world.heard_of(updates).contains(id));
        }
        lemma_news_keeps_step(world, rest, now, ids);
        let last = updates.last();
        assert(updates[updates.len() - 1].about().silo_id == last.about().silo_id);
        assert(world.heard_of(updates).contains(last.about().silo_id));
        lemma_in_step(world.after_all(rest, now), last, now, ids);
        news_touches_one_member(world.after_all(rest, now), last, now, local);
        assert(world.after_all(updates, now).changes =~= world.changes + world.announces_all(
            updates,
            now,
        ));
    }
}

/// Whatever the news, the silos on the ring stay exactly the members and this silo, which
/// stays on its ring and never becomes a member of its own; and what is announced is, in the
/// order of the news, each silo that joined and each that left, and nothing else.
pub proof fn ring_holds_the_members_after_all_news(
    world: GossipWorld,
    updates: Seq<GossipUpdateView>,
    now: Instant,
)
    requires
        world.in_step(),
        world.ring.placed(),
        world.ring.virtual_nodes > 0,
        hash_ring::labels_apart(world.heard_of(updates), world.ring.virtual_nodes as nat),
    ensures
        ({
            let after = world.after_all(updates, now);
            let local = world.swim.local_addr.silo_id;
            &&& after.in_step()
            &&& after.swim.local_addr == world.swim.local_addr
            &&& after.ring.silo_ids().contains(local)
            &&& !after.swim.members.dom().contains(local)
            &&& after.ring.placed()
            &&& after.changes == world.changes + world.announces_all(updates, now)
        }),
{
    lemma_news_keeps_step(world, updates, now, world.heard_of(updates));
}

/// However members are suspected, believed alive or declared dead, the silos on the ring stay
/// exactly the members and this silo.
pub proof fn ring_holds_the_members_after_deaths(
    world: GossipWorld,
    silo_ids: Seq<Seq<char>>,
    silo_id: Seq<char>,
    now: Instant,
)
    requires
        world.in_step(),
        world.swim.keyed(),
        world.ring.placed(),
        world.ring.virtual_nodes > 0,
        hash_ring::labels_apart(world.heard_of(Seq::empty()), world.ring.virtual_nodes as nat),
    ensures
        (GossipWorld { swim: world.swim.suspecting(silo_id, now), ..world }).in_step(),
        (GossipWorld { swim: world.swim.believing_alive(silo_id), ..world }).in_step(),
        world.without_members(silo_ids).in_step(),
        world.without_members(silo_ids).swim.keyed(),
        world.without_members(silo_ids).swim.local_addr == world.swim.local_addr,
        world.without_members(silo_ids).ring.placed(),
        world.without_members(silo_ids).ring.virtual_nodes == world.ring.virtual_nodes,
    decreases silo_ids.len(),
{
    let local = world.swim.local_addr.silo_id;
    let ids = world.heard_of(Seq::empty());
    assert(world.swim.suspecting(silo_id, now).members.dom() =~= world.swim.members.dom());
    assert(world.swim.believing_alive(silo_id).members.dom() =~= world.swim.members.dom());
    if silo_ids.len() > 0 {
        let rest = silo_ids.drop_last();
        ring_holds_the_members_after_deaths(world, rest, silo_id, now);
        let before = world.without_members(rest);
        let after = world.without_members(silo_ids);
        let id = silo_ids.last();
        if before.swim.members.dom().contains(id) {
            let addr = before.swim.members[id].addr;
            assert forall|k: Seq<char>| before.ring.silo_ids().contains(k) implies ids.contains(
                k,
            ) by {
                only_the_declared_die(world, rest, k);
                assert(before.swim.members.dom().insert(local).contains(k));
            }
            only_the_declared_die(world, rest, id);
            hash_ring::only_the_named_identity_changes(before.ring, addr, ids);
            hash_ring::placement_is_kept(before.ring, addr);
            assert(after.swim.members.dom() =~= before.swim.members.dom().remove(id));
            assert(before.swim.members.dom().insert(local).remove(id)
                =~= after.swim.members.dom().insert(local));
        }
    }
}

/// News that suspects another member which is believed alive, at an incarnation at least the one
/// known, makes it suspected since now, as its reporter said and at that incarnation. It stays
/// where it is, a member and on the ring, and nobody else is touched. Other suspicions of a
/// member change nothing.
pub proof fn suspicion_spreads(
    world: GossipWorld,
    addr: SiloAddressView,
    incarnation: u64,
    reported_by: Seq<char>,
    now: Instant,
)
    requires
        addr.silo_id != world.swim.local_addr.silo_id,
    ensures
        ({
            let id = addr.silo_id;
            let was = world.swim.members[id];
            let after = world.after(
                GossipUpdateView::Suspect { addr, incarnation, reported_by },
                now,
            );
            &&& if world.swim.members.dom().contains(id) && was.status is Alive && incarnation
                >= was.incarnation {
                &&& after.swim.members.dom() == world.swim.members.dom()
                &&& after.swim.members[id].status == (MemberStatusView::Suspect {
                    since: now,
                    reported_by,
                })
                &&& after.swim.members[id].incarnation == incarnation
                &&& after.swim.members[id].addr == was.addr
            } else {
                after.swim == world.swim
            }
            &&& after.ring == world.ring
            &&& after.pool == world.pool
            &&& after.changes == world.changes
            &&& after.swim.pending == world.swim.pending
            &&& after.swim.local_incarnation == world.swim.local_incarnation
        }),
{
    let id = addr.silo_id;
    let after = world.after(GossipUpdateView::Suspect { addr, incarnation, reported_by }, now);
    if world.swim.members.dom().contains(id) {
        assert(after.swim.members.dom() =~= world.swim.members.dom());
    }
}

/// News that a member is alive counts where its incarnation is higher than the one known: the
/// member is then alive at that incarnation, where it is. Nothing else changes, and a silo that
/// is not a member does not become one by it.
pub proof fn alive_news_counts_at_a_higher_incarnation(
    world: GossipWorld,
    addr: SiloAddressView,
    incarnation: u64,
    now: Instant,
)
    requires
        addr.silo_id != world.swim.local_addr.silo_id,
    ensures
        ({
            let id = addr.silo_id;
            let was = world.swim.members[id];
            let after = world.after(GossipUpdateView::Alive { addr, incarnation }, now);
            &&& if world.swim.members.dom().contains(id) && incarnation > was.incarnation {
                &&& after.swim.members.dom() == world.swim.members.dom()
                &&& after.swim.members[id].status is Alive
                &&& after.swim.members[id].incarnation == incarnation
                &&& after.swim.members[id].addr == was.addr
            } else {
                after.swim == world.swim
            }
            &&& after.ring == world.ring
            &&& after.pool == world.pool
            &&& after.changes == world.changes
            &&& after.swim.pending == world.swim.pending
        }),
{
    let id = addr.silo_id;
    let after = world.after(GossipUpdateView::Alive { addr, incarnation }, now);
    if world.swim.members.dom().contains(id) {
        assert(after.swim.members.dom() =~= world.swim.members.dom());
    }
}

/// News that a member died, at an incarnation at least the one known, ends its membership: it is
/// forgotten, its positions on the ring are free, no connection to it is kept, and it is
/// announced to have left. Other news of a death changes nothing.
pub proof fn deaths_end_a_membership(
    world: GossipWorld,
    addr: SiloAddressView,
    incarnation: u64,
    now: Instant,
    service: Service,
    p: u64,
)
    requires
        addr.silo_id != world.swim.local_addr.silo_id,
    ensures
        ({
            let id = addr.silo_id;
            let after = world.after(GossipUpdateView::Dead { addr, incarnation }, now);
            if world.swim.members.dom().contains(id) && incarnation
                >= world.swim.members[id].incarnation {
                &&& !after.swim.members.dom().contains(id)
                &&& after.ring.slots.dom().contains(p) <==> world.ring.slots.dom().contains(p)
                    && !world.ring.positions(id).contains(p)
                &&& after.ring.slots.dom().contains(p) ==> after.ring.slots[p]
                    == world.ring.slots[p]
                &&& !after.pool.open(service).dom().contains(
                    addr.host + seq![':'] + crate::text::decimal(addr.port as nat),
                )
                &&& after.changes == world.changes.push(MembershipChangeView::SiloLeft(addr))
            } else {
                after == world
            }
        }),
{
}

/// News that a silo joined makes it a member, alive and at incarnation zero, at the address that
/// the news gives; it takes its positions on the ring, and is announced. A silo that is a member
/// already does not join again.
pub proof fn joins_begin_a_membership(
    world: GossipWorld,
    addr: SiloAddressView,
    now: Instant,
    p: u64,
)
    requires
        addr.silo_id != world.swim.local_addr.silo_id,
    ensures
        ({
            let id = addr.silo_id;
            let after = world.after(GossipUpdateView::Join { addr }, now);
            if world.swim.members.dom().contains(id) {
                after == world
            } else {
                &&& after.swim.members.dom().contains(id)
                &&& after.swim.members[id].addr == addr
                &&& after.swim.members[id].status is Alive
                &&& after.swim.members[id].incarnation == 0
                &&& world.ring.positions(id).contains(p) ==> after.ring.slots.dom().contains(p)
                    && after.ring.slots[p] == addr
                &&& !world.ring.positions(id).contains(p) ==> after.ring.slots.dom().contains(p)
                    == world.ring.slots.dom().contains(p)
                &&& after.pool == world.pool
                &&& after.changes == world.changes.push(MembershipChangeView::SiloJoined(addr))
            }
        }),
{
}

/// News about this silo itself changes nothing but that a suspicion at its own incarnation or a
/// higher one is answered with an incarnation above it, which is told on.
pub proof fn only_suspicion_of_oneself_is_answered(
    world: GossipWorld,
    update: GossipUpdateView,
    now: Instant,
)
    requires
        update.about().silo_id == world.swim.local_addr.silo_id,
        !irrefutable(update, world.swim.local_addr.silo_id),
    ensures
        ({
            let after = world.after(update, now);
            match update {
                GossipUpdateView::Suspect { incarnation, .. } if incarnation
                    >= world.swim.local_incarnation => {
                    &&& after.swim.local_incarnation == incarnation + 1
                    &&& after.swim.pending == world.swim.pending.push(
                        GossipUpdateView::Alive {
                            addr: world.swim.local_addr,
                            incarnation: after.swim.local_incarnation,
                        },
                    )
                    &&& after.swim.members == world.swim.members
                    &&& after.swim.local_addr == world.swim.local_addr
                    &&& after.ring == world.ring && after.pool == world.pool && after.changes
                        == world.changes
                },
                _ => after == world,
            }
        }),
{
}

/// A member that does not answer becomes suspected by this silo since now, where it was believed
/// alive, and that is told on; one that is suspected stays so since when it was. One that
/// answers is believed alive. Neither changes anybody's address or incarnation.
pub proof fn probes_change_what_is_believed(
    swim: SwimStateView,
    id: Seq<char>,
    other: Seq<char>,
    now: Instant,
)
    requires
        swim.members.dom().contains(id),
        other != id,
    ensures
        ({
            let was = swim.members[id];
            let silent = swim.suspecting(id, now);
            let heard = swim.believing_alive(id);
            &&& heard.members[id].status is Alive
            &&& heard.members[id].addr == was.addr && heard.members[id].incarnation
                == was.incarnation
            &&& heard.pending == swim.pending
            &&& if was.status is Alive {
                &&& silent.members[id].status == (MemberStatusView::Suspect {
                    since: now,
                    reported_by: swim.local_addr.silo_id,
                })
                &&& silent.members[id].addr == was.addr && silent.members[id].incarnation
                    == was.incarnation
                &&& silent.pending == swim.pending.push(
                    GossipUpdateView::Suspect {
                        addr: was.addr,
                        incarnation: was.incarnation,
                        reported_by: swim.local_addr.silo_id,
                    },
                )
            } else {
                silent == swim
            }
            &&& silent.members.dom().contains(other) == swim.members.dom().contains(other)
                && silent.members[other] == swim.members[other]
            &&& heard.members.dom().contains(other) == swim.members.dom().contains(other)
                && heard.members[other] == swim.members[other]
        }),
{
}

/// A member is overdue where it is suspected and was first suspected longer ago than the
/// timeout; one that is believed alive never is.
pub proof fn only_long_suspected_members_are_overdue(
    swim: SwimStateView,
    id: Seq<char>,
    now: Instant,
    timeout: nat,
)
    ensures
        match swim.members[id].status {
            MemberStatusView::Alive => !swim.overdue(id, now, timeout),
            MemberStatusView::Suspect { since, .. } => swim.overdue(id, now, timeout)
                <==> now.nanos > since.nanos + timeout,
        },
{
}

/// A member that is declared dead is forgotten and off the ring, no connection to it is kept, it
/// is announced to have left, and its death is told on at its last incarnation.
pub proof fn declared_deaths_are_told_on(
    world: GossipWorld,
    id: Seq<char>,
    service: Service,
    p: u64,
)
    requires
        world.swim.keyed(),
    ensures
        ({
            let member = world.swim.members[id];
            let after = world.without_member(id);
            if world.swim.members.dom().contains(id) {
                &&& !after.swim.members.dom().contains(id)
                &&& after.swim.pending == world.swim.pending.push(
                    GossipUpdateView::Dead { addr: member.addr, incarnation: member.incarnation },
                )
                &&& after.changes == world.changes.push(
                    MembershipChangeView::SiloLeft(member.addr),
                )
                &&& after.ring.slots.dom().contains(p) <==> world.ring.slots.dom().contains(p)
                    && !world.ring.positions(id).contains(p)
                &&& !after.pool.open(service).dom().contains(
                    member.addr.host + seq![':'] + crate::text::decimal(member.addr.port as nat),
                )
            } else {
                after == world
            }
        }),
{
}

/// News is sent with each of its fields, and its kind by number: alive, suspected, dead and
/// joined are numbered from zero in this order. An address is sent with each of its fields, and
/// read back with the low 16 bits of its port.
pub proof fn news_is_sent_by_number(
    addr: SiloAddressView,
    incarnation: u64,
    reported_by: Seq<char>,
    told: ProtoSiloAddressView,
)
    ensures
        sent_addr(addr).host == addr.host,
        sent_addr(addr).port == addr.port,
        sent_addr(addr).silo_id == addr.silo_id,
        received_addr(told).host == told.host,
        received_addr(told).port == told.port % 65536,
        received_addr(told).silo_id == told.silo_id,
        ({
            let alive = sent_update(GossipUpdateView::Alive { addr, incarnation });
            let suspect = sent_update(GossipUpdateView::Suspect { addr, incarnation, reported_by });
            let dead = sent_update(GossipUpdateView::Dead { addr, incarnation });
            let join = sent_update(GossipUpdateView::Join { addr });
            &&& alive.update_type == 0 && suspect.update_type == 1 && dead.update_type == 2
                && join.update_type == 3
            &&& alive.silo == Some(sent_addr(addr)) && suspect.silo == Some(sent_addr(addr))
                && dead.silo == Some(sent_addr(addr)) && join.silo == Some(sent_addr(addr))
            &&& alive.incarnation == incarnation && suspect.incarnation == incarnation
                && dead.incarnation == incarnation
            &&& join.incarnation == 0
            &&& suspect.reported_by == reported_by
            &&& alive.reported_by.len() == 0 && dead.reported_by.len() == 0
                && join.reported_by.len() == 0
        }),
{
    let port: u32 = told.port;
    assert((port % 0x1_0000) as u16 == port % 65536) by (bit_vector);
}

/// News is read in the order in which it came; an entry gives the news of its kind, with the
/// fields that it has, and nothing where it names no silo or no known kind.
pub proof fn news_is_read_in_order(
    one: Seq<GossipEntryView>,
    other: Seq<GossipEntryView>,
    entry: GossipEntryView,
    silo: ProtoSiloAddressView,
)
    requires
        entry.silo is Some ==> entry.silo == Some(silo),
    ensures
        received_updates(one + other) == received_updates(one) + received_updates(other),
        ({
            let addr = received_addr(silo);
            let incarnation = entry.incarnation;
            let reported_by = entry.reported_by;
            received_updates(seq![entry]) == (if entry.silo is None {
                Seq::empty()
            } else if entry.update_type == 0 {
                seq![GossipUpdateView::Alive { addr, incarnation }]
            } else if entry.update_type == 1 {
                seq![GossipUpdateView::Suspect { addr, incarnation, reported_by }]
            } else if entry.update_type == 2 {
                seq![GossipUpdateView::Dead { addr, incarnation }]
            } else if entry.update_type == 3 {
                seq![GossipUpdateView::Join { addr }]
            } else {
                Seq::empty()
            })
        }),
    decreases other.len(),
{
    assert(seq![entry].drop_last() =~= Seq::<GossipEntryView>::empty());
    assert(received_updates(Seq::<GossipEntryView>::empty()) =~= Seq::<GossipUpdateView>::empty());
    if other.len() == 0 {
        assert(one + other =~= one);
        assert(received_updates(one) + received_updates(other) =~= received_updates(one));
    } else {
        news_is_read_in_order(one, other.drop_last(), entry, silo);
        assert((one + other).drop_last() =~= one + other.drop_last());
        assert((one + other).last() == other.last());
        assert(received_updates(one + other) =~= received_updates(one) + received_updates(other));
    }
}

/// News leaves from the oldest on, as much as is asked for or as there is. What leaves and what
/// stays are what there was, in its order; what is believed of members stays.
pub proof fn news_leaves_in_order(state: SwimStateView, n: usize)
    ensures
        ({
            let (sent, after) = state.drained(n);
            &&& sent + after.pending == state.pending
            &&& sent.len() <= n
            &&& sent.len() < n ==> after.pending.len() == 0
            &&& after.members == state.members
            &&& after.local_incarnation == state.local_incarnation
            &&& after.local_addr == state.local_addr
        }),
{
    let (sent, after) = state.drained(n);
    assert(sent + after.pending =~= state.pending);
}

} // verus!
