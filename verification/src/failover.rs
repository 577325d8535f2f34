//! Taking over the grains of a cluster that no longer answers.

use vstd::prelude::*;

use crate::cross_cluster_directory;
use crate::cross_cluster_directory::{
    CrossClusterDirectory, DirectoryError, Entries, GrainOwnership, InMemoryCrossClusterDirectory,
    OwnedGrainView,
};
use crate::grain::{ClusterId, GrainId, GrainIdView};
use crate::maps;
use crate::maps::{Duplicate, StrMap};
use crate::multi_cluster::PeerStatus;
use crate::time;
use crate::time::{Duration, Instant, SystemTime};

verus! {

/// How far the takeover of a peer cluster has come.
#[derive(Clone, Copy, Debug, PartialEq, Eq, Structural)]
pub enum FailoverPhase {
    /// The peer answers.
    Monitoring,
    /// The peer stopped answering; the grace period runs.
    PrimaryUnreachable { since: Instant },
    /// The grace period is over; the peer's grains are to be taken over, as far as they were
    /// not yet.
    Promoting,
    /// The peer's grains were all taken over, those claimed last at most at that epoch.
    Promoted { epoch: u64 },
}

impl View for FailoverPhase {
    type V = FailoverPhase;

    open spec fn view(&self) -> FailoverPhase {
        *self
    }
}

impl Duplicate for FailoverPhase {
    fn duplicate(&self) -> (copy: Self) {
        *self
    }
}

/// How takeovers are paced.
#[derive(Clone, Debug, PartialEq, Eq)]
pub struct FailoverConfig {
    /// How long a peer may be unreachable before its grains are taken over.
    pub grace_period: Duration,
    /// How often the peers are looked at.
    pub check_interval: Duration,
}

impl Default for FailoverConfig {
    fn default() -> (config: Self)
        ensures
            config.grace_period@ == 30 * time::NANOS_PER_SEC,
            config.check_interval@ == 5 * time::NANOS_PER_SEC,
    {
        FailoverConfig {
            grace_period: Duration::from_secs(30),
            check_interval: Duration::from_secs(5),
        }
    }
}

/// The phase of a peer after it was looked at.
pub open spec fn next_phase(
    status: PeerStatus,
    phase: FailoverPhase,
    now: Instant,
    grace_period: nat,
) -> FailoverPhase {
    match (status, phase) {
        (PeerStatus::Healthy, _) => FailoverPhase::Monitoring,
        (PeerStatus::Unreachable, FailoverPhase::Monitoring) => FailoverPhase::PrimaryUnreachable {
            since: now,
        },
        (PeerStatus::Unreachable, FailoverPhase::PrimaryUnreachable { since }) => if now.since(
            since,
        ) >= grace_period {
            FailoverPhase::Promoting
        } else {
            phase
        },
        _ => phase,
    }
}

/// Whether a peer's grains are to be taken over when it is looked at.
pub open spec fn takes_over(status: PeerStatus, phase: FailoverPhase) -> bool {
    status is Unreachable && phase is Promoting
}

/// What came of taking a cluster's grains over.
#[derive(Clone, Copy, Debug, PartialEq, Eq, Structural)]
pub struct SweepTally {
    /// The highest epoch at which a grain was taken over; zero where none was.
    pub max_epoch: u64,
    /// Grains taken over.
    pub promoted: usize,
    /// Grains that another cluster holds at that epoch or a later one.
    pub lost: usize,
    /// Grains on which the directory failed.
    pub failed: usize,
}

impl SweepTally {
    pub fn new() -> (tally: SweepTally)
        ensures
            tally == (SweepTally { max_epoch: 0, promoted: 0, lost: 0, failed: 0 }),
    {
        SweepTally { max_epoch: 0, promoted: 0, lost: 0, failed: 0 }
    }

    /// The tally with the outcome of one more grain.
    pub open spec fn with(
        self,
        local_cluster_id: Seq<char>,
        outcome: Result<GrainOwnership, DirectoryError>,
    ) -> SweepTally {
        match outcome {
            Ok(owner) => if owner@.cluster_id == local_cluster_id {
                SweepTally {
                    promoted: (self.promoted + 1) as usize,
                    max_epoch: if owner.epoch > self.max_epoch {
                        owner.epoch
                    } else {
                        self.max_epoch
                    },
                    ..self
                }
            } else {
                SweepTally { lost: (self.lost + 1) as usize, ..self }
            },
            Err(_) => SweepTally { failed: (self.failed + 1) as usize, ..self },
        }
    }

    /// Counts the outcome of one grain.
    pub fn record(
        &mut self,
        local_cluster_id: &ClusterId,
        outcome: &Result<GrainOwnership, DirectoryError>,
    )
        requires
            old(self).promoted < usize::MAX,
            old(self).lost < usize::MAX,
            old(self).failed < usize::MAX,
        ensures
            *final(self) == old(self).with(local_cluster_id@, *outcome),
    {
        match outcome {
            Ok(owner) => {
                if owner.cluster_id.same(local_cluster_id) {
                    self.promoted = self.promoted + 1;
                    if owner.epoch > self.max_epoch {
                        self.max_epoch = owner.epoch;
                    }
                } else {
                    self.lost = self.lost + 1;
                }
            },
            Err(_) => {
                self.failed = self.failed + 1;
            },
        }
    }
}

/// The tally of the outcomes of a takeover: each is counted, and none stops the counting.
pub open spec fn tally_of(
    local_cluster_id: Seq<char>,
    outcomes: Seq<Result<GrainOwnership, DirectoryError>>,
) -> SweepTally
    decreases outcomes.len(),
{
    if outcomes.len() == 0 {
        SweepTally { max_epoch: 0, promoted: 0, lost: 0, failed: 0 }
    } else {
        tally_of(local_cluster_id, outcomes.drop_last()).with(local_cluster_id, outcomes.last())
    }
}

/// Whether a grain belongs to the local cluster after it was claimed.
pub open spec fn came_over(
    outcome: Result<GrainOwnership, DirectoryError>,
    local_cluster_id: Seq<char>,
) -> bool {
    outcome matches Ok(owner) && owner@.cluster_id == local_cluster_id
}

/// The phase of a peer once its grains were claimed: it is done with only where each of them
/// came over. A grain on which the directory failed may still be the peer's, and so may one that
/// another cluster than this holds.
pub open spec fn swept_phase(tally: SweepTally) -> FailoverPhase {
    if tally.failed == 0 && tally.lost == 0 {
        FailoverPhase::Promoted { epoch: tally.max_epoch }
    } else {
        FailoverPhase::Promoting
    }
}

/// What is registered to take a grain over.
#[derive(Clone, Debug, PartialEq, Eq)]
pub struct Claim {
    pub grain_id: GrainId,
    pub cluster_id: ClusterId,
    pub epoch: u64,
}

/// The contents of a [`Claim`].
pub struct ClaimView {
    pub grain_id: GrainIdView,
    pub cluster_id: Seq<char>,
    pub epoch: u64,
}

impl View for Claim {
    type V = ClaimView;

    open spec fn view(&self) -> ClaimView {
        ClaimView { grain_id: self.grain_id@, cluster_id: self.cluster_id@, epoch: self.epoch }
    }
}

/// The claims on a failed cluster's grains: one for each, in their order, for the local cluster
/// at the next epoch.
pub open spec fn claims_on(list: Seq<OwnedGrainView>, local_cluster_id: Seq<char>) -> Seq<ClaimView> {
    list.map_values(
        |e: OwnedGrainView|
            ClaimView {
                grain_id: e.grain_id,
                cluster_id: local_cluster_id,
                epoch: (e.ownership.epoch + 1) as u64,
            },
    )
}

/// Watches the peer clusters and takes over for those that fail.
#[derive(Clone, Debug, PartialEq, Eq)]
pub struct FailoverManager {
    local_cluster_id: ClusterId,
    config: FailoverConfig,
    phases: StrMap<FailoverPhase>,
}

/// The contents of a [`FailoverManager`].
pub struct FailoverManagerView {
    pub local_cluster_id: Seq<char>,
    pub grace_period: nat,
    pub check_interval: nat,
    pub phases: Map<Seq<char>, FailoverPhase>,
}

impl View for FailoverManager {
    type V = FailoverManagerView;

    closed spec fn view(&self) -> FailoverManagerView {
        FailoverManagerView {
            local_cluster_id: self.local_cluster_id@,
            grace_period: self.config.grace_period@,
            check_interval: self.config.check_interval@,
            phases: self.phases@,
        }
    }
}

impl FailoverManagerView {
    /// The phase of a peer; one not seen before is taken to answer.
    pub open spec fn phase(self, cluster_id: Seq<char>) -> FailoverPhase {
        if self.phases.dom().contains(cluster_id) {
            self.phases[cluster_id]
        } else {
            FailoverPhase::Monitoring
        }
    }

    /// The manager with a peer in a phase.
    pub open spec fn with_phase(
        self,
        cluster_id: Seq<char>,
        phase: FailoverPhase,
    ) -> FailoverManagerView {
        FailoverManagerView { phases: self.phases.insert(cluster_id, phase), ..self }
    }
}

/// The highest epoch that taking the listed grains over reaches; zero where none is listed.
pub open spec fn highest_epoch(list: Seq<OwnedGrainView>) -> nat
    decreases list.len(),
{
    if list.len() == 0 {
        0
    } else {
        let before = highest_epoch(list.drop_last());
        let last = (list.last().ownership.epoch + 1) as nat;
        if last > before {
            last
        } else {
            before
        }
    }
}

/// Whether a directory is another with a cluster's grains taken over: each at the next
/// epoch, and nothing else changed.
pub open spec fn taken_over(
    before: Entries,
    after: Entries,
    failed: Seq<char>,
    local: Seq<char>,
) -> bool {
    &&& after.dom() == before.dom()
    &&& forall|k: Seq<char>| #[trigger]
        before.dom().contains(k) ==> if before[k].ownership.cluster_id == failed {
            &&& after[k].grain_id == before[k].grain_id
            &&& after[k].ownership.cluster_id == local
            &&& after[k].ownership.epoch == before[k].ownership.epoch + 1
        } else {
            after[k] == before[k]
        }
}

impl FailoverManager {
    pub fn new(local_cluster_id: ClusterId, config: FailoverConfig) -> (manager: FailoverManager)
        ensures
            manager@ == (FailoverManagerView {
                local_cluster_id: local_cluster_id@,
                grace_period: config.grace_period@,
                check_interval: config.check_interval@,
                phases: Map::empty(),
            }),
    {
        FailoverManager { local_cluster_id, config, phases: StrMap::new() }
    }

    pub fn check_interval(&self) -> (interval: Duration)
        ensures
            interval@ == self@.check_interval,
    {
        self.config.check_interval
    }

    /// The phase of a peer; one not seen before is taken to answer.
    pub fn phase(&self, cluster_id: &ClusterId) -> (phase: FailoverPhase)
        ensures
            phase == self@.phase(cluster_id@),
    {
        match self.phases.get(cluster_id.as_str()) {
            Some(phase) => *phase,
            None => FailoverPhase::Monitoring,
        }
    }

    /// Looks at a peer: moves it to its next phase, and says whether its grains are to be
    /// taken over now.
    pub fn check(&mut self, cluster_id: &ClusterId, status: PeerStatus, now: Instant) -> (sweep:
        bool)
        ensures
            final(self)@ == old(self)@.with_phase(
                cluster_id@,
                next_phase(status, old(self)@.phase(cluster_id@), now, old(self)@.grace_period),
            ),
            sweep == takes_over(status, old(self)@.phase(cluster_id@)),
    {
        let phase: FailoverPhase = self.phase(cluster_id);
        let mut next: FailoverPhase = phase;
        let mut sweep: bool = false;
        match status {
            PeerStatus::Healthy => {
                next = FailoverPhase::Monitoring;
            },
            PeerStatus::Unreachable => match phase {
                FailoverPhase::Monitoring => {
                    next = FailoverPhase::PrimaryUnreachable { since: now };
                },
                FailoverPhase::PrimaryUnreachable { since } => {
                    if now.duration_since(since).at_least(self.config.grace_period) {
                        next = FailoverPhase::Promoting;
                    }
                },
                FailoverPhase::Promoting => {
                    sweep = true;
                },
                FailoverPhase::Promoted { .. } => {},
            },
            PeerStatus::Unknown => {},
        }
        self.phases.insert(cluster_id.to_string(), next);
        sweep
    }

    /// Notes that a peer's grains were claimed. Where the directory failed on some of them or
    /// left some with another cluster, and where it could not list them at all, the peer stays
    /// in its phase, so that what it still owns is claimed when it is next looked at.
    pub fn swept(&mut self, cluster_id: &ClusterId, tally: SweepTally)
        ensures
            final(self)@ == old(self)@.with_phase(cluster_id@, swept_phase(tally)),
    {
        let phase = if tally.failed == 0 && tally.lost == 0 {
            FailoverPhase::Promoted { epoch: tally.max_epoch }
        } else {
            FailoverPhase::Promoting
        };
        self.phases.insert(cluster_id.to_string(), phase);
    }

    /// What to register to take over the grains that a failed cluster owns: each of them once.
    pub fn claims(&self, grains: &Vec<(GrainId, GrainOwnership)>) -> (claims: Vec<Claim>)
        requires
            forall|i: int| 0 <= i < grains@.len() ==> (#[trigger] grains@[i]).1.epoch < u64::MAX,
        ensures
            maps::views(claims@) == claims_on(
                cross_cluster_directory::pair_views(grains@),
                self@.local_cluster_id,
            ),
    {
        let mut claims: Vec<Claim> = Vec::new();
        let ghost want = claims_on(
            cross_cluster_directory::pair_views(grains@),
            self@.local_cluster_id,
        );
        let mut i: usize = 0;
        while i < grains.len()
            invariant
                i <= grains.len(),
                forall|j: int|
                    0 <= j < grains@.len() ==> (#[trigger] grains@[j]).1.epoch < u64::MAX,
                want == claims_on(
                    cross_cluster_directory::pair_views(grains@),
                    self@.local_cluster_id,
                ),
                claims@.len() == i,
                forall|j: int| 0 <= j < i ==> (#[trigger] claims@[j])@ == want[j],
            decreases grains.len() - i,
        {
            assert(grains@[i as int].1.epoch < u64::MAX);
            let (cluster_id, epoch) = self.promotion(&grains[i].1);
            claims.push(Claim { grain_id: grains[i].0.duplicate(), cluster_id, epoch });
            i += 1;
        }
        assert(maps::views(claims@) =~= want);
        claims
    }

    /// The tally of what the directory said to each claim.
    pub fn tally(&self, outcomes: &Vec<Result<GrainOwnership, DirectoryError>>) -> (tally:
        SweepTally)
        ensures
            tally == tally_of(self@.local_cluster_id, outcomes@),
    {
        let mut tally = SweepTally::new();
        let mut i: usize = 0;
        assert(outcomes@.take(0) =~= Seq::<Result<GrainOwnership, DirectoryError>>::empty());
        while i < outcomes.len()
            invariant
                i <= outcomes.len(),
                tally == tally_of(self@.local_cluster_id, outcomes@.take(i as int)),
                tally.promoted + tally.lost + tally.failed == i,
            decreases outcomes.len() - i,
        {
            proof {
                assert(outcomes@.take(i + 1).drop_last() =~= outcomes@.take(i as int));
                assert(outcomes@.take(i + 1).last() == outcomes@[i as int]);
            }
            tally.record(&self.local_cluster_id, &outcomes[i]);
            i += 1;
        }
        assert(outcomes@.take(i as int) =~= outcomes@);
        tally
    }

    /// What to register to take a grain over: this cluster, at the next epoch.
    pub fn promotion(&self, current_ownership: &GrainOwnership) -> (claim: (ClusterId, u64))
        requires
            current_ownership.epoch < u64::MAX,
        ensures
            claim.0@ == self@.local_cluster_id,
            claim.1 == current_ownership.epoch + 1,
    {
        (self.local_cluster_id.duplicate(), current_ownership.epoch + 1)
    }

    /// Takes a grain over from a failed cluster, and says who owns it afterwards: this
    /// cluster, or another that registered at that epoch before.
    pub fn promote_grain(
        &self,
        directory: &mut InMemoryCrossClusterDirectory,
        grain_id: &GrainId,
        current_ownership: &GrainOwnership,
    ) -> (owner: Result<GrainOwnership, DirectoryError>)
        requires
            current_ownership.epoch < u64::MAX,
        ensures
            exists|now: SystemTime|
                final(directory)@ == #[trigger] cross_cluster_directory::registered(
                    old(directory)@,
                    grain_id@,
                    self@.local_cluster_id,
                    (current_ownership.epoch + 1) as u64,
                    now,
                ),
            match owner {
                Ok(o) => o@ == final(directory)@[grain_id@.entry_key()].ownership,
                Err(_) => false,
            },
    {
        let (cluster_id, epoch) = self.promotion(current_ownership);
        assert(epoch == (current_ownership.epoch + 1) as u64);
        directory.register(grain_id, &cluster_id, epoch)
    }

    /// Takes over every grain that a failed cluster owns.
    pub fn sweep(&self, directory: &mut InMemoryCrossClusterDirectory, failed: &ClusterId) -> (tally:
        SweepTally)
        requires
            forall|k: Seq<char>| #[trigger]
                old(directory)@.dom().contains(k) && old(directory)@[k].ownership.cluster_id
                    == failed@ ==> old(directory)@[k].ownership.epoch < u64::MAX,
        ensures
            taken_over(old(directory)@, final(directory)@, failed@, self@.local_cluster_id),
            tally.promoted == cross_cluster_directory::owned_by(old(directory)@, failed@).len(),
            tally.lost == 0,
            tally.failed == 0,
            tally.max_epoch == highest_epoch(
                cross_cluster_directory::owned_by(old(directory)@, failed@),
            ),
    {
        let mut tally = SweepTally::new();
        let grains = match directory.list_owned_by(failed) {
            Ok(grains) => grains,
            Err(_) => {
                return tally;
            },
        };
        let ghost before = directory@;
        let ghost list = cross_cluster_directory::owned_by(before, failed@);
        let ghost local = self@.local_cluster_id;
        proof {
            cross_cluster_directory::owned_list_is_complete(before, failed@);
            assert(list.len() == grains@.len());
        }
        let mut i: usize = 0;
        assert(list.take(0) =~= Seq::<OwnedGrainView>::empty());
        while i < grains.len()
            invariant
                i <= grains.len(),
                local == self@.local_cluster_id,
                list == cross_cluster_directory::pair_views(grains@),
                list.len() == grains@.len(),
                list.no_duplicates(),
                forall|j: int|
                    0 <= j < list.len() ==> {
                        let e = #[trigger] list[j];
                        &&& before.dom().contains(e.grain_id.entry_key())
                        &&& before[e.grain_id.entry_key()] == e
                        &&& e.ownership.cluster_id == failed@
                    },
                forall|k: Seq<char>| #[trigger]
                    before.dom().contains(k) && before[k].ownership.cluster_id == failed@
                        ==> before[k].ownership.epoch < u64::MAX,
                directory@.dom() == before.dom(),
                forall|k: Seq<char>| #[trigger]
                    before.dom().contains(k) ==> if list.take(i as int).contains(before[k]) {
                        &&& directory@[k].grain_id == before[k].grain_id
                        &&& directory@[k].ownership.cluster_id == local
                        &&& directory@[k].ownership.epoch == before[k].ownership.epoch + 1
                    } else {
                        directory@[k] == before[k]
                    },
                forall|k: Seq<char>| #[trigger]
                    before.dom().contains(k) ==> before[k].grain_id.entry_key() == k,
                tally.promoted == i,
                tally.lost == 0,
                tally.failed == 0,
                tally.max_epoch == highest_epoch(list.take(i as int)),
            decreases grains.len() - i,
        {
            let ghost e = list[i as int];
            let ghost key = e.grain_id.entry_key();
            let ghost at = directory@;
            proof {
                assert(e.grain_id == grains@[i as int].0@);
                assert(e.ownership == grains@[i as int].1@);
                assert(before.dom().contains(key));
                assert(!list.take(i as int).contains(e)) by {
                    if list.take(i as int).contains(e) {
                        let j = list.take(i as int).index_of(e);
                        assert(list[j] == e);
                    }
                }
            }
            let outcome = self.promote_grain(directory, &grains[i].0, &grains[i].1);
            tally.record(&self.local_cluster_id, &outcome);
            proof {
                let (now, next) = (list.take(i as int), list.take(i + 1));
                assert(next =~= now.push(e));
                assert(next.drop_last() =~= now);
                assert(directory@.dom() =~= before.dom());
                assert forall|k: Seq<char>| #[trigger] before.dom().contains(k) implies if next.contains(
                    before[k],
                ) {
                    &&& directory@[k].grain_id == before[k].grain_id
                    &&& directory@[k].ownership.cluster_id == local
                    &&& directory@[k].ownership.epoch == before[k].ownership.epoch + 1
                } else {
                    directory@[k] == before[k]
                } by {
                    if k == key {
                        assert(next[i as int] == e);
                    } else {
                        if next.contains(before[k]) {
                            let j = next.index_of(before[k]);
                            assert(next[j] == before[k]);
                            assert(j != i);
                            assert(now[j] == before[k]);
                        }
                        if now.contains(before[k]) {
                            assert(next[now.index_of(before[k])] == before[k]);
                        }
                    }
                }
            }
            i += 1;
        }
        proof {
            assert(list.take(list.len() as int) =~= list);
        }
        tally
    }
}

/// Grains are taken over only from a peer that was unreachable for the grace period: the
/// phase before the takeover is entered from the waiting phase alone, once that time is up.
pub proof fn takeover_waits_for_the_grace_period(
    status: PeerStatus,
    phase: FailoverPhase,
    now: Instant,
    grace_period: nat,
)
    ensures
        !(phase is Promoting) && next_phase(status, phase, now, grace_period) is Promoting
            ==> status is Unreachable && (phase matches FailoverPhase::PrimaryUnreachable { since }
            && now.since(since) >= grace_period),
        takes_over(status, phase) ==> phase is Promoting,
{
}

/// A peer that answers again is merely watched, whatever phase it was in, and no grain is
/// taken over from it.
pub proof fn recovery_returns_to_monitoring(
    phase: FailoverPhase,
    now: Instant,
    grace_period: nat,
)
    ensures
        next_phase(PeerStatus::Healthy, phase, now, grace_period) is Monitoring,
        !takes_over(PeerStatus::Healthy, phase),
{
}

/// Every outcome of a takeover is counted once, whatever came before it: as a grain taken over,
/// one that another cluster holds, or one on which the directory failed. Nothing failed exactly
/// where the directory failed on no grain; and the peer is done with exactly where every grain
/// came over.
pub proof fn every_outcome_is_counted(
    local_cluster_id: Seq<char>,
    outcomes: Seq<Result<GrainOwnership, DirectoryError>>,
)
    requires
        outcomes.len() <= usize::MAX,
    ensures
        ({
            let tally = tally_of(local_cluster_id, outcomes);
            &&& tally.promoted + tally.lost + tally.failed == outcomes.len()
            &&& tally.failed == 0 <==> (forall|i: int|
                0 <= i < outcomes.len() ==> (#[trigger] outcomes[i]) is Ok)
            &&& swept_phase(tally) is Promoted <==> (forall|i: int|
                0 <= i < outcomes.len() ==> came_over(#[trigger] outcomes[i], local_cluster_id))
            &&& forall|i: int|
                0 <= i < outcomes.len() && came_over(outcomes[i], local_cluster_id) ==> (
                #[trigger] outcomes[i])->Ok_0.epoch <= tally.max_epoch
        }),
    decreases outcomes.len(),
{
    if outcomes.len() > 0 {
        let rest = outcomes.drop_last();
        every_outcome_is_counted(local_cluster_id, rest);
        let before = tally_of(local_cluster_id, rest);
        let tally = tally_of(local_cluster_id, outcomes);
        let last = outcomes.len() - 1;
        assert forall|i: int| 0 <= i < rest.len() implies #[trigger] outcomes[i] == rest[i] by {}
        if tally.failed == 0 {
            assert(before.failed == 0);
            assert forall|i: int| 0 <= i < outcomes.len() implies (#[trigger] outcomes[i]) is Ok by {
                if i < last {
                    assert(rest[i] is Ok);
                }
            }
        }
        if swept_phase(tally) is Promoted {
            assert(swept_phase(before) is Promoted);
            assert forall|i: int| 0 <= i < outcomes.len() implies came_over(
                #[trigger] outcomes[i],
                local_cluster_id,
            ) by {
                if i < last {
                    assert(came_over(rest[i], local_cluster_id));
                }
            }
        }
        if forall|i: int|
            0 <= i < outcomes.len() ==> came_over(#[trigger] outcomes[i], local_cluster_id) {
            assert forall|i: int| 0 <= i < rest.len() implies came_over(
                #[trigger] rest[i],
                local_cluster_id,
            ) by {
                assert(came_over(outcomes[i], local_cluster_id));
            }
            assert(came_over(outcomes[last], local_cluster_id));
        }
        if forall|i: int| 0 <= i < outcomes.len() ==> (#[trigger] outcomes[i]) is Ok {
            assert forall|i: int| 0 <= i < rest.len() implies (#[trigger] rest[i]) is Ok by {
                assert(outcomes[i] is Ok);
            }
            assert(outcomes[last] is Ok);
        }
        assert forall|i: int|
            0 <= i < outcomes.len() && came_over(outcomes[i], local_cluster_id) implies (
        #[trigger] outcomes[i])->Ok_0.epoch <= tally.max_epoch by {
            if i < last {
                assert(rest[i]->Ok_0.epoch <= before.max_epoch);
            }
        }
    }
}

/// A peer that is still down after a takeover in which the directory failed on some grains, or
/// left some with another cluster, is swept again when it is next looked at.
pub proof fn failed_takeovers_are_tried_again(
    manager: FailoverManagerView,
    cluster_id: Seq<char>,
    tally: SweepTally,
    now: Instant,
)
    requires
        tally.failed > 0 || tally.lost > 0,
    ensures
        ({
            let after = manager.with_phase(cluster_id, swept_phase(tally));
            &&& takes_over(PeerStatus::Unreachable, after.phase(cluster_id))
            &&& next_phase(
                PeerStatus::Unreachable,
                after.phase(cluster_id),
                now,
                manager.grace_period,
            ) is Promoting
        }),
{
}

/// The phase of a peer after several looks at it, from the first to the last, without a
/// takeover between them.
pub open spec fn phase_after(
    phase: FailoverPhase,
    looks: Seq<(PeerStatus, Instant)>,
    grace_period: nat,
) -> FailoverPhase
    decreases looks.len(),
{
    if looks.len() == 0 {
        phase
    } else {
        next_phase(
            looks.last().0,
            phase_after(phase, looks.drop_last(), grace_period),
            looks.last().1,
            grace_period,
        )
    }
}

proof fn lemma_phase_while_silent(
    looks: Seq<(PeerStatus, Instant)>,
    grace_period: nat,
    first: int,
    due: int,
    n: int,
)
    requires
        0 <= first < due < looks.len(),
        0 <= n <= looks.len(),
        n <= due + 1,
        forall|i: int| 0 <= i < first ==> (#[trigger] looks[i]).0 is Unknown,
        forall|i: int| first <= i <= due ==> (#[trigger] looks[i]).0 is Unreachable,
        forall|i: int|
            first < i < due ==> (#[trigger] looks[i]).1.since(looks[first].1) < grace_period,
        looks[due].1.since(looks[first].1) >= grace_period,
    ensures
        phase_after(FailoverPhase::Monitoring, looks.take(n), grace_period) == (if n <= first {
            FailoverPhase::Monitoring
        } else if n <= due {
            FailoverPhase::PrimaryUnreachable { since: looks[first].1 }
        } else {
            FailoverPhase::Promoting
        }),
    decreases n,
{
    if n > 0 {
        lemma_phase_while_silent(looks, grace_period, first, due, n - 1);
        assert(looks.take(n).drop_last() =~= looks.take(n - 1));
        assert(looks.take(n).last() == looks[n - 1]);
    }
}

/// The grains of a peer that stays silent are taken over once the grace period is over, and
/// not before. Let a peer be looked at again and again: first nothing is known of it, then it
/// is found unreachable, at the look `first`, and stays so; and let `due` be the first look at
/// which the grace period is over. At no look up to `due` are the peer's grains taken over; at
/// the next one they are.
pub proof fn silent_peer_is_taken_over(
    looks: Seq<(PeerStatus, Instant)>,
    grace_period: nat,
    first: int,
    due: int,
)
    requires
        0 <= first < due < looks.len() - 1,
        forall|i: int| 0 <= i < first ==> (#[trigger] looks[i]).0 is Unknown,
        forall|i: int| first <= i < looks.len() ==> (#[trigger] looks[i]).0 is Unreachable,
        forall|i: int|
            first < i < due ==> (#[trigger] looks[i]).1.since(looks[first].1) < grace_period,
        looks[due].1.since(looks[first].1) >= grace_period,
    ensures
        forall|n: int|
            0 <= n <= due ==> !takes_over(
                looks[n].0,
                phase_after(FailoverPhase::Monitoring, #[trigger] looks.take(n), grace_period),
            ),
        takes_over(
            looks[due + 1].0,
            phase_after(FailoverPhase::Monitoring, looks.take(due + 1), grace_period),
        ),
{
    assert forall|n: int| 0 <= n <= due implies !takes_over(
        looks[n].0,
        phase_after(FailoverPhase::Monitoring, #[trigger] looks.take(n), grace_period),
    ) by {
        lemma_phase_while_silent(looks, grace_period, first, due, n);
    }
    lemma_phase_while_silent(looks, grace_period, first, due, due + 1);
}

/// A peer that is first found unreachable is waited for from then on; it is waited for as long
/// as the grace period runs. One that is being taken over or was taken over stays so until it
/// answers, and where nothing is known of a peer it stays as it is.
pub proof fn phases_follow_what_is_found(
    phase: FailoverPhase,
    now: Instant,
    since: Instant,
    grace_period: nat,
    epoch: u64,
)
    ensures
        ({
            let down = PeerStatus::Unreachable;
            let waiting = FailoverPhase::PrimaryUnreachable { since };
            &&& next_phase(down, FailoverPhase::Monitoring, now, grace_period)
                == (FailoverPhase::PrimaryUnreachable { since: now })
            &&& now.nanos >= since.nanos && now.nanos - since.nanos < grace_period ==> next_phase(
                down,
                waiting,
                now,
                grace_period,
            ) == waiting
            &&& now.nanos >= since.nanos && now.nanos - since.nanos >= grace_period ==> next_phase(
                down,
                waiting,
                now,
                grace_period,
            ) is Promoting
            &&& next_phase(down, FailoverPhase::Promoting, now, grace_period) is Promoting
            &&& next_phase(down, FailoverPhase::Promoted { epoch }, now, grace_period)
                == (FailoverPhase::Promoted { epoch })
            &&& next_phase(PeerStatus::Unknown, phase, now, grace_period) == phase
            &&& takes_over(down, FailoverPhase::Promoting)
            &&& !takes_over(PeerStatus::Unknown, phase)
        }),
{
}

/// An outcome changes one count alone; the highest epoch is that of a grain that came over.
pub proof fn outcomes_are_told_apart(
    tally: SweepTally,
    local_cluster_id: Seq<char>,
    owner: GrainOwnership,
    error: DirectoryError,
)
    requires
        tally.promoted < usize::MAX,
        tally.lost < usize::MAX,
        tally.failed < usize::MAX,
    ensures
        ({
            let after = tally.with(local_cluster_id, Ok(owner));
            &&& owner@.cluster_id == local_cluster_id ==> {
                &&& after.promoted == tally.promoted + 1
                &&& after.lost == tally.lost
                &&& after.max_epoch >= owner.epoch && after.max_epoch >= tally.max_epoch
                &&& after.max_epoch == owner.epoch || after.max_epoch == tally.max_epoch
            }
            &&& owner@.cluster_id != local_cluster_id ==> {
                &&& after.promoted == tally.promoted
                &&& after.lost == tally.lost + 1
                &&& after.max_epoch == tally.max_epoch
            }
            &&& after.failed == tally.failed
        }),
        ({
            let after = tally.with(local_cluster_id, Err(error));
            &&& after.promoted == tally.promoted
            &&& after.lost == tally.lost
            &&& after.failed == tally.failed + 1
            &&& after.max_epoch == tally.max_epoch
        }),
        tally.failed == 0 && tally.lost == 0 ==> swept_phase(tally) == (FailoverPhase::Promoted {
            epoch: tally.max_epoch,
        }),
        tally.failed > 0 || tally.lost > 0 ==> swept_phase(tally) is Promoting,
{
}

/// Each grain of a failed cluster is claimed for this cluster at the next epoch, in the order of
/// the list.
pub proof fn claims_are_for_the_next_epoch(
    list: Seq<OwnedGrainView>,
    local_cluster_id: Seq<char>,
    i: int,
)
    requires
        0 <= i < list.len(),
        list[i].ownership.epoch < u64::MAX,
    ensures
        ({
            let claims = claims_on(list, local_cluster_id);
            &&& claims.len() == list.len()
            &&& claims[i].grain_id == list[i].grain_id
            &&& claims[i].cluster_id == local_cluster_id
            &&& claims[i].epoch == list[i].ownership.epoch + 1
        }),
{
}

/// The highest epoch of a takeover is above that of every grain in the list, and next to that of
/// one of them; it is zero for no grains.
pub proof fn the_highest_epoch_is_reached(list: Seq<OwnedGrainView>)
    ensures
        forall|i: int|
            0 <= i < list.len() ==> (#[trigger] list[i]).ownership.epoch < highest_epoch(list),
        list.len() > 0 ==> exists|i: int|
            0 <= i < list.len() && (#[trigger] list[i]).ownership.epoch + 1 == highest_epoch(list),
        list.len() == 0 ==> highest_epoch(list) == 0,
    decreases list.len(),
{
    if list.len() > 0 {
        let before = list.drop_last();
        the_highest_epoch_is_reached(before);
        let last = list.len() - 1;
        assert forall|i: int| 0 <= i < list.len() implies (#[trigger] list[i]).ownership.epoch
            < highest_epoch(list) by {
            if i < last {
                assert(before[i] == list[i]);
            }
        }
        if list[last].ownership.epoch + 1 != highest_epoch(list) {
            assert(before.len() > 0);
            let i = choose|i: int|
                0 <= i < before.len() && (#[trigger] before[i]).ownership.epoch + 1
                    == highest_epoch(before);
            assert(list[i] == before[i]);
        }
    }
}

/// After a takeover every grain of the failed cluster is owned by this one, at the next epoch,
/// and every other grain by whom it was; none is lost and none is new.
pub proof fn takeovers_move_the_grains_of_one_cluster(
    before: Entries,
    after: Entries,
    failed: Seq<char>,
    local: Seq<char>,
    key: Seq<char>,
)
    requires
        taken_over(before, after, failed, local),
    ensures
        after.dom().contains(key) <==> before.dom().contains(key),
        before.dom().contains(key) && before[key].ownership.cluster_id == failed ==> {
            &&& after[key].grain_id == before[key].grain_id
            &&& after[key].ownership.cluster_id == local
            &&& after[key].ownership.epoch == before[key].ownership.epoch + 1
        },
        before.dom().contains(key) && before[key].ownership.cluster_id != failed ==> after[key]
            == before[key],
{
}

/// Each peer has a phase of its own; one not seen before is merely watched.
pub proof fn peers_have_phases_of_their_own(
    manager: FailoverManagerView,
    cluster_id: Seq<char>,
    phase: FailoverPhase,
    other: Seq<char>,
)
    requires
        other != cluster_id,
    ensures
        manager.with_phase(cluster_id, phase).phase(cluster_id) == phase,
        manager.with_phase(cluster_id, phase).phase(other) == manager.phase(other),
        !manager.phases.dom().contains(other) ==> manager.phase(other) is Monitoring,
        manager.with_phase(cluster_id, phase).grace_period == manager.grace_period,
        manager.with_phase(cluster_id, phase).check_interval == manager.check_interval,
        manager.with_phase(cluster_id, phase).local_cluster_id == manager.local_cluster_id,
{
}

} // verus!
