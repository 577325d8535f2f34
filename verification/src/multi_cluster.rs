//! Several clusters: who the peers are, and whether they answer.

use vstd::prelude::*;

use crate::grain::ClusterId;
use crate::maps;
use crate::maps::{Duplicate, StrMap};
use crate::time;
use crate::time::Duration;

verus! {

/// A deployment of several clusters, as one of them sees it.
#[derive(Clone, Debug, PartialEq, Eq)]
pub struct MultiClusterConfig {
    /// This cluster's identity.
    pub cluster_id: ClusterId,
    /// Gateway endpoints of the peers, by cluster.
    pub peers: StrMap<String>,
    /// How often to check whether the peers answer.
    pub health_check_interval: Duration,
}

/// The contents of a [`MultiClusterConfig`].
#[verifier::ext_equal]
pub struct MultiClusterConfigView {
    pub cluster_id: Seq<char>,
    pub peers: Map<Seq<char>, Seq<char>>,
    pub health_check_interval: nat,
}

impl View for MultiClusterConfig {
    type V = MultiClusterConfigView;

    open spec fn view(&self) -> MultiClusterConfigView {
        MultiClusterConfigView {
            cluster_id: self.cluster_id@,
            peers: self.peers@,
            health_check_interval: self.health_check_interval@,
        }
    }
}

impl Duplicate for MultiClusterConfig {
    fn duplicate(&self) -> (copy: Self) {
        MultiClusterConfig {
            cluster_id: self.cluster_id.duplicate(),
            peers: self.peers.duplicate(),
            health_check_interval: self.health_check_interval,
        }
    }
}

impl MultiClusterConfig {
    /// A cluster without peers, to be checked every ten seconds.
    pub fn new(cluster_id: &str) -> (config: MultiClusterConfig)
        ensures
            config@ == (MultiClusterConfigView {
                cluster_id: cluster_id@,
                peers: Map::empty(),
                health_check_interval: 10 * time::NANOS_PER_SEC as nat,
            }),
    {
        MultiClusterConfig {
            cluster_id: ClusterId::new(cluster_id),
            peers: StrMap::new(),
            health_check_interval: Duration::from_secs(10),
        }
    }

    /// Adds a peer, or changes where it is reached.
    pub fn peer(self, cluster_id: &str, endpoint: &str) -> (config: MultiClusterConfig)
        ensures
            config@ == (MultiClusterConfigView {
                peers: self@.peers.insert(cluster_id@, endpoint@),
                ..self@
            }),
    {
        let mut config = self;
        config.peers.insert(cluster_id.to_string(), endpoint.to_string());
        config
    }

    pub fn health_check_interval(self, interval: Duration) -> (config: MultiClusterConfig)
        ensures
            config@ == (MultiClusterConfigView { health_check_interval: interval@, ..self@ }),
    {
        MultiClusterConfig {
            cluster_id: self.cluster_id,
            peers: self.peers,
            health_check_interval: interval,
        }
    }
}

/// Whether a peer cluster answers.
#[derive(Clone, Copy, Debug, PartialEq, Eq, Structural)]
pub enum PeerStatus {
    Healthy,
    Unreachable,
    Unknown,
}

impl View for PeerStatus {
    type V = PeerStatus;

    open spec fn view(&self) -> PeerStatus {
        *self
    }
}

impl Duplicate for PeerStatus {
    fn duplicate(&self) -> (copy: Self) {
        *self
    }
}

/// How long a peer has to answer a check.
pub fn probe_timeout() -> (timeout: Duration)
    ensures
        timeout@ == 5 * time::NANOS_PER_SEC,
{
    Duration::from_secs(5)
}

/// Whether each peer answered when it was last checked.
#[derive(Clone, Debug, PartialEq, Eq)]
pub struct ClusterHealth {
    config: MultiClusterConfig,
    statuses: StrMap<PeerStatus>,
}

/// The contents of a [`ClusterHealth`].
pub struct ClusterHealthView {
    pub config: MultiClusterConfigView,
    pub statuses: Map<Seq<char>, PeerStatus>,
}

impl View for ClusterHealth {
    type V = ClusterHealthView;

    closed spec fn view(&self) -> ClusterHealthView {
        ClusterHealthView { config: self.config@, statuses: self.statuses@ }
    }
}

impl ClusterHealthView {
    /// Nothing is known of any peer yet.
    pub open spec fn unknown(config: MultiClusterConfigView) -> ClusterHealthView {
        ClusterHealthView {
            config,
            statuses: Map::new(
                |k: Seq<char>| config.peers.dom().contains(k),
                |k: Seq<char>| PeerStatus::Unknown,
            ),
        }
    }

    /// What is known of a cluster.
    pub open spec fn status(self, cluster_id: Seq<char>) -> PeerStatus {
        if self.statuses.dom().contains(cluster_id) {
            self.statuses[cluster_id]
        } else {
            PeerStatus::Unknown
        }
    }
}

/// The statuses after a round of checks, which asked the peers in ascending order of their
/// names.
pub open spec fn round_result(
    peers: Map<Seq<char>, Seq<char>>,
    answered: Seq<bool>,
) -> Map<Seq<char>, PeerStatus> {
    Map::new(
        |k: Seq<char>| peers.dom().contains(k),
        |k: Seq<char>|
            if answered[maps::in_text_order(peers.dom()).index_of(k)] {
                PeerStatus::Healthy
            } else {
                PeerStatus::Unreachable
            },
    )
}

/// The names and endpoints of a list.
pub open spec fn endpoint_views(list: Seq<(String, String)>) -> Seq<(Seq<char>, Seq<char>)> {
    list.map_values(|p: (String, String)| (p.0@, p.1@))
}

impl ClusterHealth {
    /// Nothing is known of any peer yet.
    pub fn new(config: MultiClusterConfig) -> (health: ClusterHealth)
        ensures
            health@ == ClusterHealthView::unknown(config@),
    {
        let mut statuses: StrMap<PeerStatus> = StrMap::new();
        let n: usize = config.peers.len();
        let ghost keys = config.peers.key_seq();
        let mut i: usize = 0;
        while i < n
            invariant
                i <= n,
                n == keys.len(),
                keys == config.peers.key_seq(),
                forall|k: Seq<char>| #[trigger]
                    statuses@.dom().contains(k) <==> keys.take(i as int).contains(k),
                forall|k: Seq<char>| #[trigger]
                    statuses@.dom().contains(k) ==> statuses@[k] == PeerStatus::Unknown,
            decreases n - i,
        {
            let id = config.peers.key_at(i);
            let ghost before = statuses@;
            statuses.insert(id.clone(), PeerStatus::Unknown);
            proof {
                let (now, next) = (keys.take(i as int), keys.take(i + 1));
                assert(next =~= now.push(id@));
                assert forall|k: Seq<char>| #[trigger]
                    statuses@.dom().contains(k) <==> next.contains(k) by {
                    if next.contains(k) {
                        let j = next.index_of(k);
                        if j < i {
                            assert(now[j] == k);
                            assert(before.dom().contains(k));
                        }
                    }
                    if before.dom().contains(k) {
                        assert(next[now.index_of(k)] == k);
                    }
                    assert(next[i as int] == id@);
                }
            }
            i += 1;
        }
        proof {
            assert(keys.take(n as int) =~= keys);
            assert(statuses@ =~= Map::new(
                |k: Seq<char>| config@.peers.dom().contains(k),
                |k: Seq<char>| PeerStatus::Unknown,
            ));
        }
        ClusterHealth { config, statuses }
    }

    /// What is known of a cluster.
    pub fn status(&self, cluster_id: &ClusterId) -> (status: PeerStatus)
        ensures
            status == self@.status(cluster_id@),
    {
        match self.statuses.get(cluster_id.as_str()) {
            Some(status) => *status,
            None => PeerStatus::Unknown,
        }
    }

    /// What is known of every peer.
    pub fn all_statuses(&self) -> (statuses: StrMap<PeerStatus>)
        ensures
            statuses@ == self@.statuses,
    {
        self.statuses.duplicate()
    }

    /// Where a peer is reached.
    pub fn peer_endpoint(&self, cluster_id: &ClusterId) -> (endpoint: Option<String>)
        ensures
            match endpoint {
                Some(e) => self@.config.peers.dom().contains(cluster_id@) && e@
                    == self@.config.peers[cluster_id@],
                None => !self@.config.peers.dom().contains(cluster_id@),
            },
    {
        match self.config.peers.get(cluster_id.as_str()) {
            Some(endpoint) => Some(endpoint.clone()),
            None => None,
        }
    }

    /// The peers to check in a round, with their endpoints.
    pub fn probe_plan(&self) -> (plan: Vec<(String, String)>)
        ensures
            endpoint_views(plan@) == maps::pairs_in_order(self@.config.peers),
    {
        let n: usize = self.config.peers.len();
        let mut plan: Vec<(String, String)> = Vec::new();
        let ghost whole = maps::pairs_in_order(self@.config.peers);
        let mut i: usize = 0;
        while i < n
            invariant
                i <= n,
                n == self.config.peers.key_seq().len(),
                self.config.peers.key_seq() == maps::in_text_order(self@.config.peers.dom()),
                whole == maps::pairs_in_order(self@.config.peers),
                plan@.len() == i,
                forall|j: int| 0 <= j < i ==> endpoint_views(plan@)[j] == #[trigger] whole[j],
            decreases n - i,
        {
            let ghost before = plan@;
            plan.push((self.config.peers.key_at(i).clone(), self.config.peers.value_at(i).clone()));
            proof {
                assert forall|j: int| 0 <= j < i + 1 implies endpoint_views(plan@)[j]
                    == #[trigger] whole[j] by {
                    if j < i {
                        assert(endpoint_views(before)[j] == whole[j]);
                        assert(plan@[j] == before[j]);
                    }
                }
            }
            i += 1;
        }
        assert(endpoint_views(plan@) =~= whole);
        plan
    }

    /// Takes the outcome of a round of checks: of each peer, in the order of the plan,
    /// whether it answered in time.
    pub fn record_round(&mut self, answered: Vec<bool>)
        requires
            answered@.len() == maps::pairs_in_order(old(self)@.config.peers).len(),
        ensures
            final(self)@.config == old(self)@.config,
            final(self)@.statuses == round_result(old(self)@.config.peers, answered@),
    {
        let n: usize = self.config.peers.len();
        let ghost keys = self.config.peers.key_seq();
        let ghost peers = self@.config.peers;
        let mut statuses: StrMap<PeerStatus> = StrMap::new();
        let mut i: usize = 0;
        proof {
            maps::lemma_ascending_no_duplicates(keys);
        }
        while i < n
            invariant
                i <= n,
                n == keys.len(),
                answered@.len() == n,
                keys == self.config.peers.key_seq(),
                forall|j: int| 0 <= j < keys.len() ==> #[trigger] keys.index_of(keys[j]) == j,
                forall|k: Seq<char>| #[trigger]
                    statuses@.dom().contains(k) <==> keys.take(i as int).contains(k),
                forall|k: Seq<char>| #[trigger]
                    statuses@.dom().contains(k) ==> statuses@[k] == (if answered@[keys.index_of(
                        k,
                    )] {
                        PeerStatus::Healthy
                    } else {
                        PeerStatus::Unreachable
                    }),
            decreases n - i,
        {
            let id = self.config.peers.key_at(i);
            let ghost before = statuses@;
            let status = if answered[i] {
                PeerStatus::Healthy
            } else {
                PeerStatus::Unreachable
            };
            statuses.insert(id.clone(), status);
            proof {
                let (now, next) = (keys.take(i as int), keys.take(i + 1));
                assert(next =~= now.push(id@));
                assert(keys.index_of(keys[i as int]) == i);
                assert forall|k: Seq<char>| #[trigger]
                    statuses@.dom().contains(k) <==> next.contains(k) by {
                    if next.contains(k) {
                        let j = next.index_of(k);
                        if j < i {
                            assert(now[j] == k);
                            assert(before.dom().contains(k));
                        }
                    }
                    if before.dom().contains(k) {
                        assert(next[now.index_of(k)] == k);
                    }
                    assert(next[i as int] == id@);
                }
            }
            i += 1;
        }
        proof {
            assert(keys.take(n as int) =~= keys);
            assert(statuses@ =~= round_result(peers, answered@));
        }
        self.statuses = statuses;
    }
}

/// After a round a peer is healthy where it answered, and unreachable where it did not; every
/// peer that was asked is known of, and no other cluster.
pub proof fn rounds_tell_who_answered(
    peers: Map<Seq<char>, Seq<char>>,
    answered: Seq<bool>,
    i: int,
    cluster_id: Seq<char>,
)
    requires
        peers.dom().finite(),
        answered.len() == maps::pairs_in_order(peers).len(),
        0 <= i < answered.len(),
    ensures
        ({
            let result = round_result(peers, answered);
            let asked = maps::pairs_in_order(peers)[i].0;
            &&& result.dom().contains(asked)
            &&& answered[i] ==> result[asked] is Healthy
            &&& !answered[i] ==> result[asked] is Unreachable
            &&& result.dom().contains(cluster_id) <==> peers.dom().contains(cluster_id)
        }),
{
    let order = maps::in_text_order(peers.dom());
    maps::lemma_text_order_is_complete(peers.dom());
    maps::lemma_ascending_no_duplicates(order);
    assert(order.contains(order[i]));
    assert(order.index_of(order[i]) == i);
}

/// What is known of a cluster is what the last round told, and nothing where it told nothing;
/// before the first round nothing is known of any.
pub proof fn nothing_is_known_untold(
    health: ClusterHealthView,
    config: MultiClusterConfigView,
    cluster_id: Seq<char>,
)
    ensures
        health.statuses.dom().contains(cluster_id) ==> health.status(cluster_id)
            == health.statuses[cluster_id],
        !health.statuses.dom().contains(cluster_id) ==> health.status(cluster_id) is Unknown,
        ClusterHealthView::unknown(config).status(cluster_id) is Unknown,
        ClusterHealthView::unknown(config).config == config,
        ClusterHealthView::unknown(config).statuses.dom().contains(cluster_id)
            <==> config.peers.dom().contains(cluster_id),
{
}

} // verus!
