//! A silo: how it is configured, what it serves, and how it joins a cluster.

use vstd::prelude::*;
use vstd::utf8::*;

use crate::auth;
use crate::client;
use crate::client::from_proto_addrs;
use crate::cluster_gateway::ClusterGatewayService;
use crate::cluster_grain_ref;
use crate::cluster_grain_ref::{ClusterGrainRef, RefTargetView};
use crate::connection_pool;
use crate::connection_pool::{
    AuthorizedRequest, ClientTls, ClientTlsView, ConnectionPool, ConnectionPoolView, TlsIdentity,
};
use crate::error::{ClusterError, ClusterErrorView};
use crate::cross_cluster_directory::Entries;
use crate::failover;
use crate::failover::{FailoverConfig, FailoverManager, FailoverManagerView};
use crate::failure_detector::{FailureDetectorConfig, MembershipChange, MembershipChangeView};
use crate::grain;
use crate::grain::{ClusterId, GrainIdView};
use crate::hash_ring;
use crate::hash_ring::{endpoint_of, HashRing, HashRingView, SiloAddress, SiloAddressView};
use crate::maps;
use crate::maps::{Duplicate, StrMap};
use crate::message_registry::{MessageRegistry, MessageRegistryView};
use crate::multi_cluster;
use crate::multi_cluster::{
    ClusterHealth, ClusterHealthView, MultiClusterConfig, MultiClusterConfigView, PeerStatus,
};
use crate::placement;
use crate::placement::{
    HashBasedPlacement, PlacementStrategy, PreferLocalPlacement, RandomPlacement,
};
use crate::proto::{copy_bytes, ProtoSiloAddress};
use crate::retry::RetryPolicy;
use crate::swim;
use crate::swim::{to_proto_addr, SwimMemberView, SwimState, SwimStateView};
use crate::tcp_transport::{TcpConnectionPool, TcpConnectionPoolView};
use crate::text;
use crate::text::same_text;
use crate::time;
use crate::time::Instant;
use crate::transport::{CrossClusterView, GrainTransportService};

verus! {

/// How a silo places grains.
#[derive(Clone, Copy, Debug, PartialEq, Eq, Structural)]
pub enum Placement {
    /// Where the ring puts them.
    Hash,
    /// On the silo that asks.
    PreferLocal,
    /// On any member, at random.
    Random,
    /// As a strategy of the silo's owner says.
    Custom,
}

/// Whether a character is a hexadecimal digit in lower case.
pub open spec fn is_hex(c: char) -> bool {
    '0' <= c <= '9' || 'a' <= c <= 'f'
}

/// Whether a text is a random identifier: 32 hexadecimal digits in groups of 8, 4, 4, 4 and
/// 12, of which one says the version and one the variant.
pub open spec fn is_random_id(s: Seq<char>) -> bool {
    &&& s.len() == 36
    &&& forall|i: int|
        0 <= i < 36 ==> if i == 8 || i == 13 || i == 18 || i == 23 {
            #[trigger] s[i] == '-'
        } else {
            is_hex(s[i])
        }
    &&& s[14] == '4'
    &&& s[19] == '8' || s[19] == '9' || s[19] == 'a' || s[19] == 'b'
}

/// Makes an identifier with `uuid::Uuid::new_v4` and its `to_string`: hyphenated lower-case
/// hexadecimal, with the version and variant of a random identifier. The other digits are
/// left to chance.
#[verifier::external_body]
fn random_id() -> (id: String)
    ensures
        is_random_id(id@),
{
    uuid::Uuid::new_v4().to_string()
}

/// Configures a silo.
#[derive(Debug, PartialEq, Eq)]
pub struct ClusterSiloBuilder {
    pub host: String,
    pub port: u16,
    pub silo_id: Option<String>,
    pub registry: MessageRegistry,
    pub virtual_nodes: u32,
    pub failure_detector_config: FailureDetectorConfig,
    pub placement: Placement,
    pub tls_identity: Option<TlsIdentity>,
    pub tls_ca: Option<Vec<u8>>,
    /// Whether incoming requests are checked.
    pub auth: bool,
    pub auth_token: Option<String>,
    pub retry_policy: RetryPolicy,
    pub multi_cluster: Option<MultiClusterConfig>,
    /// Whether there is a directory of the clusters' grains.
    pub cross_cluster_dir: bool,
    pub local_cluster_id: Option<ClusterId>,
    pub peer_endpoints: Option<StrMap<String>>,
    pub failover_config: FailoverConfig,
    pub health_port: Option<u16>,
    /// Whether a store is asked before the silo says it is ready.
    pub store_probe: bool,
}

/// A silo.
pub struct ClusterSilo {
    pub local_addr: SiloAddress,
    pub registry: MessageRegistry,
    pub ring: HashRing,
    pub pool: ConnectionPool,
    pub tcp_pool: TcpConnectionPool,
    pub swim_state: SwimState,
    pub failure_detector_config: FailureDetectorConfig,
    pub placement: Placement,
    pub tls_identity: Option<TlsIdentity>,
    pub tls_ca: Option<Vec<u8>>,
    pub auth: bool,
    pub retry_policy: RetryPolicy,
    pub multi_cluster: Option<MultiClusterConfig>,
    pub cross_cluster_dir: bool,
    pub local_cluster_id: Option<ClusterId>,
    pub peer_endpoints: Option<StrMap<String>>,
    pub failover_config: FailoverConfig,
    pub health_port: Option<u16>,
    pub store_probe: bool,
}

/// How the connections of a silo are secured: as its authority and its identity say.
pub open spec fn client_tls(ca: Option<Vec<u8>>, identity: Option<TlsIdentity>) -> Option<
    ClientTlsView,
> {
    match ca {
        Some(pem) => Some(
            ClientTlsView {
                ca_pem: pem@,
                identity: match identity {
                    Some(i) => Some(i@),
                    None => None,
                },
            },
        ),
        None => None,
    }
}

fn make_client_tls(ca: &Option<Vec<u8>>, identity: &Option<TlsIdentity>) -> (tls: Option<ClientTls>)
    ensures
        match tls {
            Some(t) => client_tls(*ca, *identity) == Some(t@),
            None => client_tls(*ca, *identity) is None,
        },
{
    match ca {
        Some(pem) => Some(
            ClientTls {
                ca_pem: copy_bytes(pem),
                identity: match identity {
                    Some(i) => Some(i.duplicate()),
                    None => None,
                },
            },
        ),
        None => None,
    }
}

/// The text of an optional string.
pub open spec fn text_of(s: Option<String>) -> Option<Seq<char>> {
    match s {
        Some(t) => Some(t@),
        None => None,
    }
}

/// What a silo that has not met another knows.
pub open spec fn alone(local_addr: SiloAddressView) -> SwimStateView {
    SwimStateView {
        members: Map::empty(),
        local_incarnation: 0,
        local_addr,
        pending: Seq::empty(),
    }
}

impl ClusterSiloBuilder {
    /// A silo on the local host, at a port that the system picks, with 150 virtual nodes.
    pub fn new() -> (b: ClusterSiloBuilder)
        ensures
            b.host@ == "127.0.0.1"@,
            b.port == 0,
            b.silo_id is None,
            b.registry@ == MessageRegistryView::empty(),
            b.virtual_nodes == 150,
            b.failure_detector_config.gossip_fanout == 6,
            b.failure_detector_config.ping_req_count == 3,
            b.failure_detector_config.protocol_period@ == 2 * time::NANOS_PER_SEC,
            b.failure_detector_config.ping_timeout@ == time::NANOS_PER_SEC,
            b.failure_detector_config.suspect_timeout@ == 5 * time::NANOS_PER_SEC,
            b.placement is Hash,
            b.tls_identity is None,
            b.tls_ca is None,
            !b.auth,
            b.auth_token is None,
            b.retry_policy.max_retries == 2,
            b.retry_policy.base_delay@ == 100 * time::NANOS_PER_MILLI,
            b.retry_policy.max_delay@ == 2 * time::NANOS_PER_SEC,
            b.multi_cluster is None,
            !b.cross_cluster_dir,
            b.local_cluster_id is None,
            b.peer_endpoints is None,
            b.failover_config.grace_period@ == 30 * time::NANOS_PER_SEC,
            b.failover_config.check_interval@ == 5 * time::NANOS_PER_SEC,
            b.health_port is None,
            !b.store_probe,
    {
        ClusterSiloBuilder {
            host: "127.0.0.1".to_string(),
            port: 0,
            silo_id: None,
            registry: MessageRegistry::new(),
            virtual_nodes: 150,
            failure_detector_config: FailureDetectorConfig::default(),
            placement: Placement::Hash,
            tls_identity: None,
            tls_ca: None,
            auth: false,
            auth_token: None,
            retry_policy: RetryPolicy::default(),
            multi_cluster: None,
            cross_cluster_dir: false,
            local_cluster_id: None,
            peer_endpoints: None,
            failover_config: FailoverConfig::default(),
            health_port: None,
            store_probe: false,
        }
    }

    /// Serves the health endpoints at a port.
    pub fn health_port(self, port: u16) -> (b: ClusterSiloBuilder)
        ensures
            b == (ClusterSiloBuilder { health_port: Some(port), ..self }),
    {
        let mut b = self;
        b.health_port = Some(port);
        b
    }

    /// Has a store asked before the silo says it is ready.
    pub fn store_probe(self) -> (b: ClusterSiloBuilder)
        ensures
            b == (ClusterSiloBuilder { store_probe: true, ..self }),
    {
        let mut b = self;
        b.store_probe = true;
        b
    }

    pub fn host(self, host: &str) -> (b: ClusterSiloBuilder)
        ensures
            b.host@ == host@,
            b == (ClusterSiloBuilder { host: b.host, ..self }),
    {
        let mut b = self;
        b.host = host.to_string();
        b
    }

    pub fn port(self, port: u16) -> (b: ClusterSiloBuilder)
        ensures
            b == (ClusterSiloBuilder { port, ..self }),
    {
        let mut b = self;
        b.port = port;
        b
    }

    pub fn silo_id(self, id: &str) -> (b: ClusterSiloBuilder)
        ensures
            text_of(b.silo_id) == Some(id@),
            b == (ClusterSiloBuilder { silo_id: b.silo_id, ..self }),
    {
        let mut b = self;
        b.silo_id = Some(id.to_string());
        b
    }

    pub fn virtual_nodes(self, n: u32) -> (b: ClusterSiloBuilder)
        ensures
            b == (ClusterSiloBuilder { virtual_nodes: n, ..self }),
    {
        let mut b = self;
        b.virtual_nodes = n;
        b
    }

    pub fn failure_detector_config(self, config: FailureDetectorConfig) -> (b: ClusterSiloBuilder)
        ensures
            b == (ClusterSiloBuilder { failure_detector_config: config, ..self }),
    {
        let mut b = self;
        b.failure_detector_config = config;
        b
    }

    /// Sets how grains are placed.
    pub fn placement(self, strategy: Placement) -> (b: ClusterSiloBuilder)
        ensures
            b == (ClusterSiloBuilder { placement: strategy, ..self }),
    {
        let mut b = self;
        b.placement = strategy;
        b
    }

    /// Secures the silo with a certificate and its private key, PEM-encoded.
    pub fn tls(self, cert_pem: Vec<u8>, key_pem: Vec<u8>) -> (b: ClusterSiloBuilder)
        ensures
            b == (ClusterSiloBuilder {
                tls_identity: Some(TlsIdentity { cert_pem, key_pem }),
                ..self
            }),
    {
        let mut b = self;
        b.tls_identity = Some(TlsIdentity { cert_pem, key_pem });
        b
    }

    /// Sets the authority that the certificates of others are checked against.
    pub fn tls_ca(self, ca_pem: Vec<u8>) -> (b: ClusterSiloBuilder)
        ensures
            b == (ClusterSiloBuilder { tls_ca: Some(ca_pem), ..self }),
    {
        let mut b = self;
        b.tls_ca = Some(ca_pem);
        b
    }

    /// Has incoming requests checked.
    pub fn auth(self) -> (b: ClusterSiloBuilder)
        ensures
            b == (ClusterSiloBuilder { auth: true, ..self }),
    {
        let mut b = self;
        b.auth = true;
        b
    }

    /// Has requests to other silos carry a token.
    pub fn auth_token(self, token: &str) -> (b: ClusterSiloBuilder)
        ensures
            text_of(b.auth_token) == Some(token@),
            b == (ClusterSiloBuilder { auth_token: b.auth_token, ..self }),
    {
        let mut b = self;
        b.auth_token = Some(token.to_string());
        b
    }

    pub fn retry_policy(self, policy: RetryPolicy) -> (b: ClusterSiloBuilder)
        ensures
            b == (ClusterSiloBuilder { retry_policy: policy, ..self }),
    {
        let mut b = self;
        b.retry_policy = policy;
        b
    }

    /// Makes the silo's cluster one of several.
    pub fn multi_cluster(self, config: MultiClusterConfig) -> (b: ClusterSiloBuilder)
        ensures
            b == (ClusterSiloBuilder { multi_cluster: Some(config), ..self }),
    {
        let mut b = self;
        b.multi_cluster = Some(config);
        b
    }

    /// Uses a directory of the clusters' grains.
    pub fn cross_cluster_directory(self) -> (b: ClusterSiloBuilder)
        ensures
            b == (ClusterSiloBuilder { cross_cluster_dir: true, ..self }),
    {
        let mut b = self;
        b.cross_cluster_dir = true;
        b
    }

    /// Sets the name of the silo's cluster.
    pub fn cluster_id(self, id: ClusterId) -> (b: ClusterSiloBuilder)
        ensures
            b == (ClusterSiloBuilder { local_cluster_id: Some(id), ..self }),
    {
        let mut b = self;
        b.local_cluster_id = Some(id);
        b
    }

    /// Adds another cluster that calls can be passed on to.
    pub fn peer_cluster(self, cluster_id: &ClusterId, endpoint: &str) -> (b: ClusterSiloBuilder)
        ensures
            b.peer_endpoints matches Some(peers) && peers@ == (match self.peer_endpoints {
                Some(before) => before@,
                None => Map::empty(),
            }).insert(cluster_id@, endpoint@),
            b == (ClusterSiloBuilder { peer_endpoints: b.peer_endpoints, ..self }),
    {
        let mut b = self;
        let mut peers: StrMap<String> = match b.peer_endpoints {
            Some(peers) => peers,
            None => StrMap::new(),
        };
        peers.insert(cluster_id.to_string(), endpoint.to_string());
        b.peer_endpoints = Some(peers);
        b
    }

    pub fn failover_config(self, config: FailoverConfig) -> (b: ClusterSiloBuilder)
        ensures
            b == (ClusterSiloBuilder { failover_config: config, ..self }),
    {
        let mut b = self;
        b.failover_config = config;
        b
    }

    /// Registers the handler of a message type by a grain type.
    pub fn register(
        self,
        grain_type: &'static str,
        message_type: &'static str,
        rust_type: &'static str,
        message_version: u32,
        pinned_to: Option<&'static [&'static str]>,
        handler: u64,
    ) -> (b: ClusterSiloBuilder)
        requires
            !self.registry@.collides(grain_type@, rust_type@),
        ensures
            b.registry@ == self.registry@.with(
                grain_type@,
                message_type@,
                rust_type@,
                message_version,
                match pinned_to {
                    Some(clusters) => Some(clusters@),
                    None => None,
                },
                handler,
            ),
            b == (ClusterSiloBuilder { registry: b.registry, ..self }),
    {
        let mut b = self;
        b.registry.register(
            grain_type,
            message_type,
            rust_type,
            message_version,
            pinned_to,
            handler,
        );
        b
    }

    /// Whether anybody can call the silo: requests are neither checked nor do they carry a
    /// token.
    pub fn lacks_auth(&self) -> (yes: bool)
        ensures
            yes == (!self.auth && self.auth_token is None),
    {
        !self.auth && self.auth_token.is_none()
    }

    /// Whether the silo's traffic can be read: it has neither an identity nor an authority.
    pub fn lacks_tls(&self) -> (yes: bool)
        ensures
            yes == (self.tls_identity is None && self.tls_ca is None),
    {
        self.tls_identity.is_none() && self.tls_ca.is_none()
    }

    /// The silo's connections, of which none is open: secured as its authority and its identity
    /// say, with its token for every request.
    pub fn new_pool(&self) -> (pool: ConnectionPool)
        ensures
            pool@ == ConnectionPoolView::fresh(
                client_tls(self.tls_ca, self.tls_identity),
                text_of(self.auth_token),
            ),
    {
        match (make_client_tls(&self.tls_ca, &self.tls_identity), &self.auth_token) {
            (Some(tls), Some(token)) => ConnectionPool::with_tls_and_auth(tls, token.clone()),
            (Some(tls), None) => ConnectionPool::with_tls(tls),
            (None, Some(token)) => ConnectionPool::with_auth(token.clone()),
            (None, None) => ConnectionPool::new(),
        }
    }

    /// The silo, under its own identity or else a given one: alone on its ring, and without
    /// connections.
    pub fn build_as(self, other_id: String) -> (silo: ClusterSilo)
        ensures
            silo.local_addr@ == (SiloAddressView {
                host: self.host@,
                port: self.port,
                silo_id: match self.silo_id {
                    Some(id) => id@,
                    None => other_id@,
                },
            }),
            silo.ring@ == client::empty_ring(self.virtual_nodes).with(silo.local_addr@),
            silo.swim_state@ == alone(silo.local_addr@),
            silo.pool@ == ConnectionPoolView::fresh(
                client_tls(self.tls_ca, self.tls_identity),
                text_of(self.auth_token),
            ),
            silo.tcp_pool@ == (TcpConnectionPoolView { clients: Map::empty(), next_client: 0 }),
            silo.registry == self.registry,
            silo.failure_detector_config == self.failure_detector_config,
            silo.placement == self.placement,
            silo.tls_identity == self.tls_identity,
            silo.tls_ca == self.tls_ca,
            silo.auth == self.auth,
            silo.retry_policy == self.retry_policy,
            silo.multi_cluster == self.multi_cluster,
            silo.cross_cluster_dir == self.cross_cluster_dir,
            silo.local_cluster_id == self.local_cluster_id,
            silo.peer_endpoints == self.peer_endpoints,
            silo.failover_config == self.failover_config,
            silo.health_port == self.health_port,
            silo.store_probe == self.store_probe,
    {
        let pool = self.new_pool();
        let silo_id = match self.silo_id {
            Some(id) => id,
            None => other_id,
        };
        let local_addr = SiloAddress { host: self.host, port: self.port, silo_id };
        let mut ring = HashRing::new(self.virtual_nodes);
        ring.add(local_addr.duplicate());
        let swim_state = SwimState::new(local_addr.duplicate());
        ClusterSilo {
            local_addr,
            registry: self.registry,
            ring,
            pool,
            tcp_pool: TcpConnectionPool::new(),
            swim_state,
            failure_detector_config: self.failure_detector_config,
            placement: self.placement,
            tls_identity: self.tls_identity,
            tls_ca: self.tls_ca,
            auth: self.auth,
            retry_policy: self.retry_policy,
            multi_cluster: self.multi_cluster,
            cross_cluster_dir: self.cross_cluster_dir,
            local_cluster_id: self.local_cluster_id,
            peer_endpoints: self.peer_endpoints,
            failover_config: self.failover_config,
            health_port: self.health_port,
            store_probe: self.store_probe,
        }
    }

    /// The silo, under its own identity or else a random one.
    pub fn build(self) -> (silo: ClusterSilo)
        ensures
            silo.local_addr@ == (SiloAddressView {
                host: self.host@,
                port: self.port,
                silo_id: silo.local_addr@.silo_id,
            }),
            match self.silo_id {
                Some(id) => silo.local_addr@.silo_id == id@,
                None => is_random_id(silo.local_addr@.silo_id),
            },
            silo.ring@ == client::empty_ring(self.virtual_nodes).with(silo.local_addr@),
            silo.swim_state@ == alone(silo.local_addr@),
            silo.pool@ == ConnectionPoolView::fresh(
                client_tls(self.tls_ca, self.tls_identity),
                text_of(self.auth_token),
            ),
            silo.tcp_pool@ == (TcpConnectionPoolView { clients: Map::empty(), next_client: 0 }),
            silo.registry == self.registry,
            silo.failure_detector_config == self.failure_detector_config,
            silo.placement == self.placement,
            silo.tls_identity == self.tls_identity,
            silo.tls_ca == self.tls_ca,
            silo.auth == self.auth,
            silo.retry_policy == self.retry_policy,
            silo.multi_cluster == self.multi_cluster,
            silo.cross_cluster_dir == self.cross_cluster_dir,
            silo.local_cluster_id == self.local_cluster_id,
            silo.peer_endpoints == self.peer_endpoints,
            silo.failover_config == self.failover_config,
            silo.health_port == self.health_port,
            silo.store_probe == self.store_probe,
    {
        let id = if self.silo_id.is_some() {
            String::new()
        } else {
            random_id()
        };
        self.build_as(id)
    }
}

/// How a grain is placed: as the grain's own hint says, or else, where it has none or one that
/// is not known, as its silo does.
pub open spec fn placement_for(hint: Option<Seq<char>>, silo: Placement) -> Placement {
    match hint {
        Some(h) => if h == "prefer_local"@ {
            Placement::PreferLocal
        } else if h == "random"@ {
            Placement::Random
        } else if h == "hash"@ {
            Placement::Hash
        } else {
            silo
        },
        None => silo,
    }
}

/// Where a reference leads to a grain that is placed on a silo, or on none: what is placed
/// nowhere or on this silo is used here.
pub open spec fn target_for(
    placed: Option<SiloAddressView>,
    local_silo_id: Seq<char>,
    grain_type: Seq<char>,
    key: Seq<char>,
) -> RefTargetView {
    match placed {
        Some(silo) => if silo.silo_id == local_silo_id {
            RefTargetView::Local
        } else {
            RefTargetView::Remote { endpoint: silo.endpoint(), grain_type, grain_key: key }
        },
        None => RefTargetView::Local,
    }
}

/// The members that a silo takes in when it joins: all but itself.
pub open spec fn taking_in(state: SwimStateView, members: Seq<SiloAddressView>) -> SwimStateView
    decreases members.len(),
{
    if members.len() == 0 {
        state
    } else {
        let before = taking_in(state, members.drop_last());
        let member = members.last();
        if member.silo_id == state.local_addr.silo_id {
            before
        } else {
            before.with_member(member.silo_id, SwimMemberView::joined(member))
        }
    }
}

/// The announcement of each silo that joined.
pub open spec fn joined_changes(members: Seq<SiloAddressView>) -> Seq<MembershipChangeView> {
    members.map_values(|m: SiloAddressView| MembershipChangeView::SiloJoined(m))
}

/// Whether a silo is to be told of one that joined through a seed: every other but the seed.
pub open spec fn to_be_told(local_silo_id: Seq<char>, seed_addr: Seq<char>) -> spec_fn(
    SiloAddressView,
) -> bool {
    |m: SiloAddressView| m.silo_id != local_silo_id && m.endpoint() != seed_addr
}

/// Whether a silo can be joined through: any that is not reached as this one is.
pub open spec fn joinable(own_endpoint: Seq<char>) -> spec_fn(SiloAddressView) -> bool {
    |m: SiloAddressView| m.endpoint() != own_endpoint
}

/// What a silo that joined tells one of the others.
#[derive(Clone, Debug, PartialEq, Eq)]
pub struct Announcement {
    /// Where it is sent.
    pub endpoint: String,
    /// The silo's own address, with the headers it is sent with.
    pub request: AuthorizedRequest<ProtoSiloAddress>,
}

/// Whether a request tells a silo's address, and carries the token of its connections.
pub open spec fn tells_of(
    request: AuthorizedRequest<ProtoSiloAddress>,
    silo: SiloAddressView,
    pool: ConnectionPoolView,
) -> bool {
    &&& request.inner@ == swim::sent_addr(silo)
    &&& auth::first_header(request.metadata.entries@, "authorization"@) == pool.header()
}

/// Whether these are the announcements of a silo to the others: one to each, in their order.
pub open spec fn announces_to(
    announcements: Seq<Announcement>,
    others: Seq<SiloAddressView>,
    silo: SiloAddressView,
    pool: ConnectionPoolView,
) -> bool {
    &&& announcements.len() == others.len()
    &&& forall|i: int|
        0 <= i < others.len() ==> (#[trigger] announcements[i]).endpoint@ == others[i].endpoint()
            && tells_of(announcements[i].request, silo, pool)
}

/// What a silo that serves starts to know of the other clusters; none where there are none.
pub open spec fn health_plan(silo: ClusterSilo) -> Option<ClusterHealthView> {
    match silo.multi_cluster {
        Some(config) => Some(ClusterHealthView::unknown(config@)),
        None => None,
    }
}

/// How a silo that serves takes over from clusters that fail, where it does: it checks them,
/// has a directory, and its cluster has a name.
pub open spec fn failover_plan(silo: ClusterSilo) -> Option<FailoverManagerView> {
    match silo.local_cluster_id {
        Some(id) => if silo.multi_cluster is Some && silo.cross_cluster_dir {
            Some(
                FailoverManagerView {
                    local_cluster_id: id@,
                    grace_period: silo.failover_config.grace_period@,
                    check_interval: silo.failover_config.check_interval@,
                    phases: Map::empty(),
                },
            )
        } else {
            None
        },
        None => None,
    }
}

/// The other clusters that calls are passed on to, where a silo that serves does so: it has a
/// directory, its cluster has a name, and there is a list of them.
pub open spec fn cross_cluster_plan(silo: ClusterSilo) -> Option<CrossClusterView> {
    match (silo.local_cluster_id, silo.peer_endpoints) {
        (Some(id), Some(peers)) => if silo.cross_cluster_dir {
            Some(CrossClusterView { local_cluster_id: id@, peer_endpoints: peers@ })
        } else {
            None
        },
        _ => None,
    }
}

/// Where a silo that serves listens for health checks, where it does.
pub open spec fn health_address(silo: ClusterSilo) -> Option<Seq<char>> {
    match silo.health_port {
        Some(port) => Some(hash_ring::endpoint_text(silo.local_addr@.host, port)),
        None => None,
    }
}

/// The name of the cluster that a silo takes calls from other clusters for, where it does.
pub open spec fn gateway_plan(silo: ClusterSilo) -> Option<Seq<char>> {
    match silo.local_cluster_id {
        Some(id) => Some(id@),
        None => None,
    }
}

/// Whether a silo that serves is secured, and whether it checks its callers' certificates.
pub open spec fn security_plan(silo: ClusterSilo) -> (bool, bool) {
    (silo.tls_identity is Some, silo.tls_identity is Some && silo.tls_ca is Some)
}

/// What follows when so many seeds were tried, of which the last was joined through or not.
pub open spec fn next_seed(seeds: Seq<SiloAddressView>, tried: usize, joined: bool) -> Result<
    Option<SiloAddressView>,
    ClusterErrorView,
> {
    if joined {
        Ok(None)
    } else if tried < seeds.len() {
        Ok(Some(seeds[tried as int]))
    } else {
        Err(ClusterErrorView::Transport("no reachable seeds found via membership provider"@))
    }
}

/// What a silo runs when it serves.
pub struct ServePlan {
    /// Where it listens for calls.
    pub bind_addr: String,
    /// The part that takes calls on grains.
    pub transport: GrainTransportService,
    /// Where it listens for health checks.
    pub health_addr: Option<String>,
    /// What it knows of the other clusters, where it checks them.
    pub check_peers: Option<ClusterHealth>,
    /// How it takes over from clusters that fail, where it does.
    pub failover: Option<FailoverManager>,
    /// The part that takes calls from other clusters.
    pub gateway: Option<ClusterGatewayService>,
    /// Whether it is secured, and whether it checks the certificates of its callers.
    pub secured: bool,
    pub checks_callers: bool,
}

impl ClusterSilo {
    /// Configures a silo.
    pub fn builder() -> (b: ClusterSiloBuilder)
        ensures
            b.host@ == "127.0.0.1"@,
            b.port == 0,
            b.silo_id is None,
            b.registry@ == MessageRegistryView::empty(),
            b.virtual_nodes == 150,
            b.placement is Hash,
            b.tls_identity is None && b.tls_ca is None,
            !b.auth && b.auth_token is None,
            b.multi_cluster is None && !b.cross_cluster_dir,
            b.local_cluster_id is None && b.peer_endpoints is None,
            b.health_port is None && !b.store_probe,
            b.retry_policy.max_retries == 2,
            b.retry_policy.base_delay@ == 100 * time::NANOS_PER_MILLI,
            b.retry_policy.max_delay@ == 2 * time::NANOS_PER_SEC,
            b.failover_config.grace_period@ == 30 * time::NANOS_PER_SEC,
            b.failover_config.check_interval@ == 5 * time::NANOS_PER_SEC,
            b.failure_detector_config.gossip_fanout == 6,
            b.failure_detector_config.ping_req_count == 3,
            b.failure_detector_config.protocol_period@ == 2 * time::NANOS_PER_SEC,
            b.failure_detector_config.ping_timeout@ == time::NANOS_PER_SEC,
            b.failure_detector_config.suspect_timeout@ == 5 * time::NANOS_PER_SEC,
    {
        ClusterSiloBuilder::new()
    }

    pub fn local_addr(&self) -> (addr: &SiloAddress)
        ensures
            addr@ == self.local_addr@,
    {
        &self.local_addr
    }

    pub fn pool(&self) -> (pool: &ConnectionPool)
        ensures
            pool@ == self.pool@,
    {
        &self.pool
    }

    /// The clients for plain connections to other silos.
    pub fn tcp_pool(&self) -> (pool: &TcpConnectionPool)
        ensures
            pool@ == self.tcp_pool@,
    {
        &self.tcp_pool
    }

    /// The name of the silo's cluster, where it is one of several.
    pub fn cluster_id(&self) -> (id: Option<&ClusterId>)
        ensures
            match id {
                Some(i) => self.multi_cluster matches Some(config) && i@ == config@.cluster_id,
                None => self.multi_cluster is None,
            },
    {
        match &self.multi_cluster {
            Some(config) => Some(&config.cluster_id),
            None => None,
        }
    }

    /// A reference to a grain that is placed on a silo, or on none.
    pub fn reference_to(&self, target: Option<SiloAddress>, grain_type: &'static str, key: &str) -> (reference:
        ClusterGrainRef)
        ensures
            reference@.target == target_for(
                match target {
                    Some(t) => Some(t@),
                    None => None,
                },
                self.local_addr@.silo_id,
                grain_type@,
                key@,
            ),
            reference@.retry_policy == self.retry_policy,
            !reference@.reads_replicas,
            reference@.max_staleness == 0,
    {
        let reference = match target {
            Some(t) => if same_text(t.silo_id.as_str(), self.local_addr.silo_id.as_str()) {
                ClusterGrainRef::local()
            } else {
                ClusterGrainRef::remote(t.endpoint(), grain_type, key.to_string())
            },
            None => ClusterGrainRef::local(),
        };
        reference.with_retry_policy(self.retry_policy)
    }

    /// A reference to a grain, which is placed as its hint says, or else as its silo does.
    /// What a strategy of the silo's owner says is given along.
    pub fn get_ref(
        &self,
        grain_type: &'static str,
        key: &str,
        hint: Option<&str>,
        custom: Option<SiloAddress>,
    ) -> (reference: ClusterGrainRef)
        ensures
            ({
                let local = self.local_addr@.silo_id;
                let joined = grain::joined_key(grain_type@, key@);
                let members = self.ring@.members();
                let chosen = placement_for(
                    match hint {
                        Some(h) => Some(h@),
                        None => None,
                    },
                    self.placement,
                );
                match chosen {
                    Placement::Hash => reference@.target == target_for(
                        self.ring@.owner(joined),
                        local,
                        grain_type@,
                        key@,
                    ),
                    Placement::PreferLocal => reference@.target == target_for(
                        placement::member_with_id(members, local),
                        local,
                        grain_type@,
                        key@,
                    ),
                    Placement::Random => if members.len() == 0 {
                        reference@.target is Local
                    } else {
                        exists|i: int|
                            0 <= i < members.len() && reference@.target == target_for(
                                Some(#[trigger] members[i]),
                                local,
                                grain_type@,
                                key@,
                            )
                    },
                    Placement::Custom => reference@.target == target_for(
                        match custom {
                            Some(t) => Some(t@),
                            None => None,
                        },
                        local,
                        grain_type@,
                        key@,
                    ),
                }
            }),
            reference@.retry_policy == self.retry_policy,
            !reference@.reads_replicas,
    {
        let chosen: Placement = match hint {
            Some(h) => if same_text(h, "prefer_local") {
                Placement::PreferLocal
            } else if same_text(h, "random") {
                Placement::Random
            } else if same_text(h, "hash") {
                Placement::Hash
            } else {
                self.placement
            },
            None => self.placement,
        };
        let local = self.local_addr.silo_id.as_str();
        let target = match chosen {
            Placement::Hash => HashBasedPlacement.place(grain_type, key, local, &self.ring),
            Placement::PreferLocal => PreferLocalPlacement.place(
                grain_type,
                key,
                local,
                &self.ring,
            ),
            Placement::Random => {
                let target = RandomPlacement.place(grain_type, key, local, &self.ring);
                proof {
                    if target is Some {
                        let members = self.ring@.members();
                        let i = members.index_of(target->0@);
                        assert(members[i] == target->0@);
                    }
                }
                target
            },
            Placement::Custom => custom,
        };
        self.reference_to(target, grain_type, key)
    }

    /// What the silo tells a seed to join through it.
    pub fn join_request(&self) -> (request: AuthorizedRequest<ProtoSiloAddress>)
        ensures
            request.inner@ == swim::sent_addr(self.local_addr@),
            auth::first_header(request.metadata.entries@, "authorization"@) == self.pool@.header(),
    {
        self.pool.authorized_request(to_proto_addr(&self.local_addr))
    }

    fn announcements(&self, peers: &Vec<SiloAddress>) -> (announcements: Vec<Announcement>)
        ensures
            announces_to(announcements@, maps::views(peers@), self.local_addr@, self.pool@),
    {
        let mut announcements: Vec<Announcement> = Vec::new();
        let mut i: usize = 0;
        while i < peers.len()
            invariant
                i <= peers.len(),
                announcements@.len() == i,
                forall|j: int|
                    0 <= j < i ==> (#[trigger] announcements@[j]).endpoint@
                        == peers@[j]@.endpoint() && tells_of(
                        announcements@[j].request,
                        self.local_addr@,
                        self.pool@,
                    ),
            decreases peers.len() - i,
        {
            announcements.push(
                Announcement { endpoint: peers[i].endpoint(), request: self.join_request() },
            );
            i += 1;
        }
        announcements
    }

    /// Takes in what a seed answered: puts the members on the ring, remembers the others,
    /// and says what changed, and what to tell of this silo to every other member but the
    /// seed, which knows already.
    pub fn join_cluster(&mut self, members: &Vec<ProtoSiloAddress>, seed_addr: &str) -> (outcome: (
        Vec<MembershipChange>,
        Vec<Announcement>,
    ))
        requires
            old(self).swim_state@.local_addr == old(self).local_addr@,
        ensures
            ({
                let silos = client::received_addrs(maps::views(members@));
                &&& final(self).ring@ == client::ring_of(old(self).ring@, silos)
                &&& final(self).swim_state@ == taking_in(old(self).swim_state@, silos)
                &&& maps::views(outcome.0@) == joined_changes(silos)
                &&& announces_to(
                    outcome.1@,
                    silos.filter(to_be_told(old(self).local_addr@.silo_id, seed_addr@)),
                    old(self).local_addr@,
                    old(self).pool@,
                )
            }),
            *final(self) == (ClusterSilo {
                ring: final(self).ring,
                swim_state: final(self).swim_state,
                ..*old(self)
            }),
    {
        let silos = from_proto_addrs(members);
        let ghost all = maps::views(silos@);
        let ghost keep = to_be_told(self.local_addr@.silo_id, seed_addr@);
        let mut changes: Vec<MembershipChange> = Vec::new();
        let mut peers: Vec<SiloAddress> = Vec::new();
        let mut i: usize = 0;
        proof {
            assert(all.take(0) =~= Seq::<SiloAddressView>::empty());
            assert(maps::views(changes@) =~= joined_changes(all.take(0)));
            maps::lemma_filter_nothing(all, keep);
            assert(maps::views(peers@) =~= Seq::<SiloAddressView>::empty());
        }
        while i < silos.len()
            invariant
                i <= silos.len(),
                all == maps::views(silos@),
                keep == to_be_told(old(self).local_addr@.silo_id, seed_addr@),
                old(self).swim_state@.local_addr == old(self).local_addr@,
                *self == (ClusterSilo {
                    ring: self.ring,
                    swim_state: self.swim_state,
                    ..*old(self)
                }),
                self.ring@ == client::ring_of(old(self).ring@, all.take(i as int)),
                self.swim_state@ == taking_in(old(self).swim_state@, all.take(i as int)),
                maps::views(changes@) == joined_changes(all.take(i as int)),
                maps::views(peers@) == all.take(i as int).filter(keep),
            decreases silos.len() - i,
        {
            let silo = &silos[i];
            proof {
                assert(all[i as int] == silo@);
                assert(all.take(i + 1).drop_last() =~= all.take(i as int));
                assert(all.take(i + 1).last() == silo@);
                maps::lemma_take_filter(all, keep, i as int);
            }
            self.ring.add(silo.duplicate());
            let other: bool = !same_text(
                silo.silo_id.as_str(),
                self.local_addr.silo_id.as_str(),
            );
            if other {
                self.swim_state.welcome(silo.duplicate());
                if !same_text(silo.endpoint().as_str(), seed_addr) {
                    let ghost before = peers@;
                    peers.push(silo.duplicate());
                    assert(maps::views(peers@) =~= maps::views(before).push(silo@));
                }
            }
            let ghost before = changes@;
            changes.push(MembershipChange::SiloJoined(silo.duplicate()));
            proof {
                assert(maps::views(changes@) =~= maps::views(before).push(
                    MembershipChangeView::SiloJoined(silo@),
                ));
                assert(joined_changes(all.take(i + 1)) =~= joined_changes(all.take(i as int)).push(
                    MembershipChangeView::SiloJoined(silo@),
                ));
            }
            i += 1;
        }
        assert(all.take(i as int) =~= all);
        let announcements = self.announcements(&peers);
        (changes, announcements)
    }

    /// The silos to join through, of those that were discovered, in their order: all but
    /// this one.
    pub fn seeds(&self, discovered: &Vec<SiloAddress>) -> (seeds: Vec<SiloAddress>)
        ensures
            maps::views(seeds@) == maps::views(discovered@).filter(
                joinable(self.local_addr@.endpoint()),
            ),
    {
        let own = self.local_addr.endpoint();
        let ghost all = maps::views(discovered@);
        let ghost keep = joinable(self.local_addr@.endpoint());
        let mut seeds: Vec<SiloAddress> = Vec::new();
        let mut i: usize = 0;
        proof {
            maps::lemma_filter_nothing(all, keep);
            assert(maps::views(seeds@) =~= Seq::<SiloAddressView>::empty());
        }
        while i < discovered.len()
            invariant
                i <= discovered.len(),
                all == maps::views(discovered@),
                own@ == self.local_addr@.endpoint(),
                keep == joinable(self.local_addr@.endpoint()),
                maps::views(seeds@) == all.take(i as int).filter(keep),
            decreases discovered.len() - i,
        {
            let silo = &discovered[i];
            proof {
                assert(all[i as int] == silo@);
                maps::lemma_take_filter(all, keep, i as int);
            }
            if !same_text(silo.endpoint().as_str(), own.as_str()) {
                let ghost before = seeds@;
                seeds.push(silo.duplicate());
                assert(maps::views(seeds@) =~= maps::views(before).push(silo@));
            }
            i += 1;
        }
        assert(all.take(i as int) =~= all);
        seeds
    }

    /// What follows when so many seeds were tried, of which the last was joined through or
    /// not: nothing more, the next seed, or giving up.
    pub fn discover_and_join(&self, seeds: &Vec<SiloAddress>, tried: usize, joined: bool) -> (next:
        Result<Option<SiloAddress>, ClusterError>)
        ensures
            match next {
                Ok(None) => joined,
                Ok(Some(seed)) => !joined && tried < seeds@.len() && seed@ == seeds@[tried as int]@,
                Err(e) => !joined && tried >= seeds@.len() && e@ == ClusterErrorView::Transport(
                    "no reachable seeds found via membership provider"@,
                ),
            },
            next_seed(maps::views(seeds@), tried, joined) == (match next {
                Ok(Some(seed)) => Ok(Some(seed@)),
                Ok(None) => Ok(None),
                Err(e) => Err(e@),
            }),
    {
        if joined {
            Ok(None)
        } else if tried < seeds.len() {
            Ok(Some(seeds[tried].duplicate()))
        } else {
            Err(
                ClusterError::Transport(
                    "no reachable seeds found via membership provider".to_string(),
                ),
            )
        }
    }

    /// What the silo runs when it serves. Calls are passed on to other clusters where there
    /// is a directory, a name for this cluster, and a list of peers; clusters that fail are
    /// taken over from where there is a directory and a name, and the peers are checked.
    pub fn serve(&self) -> (plan: ServePlan)
        ensures
            plan.bind_addr@ == self.local_addr@.endpoint(),
            plan.transport@.local_silo_id == self.local_addr@.silo_id,
            plan.transport@.cross_cluster == (match (self.local_cluster_id, self.peer_endpoints) {
                (Some(id), Some(peers)) => if self.cross_cluster_dir {
                    Some(
                        CrossClusterView { local_cluster_id: id@, peer_endpoints: peers@ },
                    )
                } else {
                    None
                },
                _ => None,
            }),
            match (self.health_port, plan.health_addr) {
                (Some(port), Some(addr)) => addr@ == hash_ring::endpoint_text(
                    self.local_addr@.host,
                    port,
                ),
                (None, None) => true,
                _ => false,
            },
            match plan.check_peers {
                Some(health) => health_plan(*self) == Some(health@),
                None => health_plan(*self) is None,
            },
            match plan.failover {
                Some(manager) => failover_plan(*self) == Some(manager@),
                None => failover_plan(*self) is None,
            },
            match (self.local_cluster_id, plan.gateway) {
                (Some(id), Some(gateway)) => gateway@ == id@,
                (None, None) => true,
                _ => false,
            },
            plan.secured == (self.tls_identity is Some),
            plan.checks_callers == (self.tls_identity is Some && self.tls_ca is Some),
            plan.transport@.cross_cluster == cross_cluster_plan(*self),
            text_of(plan.health_addr) == health_address(*self),
            (match plan.gateway {
                Some(gateway) => Some(gateway@),
                None => None,
            }) == gateway_plan(*self),
            (plan.secured, plan.checks_callers) == security_plan(*self),
    {
        let mut transport = GrainTransportService::new(self.local_addr.silo_id.clone());
        if self.cross_cluster_dir {
            if let (Some(id), Some(peers)) = (&self.local_cluster_id, &self.peer_endpoints) {
                transport = transport.with_cross_cluster(id.duplicate(), peers.duplicate());
            }
        }
        let health_addr = match self.health_port {
            Some(port) => Some(endpoint_of(self.local_addr.host.as_str(), port)),
            None => None,
        };
        let check_peers = match &self.multi_cluster {
            Some(config) => Some(ClusterHealth::new(config.duplicate())),
            None => None,
        };
        let failover = match &self.local_cluster_id {
            Some(id) => if self.multi_cluster.is_some() && self.cross_cluster_dir {
                Some(
                    FailoverManager::new(
                        id.duplicate(),
                        FailoverConfig {
                            grace_period: self.failover_config.grace_period,
                            check_interval: self.failover_config.check_interval,
                        },
                    ),
                )
            } else {
                None
            },
            None => None,
        };
        let gateway = match &self.local_cluster_id {
            Some(id) => Some(ClusterGatewayService::new(id.to_string())),
            None => None,
        };
        ServePlan {
            bind_addr: self.local_addr.endpoint(),
            transport,
            health_addr,
            check_peers,
            failover,
            gateway,
            secured: self.tls_identity.is_some(),
            checks_callers: self.tls_identity.is_some() && self.tls_ca.is_some(),
        }
    }
}

/// A silo that is alone on its ring uses every grain itself, where grains are placed by the
/// ring.
pub proof fn sole_silo_places_grains_on_itself(
    silo: SiloAddressView,
    virtual_nodes: u32,
    grain_type: Seq<char>,
    key: Seq<char>,
)
    ensures
        target_for(
            client::empty_ring(virtual_nodes).with(silo).owner(grain::joined_key(grain_type, key)),
            silo.silo_id,
            grain_type,
            key,
        ) is Local,
{
    let ring = client::empty_ring(virtual_nodes).with(silo);
    if !ring.is_empty() {
        hash_ring::owner_is_first_met(ring, grain::joined_key(grain_type, key));
    }
}

/// A grain's own hint wins over its silo's strategy, whichever that is; without a hint, or with
/// one that is not known, the silo's strategy counts.
pub proof fn hints_win_over_the_silo(silo: Placement, hint: Seq<char>)
    ensures
        placement_for(Some("hash"@), silo) is Hash,
        placement_for(Some("prefer_local"@), silo) is PreferLocal,
        placement_for(Some("random"@), silo) is Random,
        placement_for(None, silo) == silo,
        hint != "hash"@ && hint != "prefer_local"@ && hint != "random"@ ==> placement_for(
            Some(hint),
            silo,
        ) == silo,
{
    reveal_strlit("hash");
    reveal_strlit("prefer_local");
    reveal_strlit("random");
    assert("hash"@.len() == 4 && "prefer_local"@.len() == 12 && "random"@.len() == 6);
}

/// A hint to stay local keeps a grain on its silo, on whatever ring.
pub proof fn local_hint_keeps_grains_local(
    ring: HashRingView,
    local_silo_id: Seq<char>,
    grain_type: Seq<char>,
    key: Seq<char>,
)
    ensures
        target_for(
            placement::member_with_id(ring.members(), local_silo_id),
            local_silo_id,
            grain_type,
            key,
        ) is Local,
{
    placement::local_placement_finds_the_local_silo(ring.members(), local_silo_id);
}

/// A silo that joined knows every other member that it was told of, and never itself.
pub proof fn joining_takes_in_the_others(
    state: SwimStateView,
    members: Seq<SiloAddressView>,
    id: Seq<char>,
)
    ensures
        taking_in(state, members).members.dom().contains(id) <==> (
        state.members.dom().contains(id) || (id != state.local_addr.silo_id && (exists|i: int|
            0 <= i < members.len() && (#[trigger] members[i]).silo_id == id))),
        taking_in(state, members).local_addr == state.local_addr,
        taking_in(state, members).pending == state.pending,
    decreases members.len(),
{
    if members.len() > 0 {
        let rest = members.drop_last();
        joining_takes_in_the_others(state, rest, id);
        if exists|i: int| 0 <= i < members.len() && (#[trigger] members[i]).silo_id == id {
            let i = choose|i: int|
                0 <= i < members.len() && (#[trigger] members[i]).silo_id == id;
            if i < rest.len() {
                assert(rest[i].silo_id == id);
            }
        }
        if exists|i: int| 0 <= i < rest.len() && (#[trigger] rest[i]).silo_id == id {
            let i = choose|i: int| 0 <= i < rest.len() && (#[trigger] rest[i]).silo_id == id;
            assert(members[i].silo_id == id);
        }
        assert(members[members.len() - 1] == members.last());
    }
}

/// A reference by the ring leads where a call on the grain would be passed on to: nowhere
/// else than to the silo that the ring gives the grain to.
pub proof fn references_and_routing_agree(
    ring: HashRingView,
    local_silo_id: Seq<char>,
    grain_type: Seq<char>,
    key: Seq<char>,
)
    ensures
        match target_for(
            ring.owner(grain::joined_key(grain_type, key)),
            local_silo_id,
            grain_type,
            key,
        ) {
            RefTargetView::Local => crate::transport::remote_owner(
                ring,
                local_silo_id,
                grain_type,
                key,
            ) is None,
            RefTargetView::Remote { endpoint, .. } => crate::transport::remote_owner(
                ring,
                local_silo_id,
                grain_type,
                key,
            ) == Some(endpoint),
        },
{
}

/// Whether a round of checks has ended in which a peer did not answer, and what is known is
/// what that round found.
pub open spec fn found_silent(
    health: ClusterHealthView,
    config: MultiClusterConfigView,
    peer: Seq<char>,
) -> bool {
    exists|answered: Seq<bool>|
        health.statuses == #[trigger] multi_cluster::round_result(config.peers, answered)
            && !answered[maps::in_text_order(config.peers.dom()).index_of(peer)]
}

/// What is known of a peer at each look at it, with the time of the look.
pub open spec fn looks_at(
    peer: Seq<char>,
    known: Seq<ClusterHealthView>,
    times: Seq<Instant>,
) -> Seq<(PeerStatus, Instant)> {
    Seq::new(known.len(), |i: int| (known[i].status(peer), times[i]))
}

/// A silo that serves with a list of peers, a name for its cluster and a directory takes over
/// the grains of a peer that answers no check. Up to the look `first` no round of checks has
/// ended, from then on each round found the peer silent, and `due` is the first look at which
/// the peer has been silent for the grace period. The peer is left alone up to then; at the
/// next look its grains are taken over, and each then belongs to this cluster at the epoch
/// after its last.
pub proof fn served_silo_takes_over_from_a_silent_peer(
    silo: ClusterSilo,
    config: MultiClusterConfig,
    local: ClusterId,
    peer: Seq<char>,
    known: Seq<ClusterHealthView>,
    times: Seq<Instant>,
    first: int,
    due: int,
    before: Entries,
    after: Entries,
    grain: GrainIdView,
)
    requires
        silo.multi_cluster == Some(config),
        silo.local_cluster_id == Some(local),
        silo.cross_cluster_dir,
        config@.peers.dom().contains(peer),
        known.len() == times.len(),
        0 <= first < due < times.len() - 1,
        forall|i: int| 0 <= i < first ==> Some(#[trigger] known[i]) == health_plan(silo),
        forall|i: int| first <= i < known.len() ==> found_silent(#[trigger] known[i], config@, peer),
        forall|i: int|
            first < i < due ==> (#[trigger] times[i]).since(times[first])
                < silo.failover_config.grace_period@,
        times[due].since(times[first]) >= silo.failover_config.grace_period@,
        before.dom().contains(grain.entry_key()),
        before[grain.entry_key()].ownership.cluster_id == peer,
        failover::taken_over(before, after, peer, local@),
    ensures
        failover_plan(silo) matches Some(manager) && {
            let looks = looks_at(peer, known, times);
            &&& manager.local_cluster_id == local@
            &&& manager.grace_period == silo.failover_config.grace_period@
            &&& manager.check_interval == silo.failover_config.check_interval@
            &&& forall|n: int|
                0 <= n <= due ==> !failover::takes_over(
                    looks[n].0,
                    failover::phase_after(
                        manager.phase(peer),
                        #[trigger] looks.take(n),
                        manager.grace_period,
                    ),
                )
            &&& failover::takes_over(
                looks[due + 1].0,
                failover::phase_after(
                    manager.phase(peer),
                    looks.take(due + 1),
                    manager.grace_period,
                ),
            )
        },
        after[grain.entry_key()].ownership.cluster_id == local@,
        after[grain.entry_key()].ownership.epoch == before[grain.entry_key()].ownership.epoch + 1,
{
    let looks = looks_at(peer, known, times);
    assert forall|i: int| 0 <= i < first implies (#[trigger] looks[i]).0 is Unknown by {
        assert(Some(known[i]) == health_plan(silo));
    }
    assert forall|i: int| first <= i < looks.len() implies (#[trigger] looks[i]).0 is Unreachable by {
        assert(found_silent(known[i], config@, peer));
    }
    assert forall|i: int| first < i < due implies (#[trigger] looks[i]).1.since(looks[first].1)
        < silo.failover_config.grace_period@ by {
        assert(times[i].since(times[first]) < silo.failover_config.grace_period@);
    }
    failover::silent_peer_is_taken_over(looks, silo.failover_config.grace_period@, first, due);
}

/// Everything that a silo with a token sends to join, to the seed and to the others, carries
/// the token, where it can be sent in a header.
pub proof fn joining_carries_the_token(
    request: AuthorizedRequest<ProtoSiloAddress>,
    silo: SiloAddressView,
    tls: Option<ClientTlsView>,
    token: Seq<char>,
)
    requires
        connection_pool::sendable(token),
        tells_of(request, silo, ConnectionPoolView::fresh(tls, Some(token))),
    ensures
        auth::first_header(request.metadata.entries@, "authorization"@) == Some(encode_utf8(token)),
{
}

/// A reference to a grain that is placed on another silo leads to that silo, and what is sent
/// by it is for that very grain; one that is placed here or nowhere is used here.
pub proof fn references_name_their_grain(
    placed: SiloAddressView,
    local_silo_id: Seq<char>,
    grain_type: Seq<char>,
    key: Seq<char>,
    message_type: Seq<char>,
    message_version: u32,
    payload: Seq<u8>,
    context: Map<Seq<char>, Seq<char>>,
)
    ensures
        ({
            let target = target_for(Some(placed), local_silo_id, grain_type, key);
            let request = cluster_grain_ref::request_to(
                target,
                message_type,
                message_version,
                payload,
                context,
            );
            if placed.silo_id == local_silo_id {
                target is Local && request is None
            } else {
                &&& target matches RefTargetView::Remote { endpoint, grain_type: t, grain_key: k }
                    && endpoint == placed.host + seq![':'] + crate::text::decimal(
                    placed.port as nat,
                ) && t == grain_type && k == key
                &&& request matches Some(r) && r.grain_type == grain_type && r.grain_key == key
                    && r.message_type == message_type && r.payload == payload
                    && r.request_context == context && r.message_version == message_version
            }
        }),
        target_for(None, local_silo_id, grain_type, key) is Local,
{
}

/// After joining, each other silo that the seed listed is known at the address that it was last
/// listed with, alive and at incarnation zero; what was known of silos that were not listed
/// stays.
pub proof fn joining_remembers_where_the_others_are(
    state: SwimStateView,
    members: Seq<SiloAddressView>,
    last: int,
    id: Seq<char>,
)
    requires
        0 <= last < members.len(),
        members[last].silo_id != state.local_addr.silo_id,
        forall|j: int|
            last < j < members.len() ==> (#[trigger] members[j]).silo_id != members[last].silo_id,
    ensures
        ({
            let known = taking_in(state, members).members;
            let member = known[members[last].silo_id];
            &&& known.dom().contains(members[last].silo_id)
            &&& member.addr == members[last]
            &&& member.status is Alive
            &&& member.incarnation == 0
            &&& id == state.local_addr.silo_id || (forall|j: int|
                0 <= j < members.len() ==> (#[trigger] members[j]).silo_id != id)
                ==> known.dom().contains(id) == state.members.dom().contains(id) && known[id]
                == state.members[id]
        }),
    decreases members.len(),
{
    lemma_unlisted_stay(state, members, id);
    let rest = members.drop_last();
    if last < rest.len() {
        assert forall|j: int| last < j < rest.len() implies (#[trigger] rest[j]).silo_id
            != rest[last].silo_id by {
            assert(members[j].silo_id != members[last].silo_id);
        }
        joining_remembers_where_the_others_are(state, rest, last, id);
        assert(members[members.len() - 1].silo_id != members[last].silo_id);
    }
}

proof fn lemma_unlisted_stay(
    state: SwimStateView,
    members: Seq<SiloAddressView>,
    id: Seq<char>,
)
    ensures
        id == state.local_addr.silo_id || (forall|j: int|
            0 <= j < members.len() ==> (#[trigger] members[j]).silo_id != id) ==> taking_in(
            state,
            members,
        ).members.dom().contains(id) == state.members.dom().contains(id) && taking_in(
            state,
            members,
        ).members[id] == state.members[id],
    decreases members.len(),
{
    if members.len() > 0 {
        let rest = members.drop_last();
        lemma_unlisted_stay(state, rest, id);
        if forall|j: int| 0 <= j < members.len() ==> (#[trigger] members[j]).silo_id != id {
            assert forall|j: int| 0 <= j < rest.len() implies (#[trigger] rest[j]).silo_id
                != id by {
                assert(members[j].silo_id != id);
            }
            assert(members[members.len() - 1].silo_id != id);
        }
    }
}

/// A silo that joined announces every silo it was told of, in the order it was told, and tells
/// of itself exactly the others, but for the seed.
pub proof fn joining_tells_the_others(
    members: Seq<SiloAddressView>,
    local_silo_id: Seq<char>,
    seed_addr: Seq<char>,
    m: SiloAddressView,
    i: int,
)
    ensures
        joined_changes(members).len() == members.len(),
        0 <= i < members.len() ==> joined_changes(members)[i] == MembershipChangeView::SiloJoined(
            members[i],
        ),
        members.filter(to_be_told(local_silo_id, seed_addr)).contains(m) <==> members.contains(m)
            && m.silo_id != local_silo_id && m.host + seq![':'] + crate::text::decimal(
            m.port as nat,
        ) != seed_addr,
{
    let keep = to_be_told(local_silo_id, seed_addr);
    maps::lemma_filter_distinct(members, keep);
    if members.contains(m) && keep(m) {
        members.lemma_filter_contains(keep, members.index_of(m));
    }
}

/// A silo tries to join through everyone that was found, but for one that is reached as it is
/// itself.
pub proof fn everyone_else_is_a_seed(
    found: Seq<SiloAddressView>,
    own_endpoint: Seq<char>,
    m: SiloAddressView,
)
    ensures
        found.filter(joinable(own_endpoint)).contains(m) <==> found.contains(m) && m.host
            + seq![':'] + crate::text::decimal(m.port as nat) != own_endpoint,
{
    let keep = joinable(own_endpoint);
    maps::lemma_filter_distinct(found, keep);
    if found.contains(m) && keep(m) {
        found.lemma_filter_contains(keep, found.index_of(m));
    }
}

/// A silo that was just built knows nobody and has nothing to tell; its connections trust the
/// authority that it was given, under its own identity if it has one, and are not secured where
/// it has no authority.
pub proof fn new_silos_are_alone(
    local_addr: SiloAddressView,
    ca: Vec<u8>,
    identity: Option<TlsIdentity>,
)
    ensures
        alone(local_addr).members.dom() == Set::<Seq<char>>::empty(),
        alone(local_addr).local_addr == local_addr,
        alone(local_addr).local_incarnation == 0,
        alone(local_addr).pending.len() == 0,
        client_tls(None, identity) is None,
        client_tls(Some(ca), identity) matches Some(tls) && tls.ca_pem == ca@ && (match identity {
            Some(own) => tls.identity matches Some(i) && i.cert_pem == own.cert_pem@ && i.key_pem
                == own.key_pem@,
            None => tls.identity is None,
        }),
{
}

/// Calls are passed on to the listed clusters exactly where there is a directory, a name for
/// this cluster and a list; failed clusters are taken over from exactly where there is a
/// directory, a name, and the peers are checked. The peers are checked where they are
/// configured, and calls from other clusters are taken where this one has a name. Health checks
/// are answered on the silo's host, at the port that is set for them. The silo is secured where
/// it has an identity, and checks its callers' certificates where it also has an authority.
pub proof fn a_silo_serves_what_it_is_configured_for(silo: ClusterSilo)
    ensures
        cross_cluster_plan(silo) is Some <==> silo.cross_cluster_dir && silo.local_cluster_id is Some
            && silo.peer_endpoints is Some,
        cross_cluster_plan(silo) matches Some(plan) ==> plan.local_cluster_id
            == silo.local_cluster_id->0@ && plan.peer_endpoints == silo.peer_endpoints->0@,
        health_plan(silo) is Some <==> silo.multi_cluster is Some,
        health_plan(silo) matches Some(plan) ==> plan.config == silo.multi_cluster->0@,
        failover_plan(silo) is Some <==> silo.cross_cluster_dir && silo.local_cluster_id is Some
            && silo.multi_cluster is Some,
        gateway_plan(silo) is Some <==> silo.local_cluster_id is Some,
        gateway_plan(silo) matches Some(name) ==> name == silo.local_cluster_id->0@,
        health_address(silo) is Some <==> silo.health_port is Some,
        health_address(silo) matches Some(address) ==> address == silo.local_addr@.host + seq![':']
            + text::decimal(silo.health_port->0 as nat),
        security_plan(silo).0 <==> silo.tls_identity is Some,
        security_plan(silo).1 <==> silo.tls_identity is Some && silo.tls_ca is Some,
{
    if let Some(port) = silo.health_port {
        let host = silo.local_addr@.host;
        assert(hash_ring::endpoint_text(host, port) =~= host + seq![':'] + text::decimal(
            port as nat,
        ));
    }
}

/// Seeds are tried one after the other, each once, until one was joined through; where none was,
/// joining fails.
pub proof fn seeds_are_tried_in_turn(seeds: Seq<SiloAddressView>, tried: usize)
    ensures
        next_seed(seeds, tried, true) == Ok::<Option<SiloAddressView>, ClusterErrorView>(None),
        tried < seeds.len() ==> next_seed(seeds, tried, false) == Ok::<
            Option<SiloAddressView>,
            ClusterErrorView,
        >(Some(seeds[tried as int])),
        tried >= seeds.len() ==> next_seed(seeds, tried, false) == Err::<
            Option<SiloAddressView>,
            ClusterErrorView,
        >(ClusterErrorView::Transport("no reachable seeds found via membership provider"@)),
{
}

} // verus!
