//! The decision core of a virtual-actor cluster: where grains live, who is a member, what
//! becomes of a call, and how clusters watch over each other. Sockets, clocks and tasks are
//! left to the programs around it.

pub mod auth;
pub mod client;
pub mod cluster_gateway;
pub mod cluster_grain_ref;
pub mod cluster_silo;
pub mod connection_pool;
pub mod cross_cluster_directory;
pub mod discovery;
pub mod error;
pub mod failover;
pub mod failure_detector;
pub mod grain;
pub mod hash_ring;
pub mod health_server;
pub mod maps;
pub mod membership;
pub mod membership_table;
pub mod message_registry;
pub mod multi_cluster;
pub mod network_message;
pub mod placement;
pub mod proto;
pub mod rebalancer;
pub mod replication_consumer;
pub mod retry;
pub mod sqlite_membership_table;
pub mod store_wrapper;
pub mod swim;
pub mod tcp_transport;
pub mod text;
pub mod time;
pub mod transport;

pub use auth::{ClusterAuth, SharedSecretAuth};
pub use client::{ClientError, GrainHandle, OrlandoClient};
pub use cluster_gateway::ClusterGatewayService;
pub use cluster_grain_ref::ClusterGrainRef;
pub use cluster_silo::{ClusterSilo, ClusterSiloBuilder};
pub use connection_pool::ConnectionPool;
pub use cross_cluster_directory::{
    CrossClusterDirectory, DirectoryError, GrainOwnership, InMemoryCrossClusterDirectory,
};
pub use discovery::{
    ConsulMembershipProvider, DnsMembershipProvider, MembershipProvider, StaticSeedProvider,
};
pub use error::ClusterError;
pub use failover::{FailoverConfig, FailoverManager, FailoverPhase};
pub use failure_detector::{FailureDetector, FailureDetectorConfig, MembershipChange};
pub use grain::{ClusterId, GrainError, GrainId};
pub use hash_ring::{HashRing, SiloAddress};
pub use membership::MembershipService;
pub use membership_table::{
    InMemoryMembershipTable, MemberEntry, MembershipError, MembershipStatus, MembershipTable,
    MembershipView,
};
pub use message_registry::MessageRegistry;
pub use multi_cluster::{ClusterHealth, MultiClusterConfig, PeerStatus};
pub use network_message::{Encoding, NetworkMessage};
pub use placement::{HashBasedPlacement, PlacementStrategy, PreferLocalPlacement, RandomPlacement};
pub use rebalancer::Rebalancer;
pub use replication_consumer::ReplicationConsumer;
pub use retry::RetryPolicy;
pub use store_wrapper::{ReplicaEntry, ReplicaStore};
pub use transport::GrainTransportService;
