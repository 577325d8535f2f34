//! Calling grains from outside the cluster.

use vstd::prelude::*;

use crate::grain;
use crate::grain::join_key;
use crate::hash_ring;
use crate::hash_ring::{HashRing, HashRingView, RingChange, SiloAddress, SiloAddressView};
use crate::maps;
use crate::maps::StrMap;
use crate::network_message::Encoding;
use crate::proto::{
    InvokeRequest, InvokeRequestView, InvokeResponse, ProtoSiloAddress,
    ProtoSiloAddressView,
};
use crate::swim;
use crate::swim::from_proto_addr;
use crate::text;
use crate::text::{chars_of, join2};

verus! {

/// Why a call from outside did not give a result.
#[derive(Clone, Debug, PartialEq, Eq)]
#[non_exhaustive]
pub enum ClientError {
    Connection(String),
    Transport(String),
    NoSiloAvailable,
    GrainError(String),
    Serialization(String),
    Deserialization(String),
}

/// The contents of a [`ClientError`].
pub enum ClientErrorView {
    Connection(Seq<char>),
    Transport(Seq<char>),
    NoSiloAvailable,
    GrainError(Seq<char>),
    Serialization(Seq<char>),
    Deserialization(Seq<char>),
}

impl View for ClientError {
    type V = ClientErrorView;

    open spec fn view(&self) -> ClientErrorView {
        match self {
            ClientError::Connection(s) => ClientErrorView::Connection(s@),
            ClientError::Transport(s) => ClientErrorView::Transport(s@),
            ClientError::NoSiloAvailable => ClientErrorView::NoSiloAvailable,
            ClientError::GrainError(s) => ClientErrorView::GrainError(s@),
            ClientError::Serialization(s) => ClientErrorView::Serialization(s@),
            ClientError::Deserialization(s) => ClientErrorView::Deserialization(s@),
        }
    }
}

impl ClientErrorView {
    /// The text that describes the error.
    pub open spec fn message(self) -> Seq<char> {
        match self {
            ClientErrorView::Connection(s) => "connection failed: "@ + s,
            ClientErrorView::Transport(s) => "transport error: "@ + s,
            ClientErrorView::NoSiloAvailable => "no silo available for grain"@,
            ClientErrorView::GrainError(s) => "grain error: "@ + s,
            ClientErrorView::Serialization(s) => "serialization failed: "@ + s,
            ClientErrorView::Deserialization(s) => "deserialization failed: "@ + s,
        }
    }
}

impl ClientError {
    /// The text that describes the error.
    pub fn to_string(&self) -> (message: String)
        ensures
            message@ == self@.message(),
    {
        match self {
            ClientError::Connection(s) => join2("connection failed: ", s.as_str()),
            ClientError::Transport(s) => join2("transport error: ", s.as_str()),
            ClientError::NoSiloAvailable => "no silo available for grain".to_string(),
            ClientError::GrainError(s) => join2("grain error: ", s.as_str()),
            ClientError::Serialization(s) => join2("serialization failed: ", s.as_str()),
            ClientError::Deserialization(s) => join2("deserialization failed: ", s.as_str()),
        }
    }
}

/// The virtual nodes of a client's ring where nothing else is said: as many as those of a
/// silo's by default.
pub const CLIENT_VIRTUAL_NODES: u32 = 150;

/// The ring that silos make up, put on it in their order.
pub open spec fn ring_of(ring: HashRingView, members: Seq<SiloAddressView>) -> HashRingView
    decreases members.len(),
{
    if members.len() == 0 {
        ring
    } else {
        ring_of(ring, members.drop_last()).with(members.last())
    }
}

/// An empty ring.
pub open spec fn empty_ring(virtual_nodes: u32) -> HashRingView {
    HashRingView { slots: Map::empty(), virtual_nodes }
}

/// Addresses as they are received.
pub open spec fn received_addrs(members: Seq<ProtoSiloAddressView>) -> Seq<SiloAddressView> {
    members.map_values(|m: ProtoSiloAddressView| swim::received_addr(m))
}

/// Addresses as they are received.
pub fn from_proto_addrs(members: &Vec<ProtoSiloAddress>) -> (silos: Vec<SiloAddress>)
    ensures
        maps::views(silos@) == received_addrs(maps::views(members@)),
{
    let mut silos: Vec<SiloAddress> = Vec::new();
    let mut i: usize = 0;
    while i < members.len()
        invariant
            i <= members.len(),
            silos@.len() == i,
            forall|j: int|
                0 <= j < i ==> (#[trigger] silos@[j])@ == swim::received_addr(members@[j]@),
        decreases members.len() - i,
    {
        silos.push(
            from_proto_addr(
                ProtoSiloAddress {
                    host: members[i].host.clone(),
                    port: members[i].port,
                    silo_id: members[i].silo_id.clone(),
                },
            ),
        );
        i += 1;
    }
    assert(maps::views(silos@) =~= received_addrs(maps::views(members@)));
    silos
}

fn build_ring(silos: Vec<SiloAddress>, virtual_nodes: u32) -> (ring: HashRing)
    ensures
        ring@ == ring_of(empty_ring(virtual_nodes), maps::views(silos@)),
{
    let mut ring = HashRing::new(virtual_nodes);
    let ghost all = maps::views(silos@);
    let mut i: usize = 0;
    assert(all.take(0) =~= Seq::<SiloAddressView>::empty());
    while i < silos.len()
        invariant
            i <= silos.len(),
            all == maps::views(silos@),
            ring@ == ring_of(empty_ring(virtual_nodes), all.take(i as int)),
        decreases silos.len() - i,
    {
        proof {
            assert(all.take(i + 1).drop_last() =~= all.take(i as int));
            assert(all.take(i + 1).last() == silos@[i as int]@);
        }
        ring.add(maps::Duplicate::duplicate(&silos[i]));
        i += 1;
    }
    assert(all.take(i as int) =~= all);
    ring
}

/// A client of a cluster: it knows the ring, and so which silo to call.
#[derive(Clone, Debug, PartialEq, Eq)]
pub struct OrlandoClient {
    ring: HashRing,
}

impl View for OrlandoClient {
    type V = HashRingView;

    closed spec fn view(&self) -> HashRingView {
        self.ring@
    }
}

/// What happened when a call was tried.
pub enum CallEvent {
    /// The silo could not be reached, for that reason.
    Unreachable(String),
    /// The call failed, for that reason.
    Failed(String),
    /// The silo answered.
    Answered(InvokeResponse),
}

/// What follows a try of a call.
pub enum CallDecision {
    /// The call succeeded with that payload.
    Return(Vec<u8>),
    /// The call failed for good.
    Fail(ClientError),
    /// Learn the members anew, and try again; before that drop the connection, if told so.
    RefreshAndRetry { drop_connection: bool },
}

/// The contents of a [`CallDecision`].
pub enum CallDecisionView {
    Return(Seq<u8>),
    Fail(ClientErrorView),
    RefreshAndRetry { drop_connection: bool },
}

impl View for CallDecision {
    type V = CallDecisionView;

    open spec fn view(&self) -> CallDecisionView {
        match self {
            CallDecision::Return(payload) => CallDecisionView::Return(payload@),
            CallDecision::Fail(e) => CallDecisionView::Fail(e@),
            CallDecision::RefreshAndRetry { drop_connection } =>
                CallDecisionView::RefreshAndRetry { drop_connection: *drop_connection },
        }
    }
}

/// What follows a try, counted from zero: the first may be followed by a second.
pub open spec fn decision(attempt: u32, event: CallEvent) -> CallDecisionView {
    match event {
        CallEvent::Unreachable(reason) => if attempt == 0 {
            CallDecisionView::RefreshAndRetry { drop_connection: false }
        } else {
            CallDecisionView::Fail(ClientErrorView::Connection(reason@))
        },
        CallEvent::Failed(reason) => if attempt == 0 {
            CallDecisionView::RefreshAndRetry { drop_connection: true }
        } else {
            CallDecisionView::Fail(ClientErrorView::Transport(reason@))
        },
        CallEvent::Answered(response) => if response@.error.len() == 0 {
            CallDecisionView::Return(response@.payload)
        } else {
            CallDecisionView::Fail(ClientErrorView::GrainError(response@.error))
        },
    }
}

impl OrlandoClient {
    /// A client of the cluster with those members, as one of them told, whose silos take that
    /// many positions on the ring.
    pub fn connect(members: &Vec<ProtoSiloAddress>, virtual_nodes: u32) -> (client: Result<
        OrlandoClient,
        ClientError,
    >)
        ensures
            if members@.len() == 0 {
                client matches Err(e) && e@ == ClientErrorView::Connection(
                    "cluster returned no members"@,
                )
            } else {
                client matches Ok(c) && c@ == ring_of(
                    empty_ring(virtual_nodes),
                    received_addrs(maps::views(members@)),
                )
            },
    {
        if members.len() == 0 {
            return Err(ClientError::Connection("cluster returned no members".to_string()));
        }
        Ok(OrlandoClient { ring: build_ring(from_proto_addrs(members), virtual_nodes) })
    }

    /// The silos to ask for the members, in the order they are asked in.
    pub fn refresh_targets(&self) -> (silos: Vec<SiloAddress>)
        ensures
            maps::views(silos@) == self@.members(),
    {
        self.ring.members()
    }

    /// Takes what came of asking for the members: what the first silo that answered told,
    /// or that none did.
    pub fn refresh_membership(&mut self, told: Option<&Vec<ProtoSiloAddress>>) -> (done: Result<
        (),
        ClientError,
    >)
        ensures
            match told {
                Some(members) => done is Ok && final(self)@ == ring_of(
                    empty_ring(old(self)@.virtual_nodes),
                    received_addrs(maps::views(members@)),
                ),
                None => final(self)@ == old(self)@ && (done matches Err(e) && e@
                    == ClientErrorView::Connection(
                    "no reachable silos for membership refresh"@,
                )),
            },
    {
        match told {
            Some(members) => {
                let virtual_nodes: u32 = self.ring.virtual_nodes();
                self.ring = build_ring(from_proto_addrs(members), virtual_nodes);
                Ok(())
            },
            None => Err(
                ClientError::Connection("no reachable silos for membership refresh".to_string()),
            ),
        }
    }

    /// The endpoint to call a grain at.
    pub fn route(&self, grain_type: &str, grain_key: &str) -> (endpoint: Result<String, ClientError>)
        ensures
            match (self@.owner(grain::joined_key(grain_type@, grain_key@)), endpoint) {
                (Some(silo), Ok(e)) => e@ == silo.endpoint(),
                (None, Err(e)) => e@ is NoSiloAvailable,
                _ => false,
            },
            endpoint_for(self@, grain_type@, grain_key@) == (match endpoint {
                Ok(e) => Some(e@),
                Err(_) => None,
            }),
    {
        match self.ring.get(join_key(grain_type, grain_key).as_str()) {
            Some(silo) => Ok(silo.endpoint()),
            None => Err(ClientError::NoSiloAvailable),
        }
    }

    /// A handle to a grain.
    pub fn grain(&self, grain_type: &str, grain_key: &str) -> (handle: GrainHandle)
        ensures
            handle@.grain_type == grain_type@,
            handle@.key == grain_key@,
    {
        GrainHandle { grain_type: grain_type.to_string(), grain_key: grain_key.to_string() }
    }

    /// What follows a try of a call, counted from zero. A stale ring is no reason to fail at
    /// once: after the first failure the members are learned anew.
    pub fn invoke(&self, attempt: u32, event: CallEvent) -> (next: CallDecision)
        ensures
            next@ == decision(attempt, event),
    {
        match event {
            CallEvent::Unreachable(reason) => if attempt == 0 {
                CallDecision::RefreshAndRetry { drop_connection: false }
            } else {
                CallDecision::Fail(ClientError::Connection(reason))
            },
            CallEvent::Failed(reason) => if attempt == 0 {
                CallDecision::RefreshAndRetry { drop_connection: true }
            } else {
                CallDecision::Fail(ClientError::Transport(reason))
            },
            CallEvent::Answered(response) => if chars_of(response.error.as_str()).len() == 0 {
                CallDecision::Return(response.payload)
            } else {
                CallDecision::Fail(ClientError::GrainError(response.error))
            },
        }
    }
}

/// A handle to a grain, to send it messages.
#[derive(Clone, Debug, PartialEq, Eq)]
pub struct GrainHandle {
    grain_type: String,
    grain_key: String,
}

impl View for GrainHandle {
    type V = grain::GrainIdView;

    closed spec fn view(&self) -> grain::GrainIdView {
        grain::GrainIdView { grain_type: self.grain_type@, key: self.grain_key@ }
    }
}

impl GrainHandle {
    fn request(&self, message_type: &str, payload: Vec<u8>, encoding: Encoding) -> (request:
        InvokeRequest)
        ensures
            request@ == (InvokeRequestView {
                grain_type: self@.grain_type,
                grain_key: self@.key,
                message_type: message_type@,
                payload: payload@,
                encoding: crate::network_message::number_of(encoding),
                request_context: Map::empty(),
                message_version: 0,
            }),
    {
        InvokeRequest {
            grain_type: self.grain_type.clone(),
            grain_key: self.grain_key.clone(),
            message_type: message_type.to_string(),
            payload,
            encoding: encoding.to_proto(),
            request_context: StrMap::new(),
            message_version: 0,
        }
    }

    /// The request that carries a message in the default encoding.
    pub fn ask(&self, message_type: &str, payload: Vec<u8>) -> (request: InvokeRequest)
        ensures
            request@ == (InvokeRequestView {
                grain_type: self@.grain_type,
                grain_key: self@.key,
                message_type: message_type@,
                payload: payload@,
                encoding: 0,
                request_context: Map::empty(),
                message_version: 0,
            }),
            request@ == request_to(self@, message_type@, payload@, Encoding::Bincode),
    {
        self.request(message_type, payload, Encoding::Bincode)
    }

    /// The request that carries a message in Protocol Buffers.
    pub fn ask_proto(&self, message_type: &str, payload: Vec<u8>) -> (request: InvokeRequest)
        ensures
            request@ == (InvokeRequestView {
                grain_type: self@.grain_type,
                grain_key: self@.key,
                message_type: message_type@,
                payload: payload@,
                encoding: 1,
                request_context: Map::empty(),
                message_version: 0,
            }),
            request@ == request_to(self@, message_type@, payload@, Encoding::Protobuf),
    {
        self.request(message_type, payload, Encoding::Protobuf)
    }
}

/// A call from outside is tried at most twice, and an answer ends it.
pub proof fn calls_are_tried_twice_at_most(attempt: u32, event: CallEvent)
    ensures
        attempt > 0 || event is Answered ==> !(decision(attempt, event) is RefreshAndRetry),
{
}

/// Whether every silo on a ring stands at all of its positions.
pub open spec fn complete(ring: HashRingView) -> bool {
    forall|s: SiloAddressView, p: u64|
        #![trigger ring.members().contains(s), ring.positions(s.silo_id).contains(p)]
        ring.members().contains(s) && ring.positions(s.silo_id).contains(p)
            ==> ring.slots.dom().contains(p) && ring.slots[p] == s
}

proof fn lemma_ring_of(ring: HashRingView, members: Seq<SiloAddressView>, p: u64)
    requires
        complete(ring),
        forall|i: int| 0 <= i < members.len() ==> ring.members().contains(#[trigger] members[i]),
    ensures
        ({
            let built = ring_of(empty_ring(ring.virtual_nodes), members);
            &&& built.virtual_nodes == ring.virtual_nodes
            &&& built.slots.dom().contains(p) <==> (exists|i: int|
                0 <= i < members.len() && ring.positions(
                    (#[trigger] members[i]).silo_id,
                ).contains(p))
            &&& built.slots.dom().contains(p) ==> ring.slots.dom().contains(p) && built.slots[p]
                == ring.slots[p]
        }),
    decreases members.len(),
{
    if members.len() > 0 {
        let rest = members.drop_last();
        let last = members.last();
        assert forall|i: int| 0 <= i < rest.len() implies ring.members().contains(
            #[trigger] rest[i],
        ) by {
            assert(ring.members().contains(members[i]));
        }
        lemma_ring_of(ring, rest, p);
        let before = ring_of(empty_ring(ring.virtual_nodes), rest);
        let built = before.with(last);
        assert(ring.members().contains(members[members.len() - 1]));
        if before.slots.dom().contains(p) {
            let i = choose|i: int|
                0 <= i < rest.len() && ring.positions((#[trigger] rest[i]).silo_id).contains(p);
            assert(ring.positions(members[i].silo_id).contains(p));
        }
        if exists|i: int|
            0 <= i < members.len() && ring.positions((#[trigger] members[i]).silo_id).contains(p) {
            let i = choose|i: int|
                0 <= i < members.len() && ring.positions((#[trigger] members[i]).silo_id).contains(
                    p,
                );
            if i < rest.len() {
                assert(ring.positions(rest[i].silo_id).contains(p));
            }
        }
        if ring.positions(last.silo_id).contains(p) {
            assert(ring.positions(members[members.len() - 1].silo_id).contains(p));
        }
    }
}

/// A client that has learned the members of a cluster, and takes as many positions for each as
/// the cluster does, has the cluster's ring, in whatever order it learned them, where no two
/// silos share a position. So it calls the silo that the cluster itself places a grain on.
pub proof fn clients_route_like_the_cluster(
    cluster: HashRingView,
    members: Seq<SiloAddressView>,
    key: Seq<char>,
)
    requires
        cluster.placed(),
        complete(cluster),
        forall|s: SiloAddressView| cluster.members().contains(s) <==> #[trigger] members.contains(s),
    ensures
        ring_of(empty_ring(cluster.virtual_nodes), members) == cluster,
        ring_of(empty_ring(cluster.virtual_nodes), members).owner(key) == cluster.owner(key),
{
    let built = ring_of(empty_ring(cluster.virtual_nodes), members);
    assert forall|i: int| 0 <= i < members.len() implies cluster.members().contains(
        #[trigger] members[i],
    ) by {
        assert(members.contains(members[i]));
    }
    assert forall|p: u64|
        #![trigger built.slots.dom().contains(p)]
        #![trigger cluster.slots.dom().contains(p)]
        built.slots.dom().contains(p) == cluster.slots.dom().contains(p) && (
        built.slots.dom().contains(p) ==> built.slots[p] == cluster.slots[p]) by {
        lemma_ring_of(cluster, members, p);
        if cluster.slots.dom().contains(p) {
            let s = cluster.slots[p];
            hash_ring::members_are_those_on_the_ring(cluster, s);
            assert(members.contains(s));
            let i = members.index_of(s);
            assert(cluster.positions(members[i].silo_id).contains(p));
        }
    }
    lemma_ring_of(cluster, members, 0);
    assert(built.slots =~= cluster.slots);
}

/// A list of members survives the trip over the wire.
pub proof fn members_survive_the_wire(members: Seq<SiloAddressView>)
    ensures
        received_addrs(crate::membership::sent_addrs(members)) == members,
{
    let back = received_addrs(crate::membership::sent_addrs(members));
    assert forall|i: int| 0 <= i < members.len() implies back[i] == members[i] by {
        swim::addresses_survive_the_wire(members[i]);
    }
    assert(back =~= members);
}

/// A call that could not be made is tried once more, after the members were learned anew; a
/// connection over which it failed is dropped before. A second failure is the result, with its
/// reason. An answer is the result at once: its payload, or the error that it carries.
pub proof fn calls_are_decided_by_what_happened(
    attempt: u32,
    reason: String,
    response: InvokeResponse,
)
    ensures
        decision(0, CallEvent::Unreachable(reason)) == (CallDecisionView::RefreshAndRetry {
            drop_connection: false,
        }),
        decision(0, CallEvent::Failed(reason)) == (CallDecisionView::RefreshAndRetry {
            drop_connection: true,
        }),
        attempt > 0 ==> decision(attempt, CallEvent::Unreachable(reason))
            == CallDecisionView::Fail(ClientErrorView::Connection(reason@)),
        attempt > 0 ==> decision(attempt, CallEvent::Failed(reason)) == CallDecisionView::Fail(
            ClientErrorView::Transport(reason@),
        ),
        response.error@.len() == 0 ==> decision(attempt, CallEvent::Answered(response))
            == CallDecisionView::Return(response.payload@),
        response.error@.len() > 0 ==> decision(attempt, CallEvent::Answered(response))
            == CallDecisionView::Fail(ClientErrorView::GrainError(response.error@)),
{
}

proof fn lemma_ring_of_is_adding(virtual_nodes: u32, members: Seq<SiloAddressView>)
    ensures
        ring_of(empty_ring(virtual_nodes), members) == hash_ring::ring_after(
            virtual_nodes,
            members.map_values(|m: SiloAddressView| RingChange::Added(m)),
        ),
    decreases members.len(),
{
    let added = members.map_values(|m: SiloAddressView| RingChange::Added(m));
    if members.len() > 0 {
        let rest = members.drop_last();
        lemma_ring_of_is_adding(virtual_nodes, rest);
        assert(added.drop_last() =~= rest.map_values(|m: SiloAddressView| RingChange::Added(m)));
        assert(added.last() == RingChange::Added(members.last()));
    }
}

proof fn lemma_last_listed_stands(members: Seq<SiloAddressView>, last: int)
    requires
        0 <= last < members.len(),
        forall|j: int|
            last < j < members.len() ==> (#[trigger] members[j]).silo_id != members[last].silo_id,
    ensures
        ({
            let silos = hash_ring::standing(
                members.map_values(|m: SiloAddressView| RingChange::Added(m)),
            );
            silos.dom().contains(members[last].silo_id) && silos[members[last].silo_id]
                == members[last]
        }),
    decreases members.len(),
{
    let added = members.map_values(|m: SiloAddressView| RingChange::Added(m));
    let rest = members.drop_last();
    assert(added.drop_last() =~= rest.map_values(|m: SiloAddressView| RingChange::Added(m)));
    assert(added.last() == RingChange::Added(members.last()));
    if last < rest.len() {
        assert forall|j: int| last < j < rest.len() implies (#[trigger] rest[j]).silo_id
            != rest[last].silo_id by {
            assert(members[j].silo_id != members[last].silo_id);
        }
        lemma_last_listed_stands(rest, last);
        assert(members[members.len() - 1].silo_id != members[last].silo_id);
    }
}

proof fn lemma_standing_were_listed(members: Seq<SiloAddressView>, id: Seq<char>)
    ensures
        ({
            let silos = hash_ring::standing(
                members.map_values(|m: SiloAddressView| RingChange::Added(m)),
            );
            silos.dom().contains(id) ==> members.contains(silos[id])
        }),
    decreases members.len(),
{
    let added = members.map_values(|m: SiloAddressView| RingChange::Added(m));
    if members.len() > 0 {
        let rest = members.drop_last();
        lemma_standing_were_listed(rest, id);
        assert(added.drop_last() =~= rest.map_values(|m: SiloAddressView| RingChange::Added(m)));
        assert(added.last() == RingChange::Added(members.last()));
        let silos = hash_ring::standing(added);
        if silos.dom().contains(id) {
            if id == members.last().silo_id {
                assert(members[members.len() - 1] == silos[id]);
            } else {
                assert(members[rest.index_of(silos[id])] == silos[id]);
            }
        }
    }
}

/// The ring of a list of silos holds exactly the silos listed, each at the address that it was
/// last listed with.
pub proof fn listed_silos_are_on_the_ring(
    virtual_nodes: u32,
    members: Seq<SiloAddressView>,
    last: int,
    s: SiloAddressView,
)
    requires
        virtual_nodes > 0,
        hash_ring::labels_apart(
            Set::new(
                |id: Seq<char>|
                    exists|i: int|
                        0 <= i < members.len() && (#[trigger] members[i]).silo_id == id,
            ),
            virtual_nodes as nat,
        ),
        0 <= last < members.len(),
        forall|j: int|
            last < j < members.len() ==> (#[trigger] members[j]).silo_id != members[last].silo_id,
    ensures
        ring_of(empty_ring(virtual_nodes), members).virtual_nodes == virtual_nodes,
        ring_of(empty_ring(virtual_nodes), members).members().contains(members[last]),
        ring_of(empty_ring(virtual_nodes), members).members().contains(s) ==> members.contains(s),
        s.silo_id == members[last].silo_id && s != members[last] ==> !ring_of(
            empty_ring(virtual_nodes),
            members,
        ).members().contains(s),
{
    let added = members.map_values(|m: SiloAddressView| RingChange::Added(m));
    let ids = Set::new(
        |id: Seq<char>|
            exists|i: int| 0 <= i < members.len() && (#[trigger] members[i]).silo_id == id,
    );
    assert forall|id: Seq<char>| hash_ring::named(added).contains(id) implies ids.contains(id) by {
        let i = choose|i: int| 0 <= i < added.len() && (#[trigger] added[i]).silo().silo_id == id;
        assert(members[i].silo_id == id);
    }
    assert(hash_ring::labels_apart(hash_ring::named(added), virtual_nodes as nat));
    lemma_ring_of_is_adding(virtual_nodes, members);
    lemma_last_listed_stands(members, last);
    lemma_standing_were_listed(members, s.silo_id);
    hash_ring::members_are_the_silos_added_and_not_removed(virtual_nodes, added);
    lemma_ring_of_keeps_its_number(virtual_nodes, members);
}

proof fn lemma_ring_of_keeps_its_number(virtual_nodes: u32, members: Seq<SiloAddressView>)
    ensures
        ring_of(empty_ring(virtual_nodes), members).virtual_nodes == virtual_nodes,
    decreases members.len(),
{
    if members.len() > 0 {
        lemma_ring_of_keeps_its_number(virtual_nodes, members.drop_last());
    }
}

/// A list of members is read in its order, each with its host, its identity and the low 16 bits
/// of its port.
pub proof fn members_are_read_in_order(members: Seq<ProtoSiloAddressView>, i: int)
    requires
        0 <= i < members.len(),
    ensures
        received_addrs(members).len() == members.len(),
        received_addrs(members)[i].host == members[i].host,
        received_addrs(members)[i].port == members[i].port % 65536,
        received_addrs(members)[i].silo_id == members[i].silo_id,
{
    swim::news_is_sent_by_number(
        SiloAddressView { host: Seq::empty(), port: 0, silo_id: Seq::empty() },
        0,
        Seq::empty(),
        members[i],
    );
}

/// A call of a client on a grain.
pub open spec fn request_to(
    id: grain::GrainIdView,
    message_type: Seq<char>,
    payload: Seq<u8>,
    encoding: Encoding,
) -> InvokeRequestView {
    InvokeRequestView {
        grain_type: id.grain_type,
        grain_key: id.key,
        message_type,
        payload,
        encoding: crate::network_message::number_of(encoding),
        request_context: Map::empty(),
        message_version: 0,
    }
}

/// Where calls on a grain are sent; nowhere where no silo is known.
pub open spec fn endpoint_for(
    ring: HashRingView,
    grain_type: Seq<char>,
    grain_key: Seq<char>,
) -> Option<Seq<char>> {
    match ring.owner(grain::joined_key(grain_type, grain_key)) {
        Some(silo) => Some(silo.endpoint()),
        None => None,
    }
}

/// A call names its grain, carries its message as it is, and says how it is encoded: by zero for
/// bincode, by one for Protocol Buffers.
pub proof fn calls_name_their_grain(
    id: grain::GrainIdView,
    message_type: Seq<char>,
    payload: Seq<u8>,
    encoding: Encoding,
)
    ensures
        ({
            let r = request_to(id, message_type, payload, encoding);
            &&& r.grain_type == id.grain_type
            &&& r.grain_key == id.key
            &&& r.message_type == message_type
            &&& r.payload == payload
            &&& encoding is Bincode ==> r.encoding == 0
            &&& encoding is Protobuf ==> r.encoding == 1
            &&& r.message_version == 0
            &&& r.request_context.dom() == Set::<Seq<char>>::empty()
        }),
{
    assert(request_to(id, message_type, payload, encoding).request_context.dom() =~= Set::<
        Seq<char>,
    >::empty());
}

/// Calls on a grain are sent to the host and port of the silo that owns it by the ring.
pub proof fn calls_are_sent_to_the_owner(
    ring: HashRingView,
    grain_type: Seq<char>,
    grain_key: Seq<char>,
)
    ensures
        match ring.owner(grain_type + seq!['/'] + grain_key) {
            Some(owner) => endpoint_for(ring, grain_type, grain_key) == Some(
                owner.host + seq![':'] + text::decimal(owner.port as nat),
            ),
            None => endpoint_for(ring, grain_type, grain_key) is None,
        },
{
    if let Some(owner) = ring.owner(grain_type + seq!['/'] + grain_key) {
        assert(owner.endpoint() =~= owner.host + seq![':'] + text::decimal(owner.port as nat));
    }
}

/// What an error tells begins with its kind and ends with its reason.
pub proof fn client_errors_tell_the_reason(reason: Seq<char>)
    ensures
        ClientErrorView::Connection(reason).message() == "connection failed: "@ + reason,
        ClientErrorView::Transport(reason).message() == "transport error: "@ + reason,
        ClientErrorView::GrainError(reason).message() == "grain error: "@ + reason,
        ClientErrorView::Serialization(reason).message() == "serialization failed: "@ + reason,
        ClientErrorView::Deserialization(reason).message() == "deserialization failed: "@ + reason,
{
}

} // verus!
