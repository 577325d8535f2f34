//! What a silo does with an incoming call: refuse it, pass it on, or hand it to a grain.

use vstd::prelude::*;

use crate::cross_cluster_directory::{DirectoryError, GrainOwnership, GrainOwnershipView};
use crate::error::{ClusterError, Code, Status, StatusView};
use crate::grain;
use crate::grain::{join_key, ClusterId, GrainId, GrainIdView};
use crate::hash_ring;
use crate::hash_ring::{HashRing, HashRingView, SiloAddress, SiloAddressView};
use crate::maps;
use crate::maps::{Duplicate, StrMap};
use crate::message_registry::{MessageRegistry, MessageRegistryView};
use crate::network_message;
use crate::network_message::Encoding;
use crate::proto::{
    copy_bytes, ForwardInvokeRequest, ForwardInvokeRequestView, ForwardInvokeResponse,
    InvokeRequest, InvokeRequestView, InvokeResponse, InvokeResponseView,
};
use crate::text;
use crate::text::{decimal_text, join2, parse_decimal, push_decimal, same_text};

verus! {

/// How often a call may be passed on before it is refused.
pub const MAX_HOPS: u32 = 3;

/// The largest payload accepted, in bytes.
pub const MAX_PAYLOAD_SIZE: usize = 67_108_864;

/// The epoch at which a grain is registered when it is first used.
pub const INITIAL_EPOCH: u64 = 1;

/// The entry of the request context that counts how often a call was passed on.
pub open spec fn hop_count_key() -> Seq<char> {
    "__orlando_hop_count"@
}

/// How often a call was passed on, by its request context.
pub open spec fn hop_count(context: Map<Seq<char>, Seq<char>>) -> nat {
    if context.dom().contains(hop_count_key()) {
        match text::parse_number(context[hop_count_key()], u32::MAX as nat) {
            Some(n) => n,
            None => 0,
        }
    } else {
        0
    }
}

/// A call as it is passed on: one hop more.
pub open spec fn passed_on(req: InvokeRequestView) -> InvokeRequestView {
    InvokeRequestView {
        request_context: req.request_context.insert(
            hop_count_key(),
            text::decimal(hop_count(req.request_context) + 1),
        ),
        ..req
    }
}

/// The endpoint of the silo that the ring gives a grain to, where that is not this one.
pub open spec fn remote_owner(
    ring: HashRingView,
    local_silo_id: Seq<char>,
    grain_type: Seq<char>,
    grain_key: Seq<char>,
) -> Option<Seq<char>> {
    match ring.owner(grain::joined_key(grain_type, grain_key)) {
        Some(silo) => if silo.silo_id != local_silo_id {
            Some(silo.endpoint())
        } else {
            None
        },
        None => None,
    }
}

/// Whether a silo is another than the named one.
pub open spec fn is_other(silo_id: Seq<char>) -> spec_fn(SiloAddressView) -> bool {
    |s: SiloAddressView| s.silo_id != silo_id
}

/// The members of the ring but the named one.
pub open spec fn other_members(ring: HashRingView, silo_id: Seq<char>) -> Seq<SiloAddressView> {
    ring.members().filter(is_other(silo_id))
}

/// What has happened since the last action on a call.
pub enum InvokeEvent {
    /// The call came in; the sender was checked, where a check is configured.
    Received(Result<(), Status>),
    /// The directory of clusters said who owns the grain.
    OwnerFound(Result<Option<GrainOwnership>, DirectoryError>),
    /// This cluster was entered as the owner, whether or not that succeeded.
    OwnerRegistered,
    /// It was looked up whether the grain has a live mailbox here.
    LocalProbed(bool),
    /// The other silos were asked; the endpoint of one on which the grain is active.
    ClusterSearched(Option<String>),
    /// The silo that the call was passed to could not be reached, for that reason.
    SiloUnreachable(String),
    /// The silo that the call was passed to refused it, for that reason.
    SiloFailed(String),
    /// The silo that the call was passed to answered.
    SiloAnswered(InvokeResponse),
    /// The gateway of another cluster could not be reached, for that reason.
    GatewayUnreachable(String),
    /// The gateway of another cluster refused the call, for that reason.
    GatewayFailed(String),
    /// The gateway of another cluster answered.
    GatewayAnswered(ForwardInvokeResponse),
    /// The grain's handler finished.
    Dispatched(Result<(Vec<u8>, Encoding), ClusterError>),
}

/// What is to be done next about a call.
pub enum InvokeAction {
    /// Answer it.
    Answer(InvokeResponse),
    /// Refuse it.
    Refuse(Status),
    /// Pass it on to the silo at an endpoint.
    ForwardToSilo { endpoint: String, request: InvokeRequest },
    /// Ask the directory of clusters who owns a grain.
    FindOwner(GrainId),
    /// Pass it on to the cluster behind an endpoint.
    ForwardToCluster { endpoint: String, request: ForwardInvokeRequest },
    /// Enter a cluster as the owner of a grain.
    RegisterOwner { grain_id: GrainId, cluster_id: ClusterId, epoch: u64 },
    /// Look up whether a grain has a live mailbox here.
    ProbeLocal(GrainId),
    /// Ask these silos whether the grain is active there.
    SearchCluster(Vec<SiloAddress>),
    /// Hand it to the handler with that number.
    Dispatch(u64),
}

/// The contents of an [`InvokeAction`].
pub enum InvokeActionView {
    Answer(InvokeResponseView),
    Refuse(StatusView),
    ForwardToSilo { endpoint: Seq<char>, request: InvokeRequestView },
    FindOwner(GrainIdView),
    ForwardToCluster { endpoint: Seq<char>, request: ForwardInvokeRequestView },
    RegisterOwner { grain_id: GrainIdView, cluster_id: Seq<char>, epoch: u64 },
    ProbeLocal(GrainIdView),
    SearchCluster(Seq<SiloAddressView>),
    Dispatch(u64),
}

impl View for InvokeAction {
    type V = InvokeActionView;

    open spec fn view(&self) -> InvokeActionView {
        match self {
            InvokeAction::Answer(r) => InvokeActionView::Answer(r@),
            InvokeAction::Refuse(s) => InvokeActionView::Refuse(s@),
            InvokeAction::ForwardToSilo { endpoint, request } => InvokeActionView::ForwardToSilo {
                endpoint: endpoint@,
                request: request@,
            },
            InvokeAction::FindOwner(g) => InvokeActionView::FindOwner(g@),
            InvokeAction::ForwardToCluster { endpoint, request } =>
                InvokeActionView::ForwardToCluster { endpoint: endpoint@, request: request@ },
            InvokeAction::RegisterOwner { grain_id, cluster_id, epoch } =>
                InvokeActionView::RegisterOwner {
                grain_id: grain_id@,
                cluster_id: cluster_id@,
                epoch: *epoch,
            },
            InvokeAction::ProbeLocal(g) => InvokeActionView::ProbeLocal(g@),
            InvokeAction::SearchCluster(list) => InvokeActionView::SearchCluster(
                maps::views(list@),
            ),
            InvokeAction::Dispatch(h) => InvokeActionView::Dispatch(*h),
        }
    }
}

/// The other clusters, as this one knows them.
#[derive(Clone, Debug, PartialEq, Eq)]
pub struct CrossCluster {
    pub local_cluster_id: ClusterId,
    /// Gateway endpoints by cluster.
    pub peer_endpoints: StrMap<String>,
}

/// The contents of a [`CrossCluster`].
#[verifier::ext_equal]
pub struct CrossClusterView {
    pub local_cluster_id: Seq<char>,
    pub peer_endpoints: Map<Seq<char>, Seq<char>>,
}

impl View for CrossCluster {
    type V = CrossClusterView;

    open spec fn view(&self) -> CrossClusterView {
        CrossClusterView {
            local_cluster_id: self.local_cluster_id@,
            peer_endpoints: self.peer_endpoints@,
        }
    }
}

/// The part of a silo that takes calls on grains.
#[derive(Clone, Debug, PartialEq, Eq)]
pub struct GrainTransportService {
    local_silo_id: String,
    cross_cluster: Option<CrossCluster>,
}

/// The contents of a [`GrainTransportService`].
pub struct GrainTransportServiceView {
    pub local_silo_id: Seq<char>,
    pub cross_cluster: Option<CrossClusterView>,
}

impl View for GrainTransportService {
    type V = GrainTransportServiceView;

    closed spec fn view(&self) -> GrainTransportServiceView {
        GrainTransportServiceView {
            local_silo_id: self.local_silo_id@,
            cross_cluster: match self.cross_cluster {
                Some(c) => Some(c@),
                None => None,
            },
        }
    }
}

/// The answer of a handler, or of the routing that found none.
pub open spec fn handled(
    outcome: Result<(Seq<u8>, Encoding), Seq<char>>,
    request_encoding: i32,
) -> InvokeResponseView {
    match outcome {
        Ok(answer) => InvokeResponseView {
            payload: answer.0,
            error: Seq::empty(),
            encoding: network_message::number_of(answer.1),
        },
        Err(error) => InvokeResponseView {
            payload: Seq::empty(),
            error,
            encoding: network_message::number_of(network_message::encoding_of(request_encoding)),
        },
    }
}

/// Passing a call on to a silo, unless it has been passed on too often.
pub open spec fn pass_on(
    req: InvokeRequestView,
    endpoint: Seq<char>,
    refusal: Seq<char>,
) -> InvokeActionView {
    if hop_count(req.request_context) >= MAX_HOPS {
        InvokeActionView::Refuse(
            StatusView {
                code: Code::Internal,
                message: "maximum forwarding hops ("@ + text::decimal(MAX_HOPS as nat) + refusal,
            },
        )
    } else {
        InvokeActionView::ForwardToSilo { endpoint, request: passed_on(req) }
    }
}

impl GrainTransportServiceView {
    /// Handing a call to its handler, or answering that there is none.
    pub open spec fn hand_over(
        self,
        registry: MessageRegistryView,
        req: InvokeRequestView,
    ) -> InvokeActionView {
        match registry.route(req.grain_type, req.message_type, req.message_version) {
            Ok(handler) => InvokeActionView::Dispatch(handler),
            Err(e) => InvokeActionView::Answer(handled(Err(e.message()), req.encoding)),
        }
    }

    /// Asking the other silos, where there are any.
    pub open spec fn search(
        self,
        ring: HashRingView,
        registry: MessageRegistryView,
        req: InvokeRequestView,
    ) -> InvokeActionView {
        if other_members(ring, self.local_silo_id).len() == 0 {
            self.hand_over(registry, req)
        } else {
            InvokeActionView::SearchCluster(other_members(ring, self.local_silo_id))
        }
    }

    /// Serving a call in this cluster: first see whether the grain is active here.
    pub open spec fn serve_here(
        self,
        ring: HashRingView,
        registry: MessageRegistryView,
        req: InvokeRequestView,
    ) -> InvokeActionView {
        if registry.has_grain_type(req.grain_type) {
            InvokeActionView::ProbeLocal(
                GrainIdView { grain_type: req.grain_type, key: req.grain_key },
            )
        } else {
            self.search(ring, registry, req)
        }
    }

    /// What follows when a call comes in.
    pub open spec fn on_received(
        self,
        ring: HashRingView,
        registry: MessageRegistryView,
        req: InvokeRequestView,
        check: Result<(), StatusView>,
    ) -> InvokeActionView {
        match (check, remote_owner(ring, self.local_silo_id, req.grain_type, req.grain_key)) {
            (Err(status), _) => InvokeActionView::Refuse(status),
            (Ok(()), owner) => if req.payload.len() > MAX_PAYLOAD_SIZE {
                InvokeActionView::Refuse(
                    StatusView {
                        code: Code::InvalidArgument,
                        message: "payload size "@ + text::decimal(req.payload.len())
                            + " exceeds maximum of "@ + text::decimal(MAX_PAYLOAD_SIZE as nat)
                            + " bytes"@,
                    },
                )
            } else {
                match owner {
                    Some(endpoint) => pass_on(
                        req,
                        endpoint,
                        ") exceeded — possible routing loop"@,
                    ),
                    None => if self.cross_cluster is Some {
                        InvokeActionView::FindOwner(
                            GrainIdView { grain_type: req.grain_type, key: req.grain_key },
                        )
                    } else {
                        self.serve_here(ring, registry, req)
                    },
                }
            },
        }
    }

    /// What follows when the directory of clusters answered.
    pub open spec fn on_owner_found(
        self,
        ring: HashRingView,
        registry: MessageRegistryView,
        req: InvokeRequestView,
        found: Option<Option<GrainOwnershipView>>,
    ) -> InvokeActionView {
        match (self.cross_cluster, found) {
            (Some(clusters), Some(Some(owner))) => if owner.cluster_id
                != clusters.local_cluster_id && clusters.peer_endpoints.dom().contains(
                owner.cluster_id,
            ) {
                InvokeActionView::ForwardToCluster {
                    endpoint: clusters.peer_endpoints[owner.cluster_id],
                    request: ForwardInvokeRequestView {
                        grain_type: req.grain_type,
                        grain_key: req.grain_key,
                        message_type: req.message_type,
                        payload: req.payload,
                        encoding: req.encoding,
                        request_context: req.request_context,
                        source_cluster_id: clusters.local_cluster_id,
                        message_version: req.message_version,
                    },
                }
            } else {
                self.serve_here(ring, registry, req)
            },
            (Some(clusters), Some(None)) => InvokeActionView::RegisterOwner {
                grain_id: GrainIdView { grain_type: req.grain_type, key: req.grain_key },
                cluster_id: clusters.local_cluster_id,
                epoch: INITIAL_EPOCH,
            },
            _ => self.serve_here(ring, registry, req),
        }
    }

    /// What is to be done about a call after an event.
    pub open spec fn next(
        self,
        ring: HashRingView,
        registry: MessageRegistryView,
        req: InvokeRequestView,
        event: InvokeEvent,
    ) -> InvokeActionView {
        match event {
            InvokeEvent::Received(Ok(())) => self.on_received(ring, registry, req, Ok(())),
            InvokeEvent::Received(Err(status)) => self.on_received(
                ring,
                registry,
                req,
                Err(status@),
            ),
            InvokeEvent::OwnerFound(Ok(Some(owner))) => self.on_owner_found(
                ring,
                registry,
                req,
                Some(Some(owner@)),
            ),
            InvokeEvent::OwnerFound(Ok(None)) => self.on_owner_found(
                ring,
                registry,
                req,
                Some(None),
            ),
            InvokeEvent::OwnerFound(Err(_)) => self.on_owner_found(ring, registry, req, None),
            InvokeEvent::OwnerRegistered => self.serve_here(ring, registry, req),
            InvokeEvent::LocalProbed(true) => self.hand_over(registry, req),
            InvokeEvent::LocalProbed(false) => self.search(ring, registry, req),
            InvokeEvent::ClusterSearched(Some(endpoint)) => pass_on(
                req,
                endpoint@,
                ") exceeded during directory lookup"@,
            ),
            InvokeEvent::ClusterSearched(None) => self.hand_over(registry, req),
            InvokeEvent::SiloUnreachable(reason) => InvokeActionView::Refuse(
                StatusView { code: Code::Unavailable, message: reason@ },
            ),
            InvokeEvent::SiloFailed(reason) => InvokeActionView::Refuse(
                StatusView { code: Code::Internal, message: reason@ },
            ),
            InvokeEvent::SiloAnswered(response) => InvokeActionView::Answer(response@),
            InvokeEvent::GatewayUnreachable(reason) => InvokeActionView::Refuse(
                StatusView {
                    code: Code::Unavailable,
                    message: "cross-cluster connection failed: "@ + reason@,
                },
            ),
            InvokeEvent::GatewayFailed(reason) => InvokeActionView::Refuse(
                StatusView {
                    code: Code::Internal,
                    message: "cross-cluster forward failed: "@ + reason@,
                },
            ),
            InvokeEvent::GatewayAnswered(response) => InvokeActionView::Answer(response@),
            InvokeEvent::Dispatched(Ok(answer)) => InvokeActionView::Answer(
                handled(Ok((answer.0@, answer.1)), req.encoding),
            ),
            InvokeEvent::Dispatched(Err(e)) => InvokeActionView::Answer(
                handled(Err(e@.message()), req.encoding),
            ),
        }
    }
}

/// How often a call was passed on, by its request context.
pub fn hops_so_far(context: &StrMap<String>) -> (hops: u32)
    ensures
        hops == hop_count(context@),
{
    match context.get("__orlando_hop_count") {
        Some(value) => match parse_decimal(value.as_str(), u32::MAX as u64) {
            Some(n) => n as u32,
            None => 0,
        },
        None => 0,
    }
}

/// The answer of a handler, or of the routing that found none.
pub fn handler_response(
    outcome: Result<(Vec<u8>, Encoding), ClusterError>,
    request_encoding: i32,
) -> (response: InvokeResponse)
    ensures
        response@ == handled(
            match outcome {
                Ok(answer) => Ok((answer.0@, answer.1)),
                Err(e) => Err(e@.message()),
            },
            request_encoding,
        ),
{
    match outcome {
        Ok(answer) => InvokeResponse {
            payload: answer.0,
            error: String::new(),
            encoding: answer.1.to_proto(),
        },
        Err(e) => InvokeResponse {
            payload: Vec::new(),
            error: e.to_string(),
            encoding: Encoding::from_proto(request_encoding).to_proto(),
        },
    }
}

impl GrainTransportService {
    pub fn new(local_silo_id: String) -> (service: GrainTransportService)
        ensures
            service@.local_silo_id == local_silo_id@,
            service@.cross_cluster is None,
    {
        GrainTransportService { local_silo_id, cross_cluster: None }
    }

    /// Lets the silo pass calls on to other clusters.
    pub fn with_cross_cluster(
        self,
        local_cluster_id: ClusterId,
        peer_endpoints: StrMap<String>,
    ) -> (service: GrainTransportService)
        ensures
            service@.local_silo_id == self@.local_silo_id,
            service@.cross_cluster == Some(
                CrossClusterView {
                    local_cluster_id: local_cluster_id@,
                    peer_endpoints: peer_endpoints@,
                },
            ),
    {
        GrainTransportService {
            local_silo_id: self.local_silo_id,
            cross_cluster: Some(CrossCluster { local_cluster_id, peer_endpoints }),
        }
    }

    /// The endpoint of the silo that the ring gives a grain to; none where that is this one,
    /// or the ring is empty.
    pub fn find_owner(&self, ring: &HashRing, grain_type: &str, grain_key: &str) -> (endpoint:
        Option<String>)
        ensures
            match endpoint {
                Some(e) => remote_owner(ring@, self@.local_silo_id, grain_type@, grain_key@)
                    == Some(e@),
                None => remote_owner(ring@, self@.local_silo_id, grain_type@, grain_key@) is None,
            },
    {
        match ring.get(join_key(grain_type, grain_key).as_str()) {
            Some(target) => if same_text(target.silo_id.as_str(), self.local_silo_id.as_str()) {
                None
            } else {
                Some(target.endpoint())
            },
            None => None,
        }
    }

    /// The members of the ring but this silo.
    pub fn lookup_targets(&self, ring: &HashRing) -> (others: Vec<SiloAddress>)
        ensures
            maps::views(others@) == other_members(ring@, self@.local_silo_id),
    {
        others_than(ring, self.local_silo_id.as_str())
    }

    fn pass_on(&self, req: &InvokeRequest, endpoint: String, refusal: &str) -> (action:
        InvokeAction)
        ensures
            action@ == pass_on(req@, endpoint@, refusal@),
    {
        let hops: u32 = hops_so_far(&req.request_context);
        if hops >= MAX_HOPS {
            let mut message = "maximum forwarding hops (".to_string();
            push_decimal(&mut message, MAX_HOPS as u64);
            message.append(refusal);
            InvokeAction::Refuse(Status { code: Code::Internal, message })
        } else {
            let mut request = req.duplicate();
            request.request_context.insert(
                "__orlando_hop_count".to_string(),
                decimal_text((hops + 1) as u64),
            );
            InvokeAction::ForwardToSilo { endpoint, request }
        }
    }

    fn hand_over(&self, registry: &MessageRegistry, req: &InvokeRequest) -> (action: InvokeAction)
        ensures
            action@ == self@.hand_over(registry@, req@),
    {
        match registry.dispatch(
            req.grain_type.as_str(),
            req.message_type.as_str(),
            req.message_version,
        ) {
            Ok(handler) => InvokeAction::Dispatch(handler),
            Err(e) => InvokeAction::Answer(handler_response(Err(e), req.encoding)),
        }
    }

    fn search(&self, ring: &HashRing, registry: &MessageRegistry, req: &InvokeRequest) -> (action:
        InvokeAction)
        ensures
            action@ == self@.search(ring@, registry@, req@),
    {
        let others = self.lookup_targets(ring);
        assert(maps::views(others@).len() == others@.len());
        if others.len() == 0 {
            self.hand_over(registry, req)
        } else {
            InvokeAction::SearchCluster(others)
        }
    }

    fn serve_here(&self, ring: &HashRing, registry: &MessageRegistry, req: &InvokeRequest) -> (action:
        InvokeAction)
        ensures
            action@ == self@.serve_here(ring@, registry@, req@),
    {
        match registry.grain_type_str(req.grain_type.as_str()) {
            Some(name) => InvokeAction::ProbeLocal(
                GrainId { grain_type: name, key: req.grain_key.clone() },
            ),
            None => self.search(ring, registry, req),
        }
    }

    fn on_received(
        &self,
        ring: &HashRing,
        registry: &MessageRegistry,
        req: &InvokeRequest,
        check: Result<(), Status>,
    ) -> (action: InvokeAction)
        ensures
            action@ == self@.on_received(
                ring@,
                registry@,
                req@,
                match check {
                    Ok(()) => Ok(()),
                    Err(status) => Err(status@),
                },
            ),
    {
        if let Err(status) = check {
            return InvokeAction::Refuse(status);
        }
        if req.payload.len() > MAX_PAYLOAD_SIZE {
            let mut message = "payload size ".to_string();
            push_decimal(&mut message, req.payload.len() as u64);
            message.append(" exceeds maximum of ");
            push_decimal(&mut message, MAX_PAYLOAD_SIZE as u64);
            message.append(" bytes");
            return InvokeAction::Refuse(Status { code: Code::InvalidArgument, message });
        }
        if let Some(endpoint) = self.find_owner(
            ring,
            req.grain_type.as_str(),
            req.grain_key.as_str(),
        ) {
            return self.pass_on(req, endpoint, ") exceeded — possible routing loop");
        }
        if self.cross_cluster.is_some() {
            return InvokeAction::FindOwner(
                GrainId {
                    grain_type: registry.resolve_grain_type(req.grain_type.as_str()),
                    key: req.grain_key.clone(),
                },
            );
        }
        self.serve_here(ring, registry, req)
    }

    fn on_owner_found(
        &self,
        ring: &HashRing,
        registry: &MessageRegistry,
        req: &InvokeRequest,
        found: Result<Option<GrainOwnership>, DirectoryError>,
    ) -> (action: InvokeAction)
        ensures
            action@ == self@.on_owner_found(
                ring@,
                registry@,
                req@,
                match found {
                    Ok(Some(owner)) => Some(Some(owner@)),
                    Ok(None) => Some(None),
                    Err(_) => None,
                },
            ),
    {
        let clusters = match &self.cross_cluster {
            Some(clusters) => clusters,
            None => {
                return self.serve_here(ring, registry, req);
            },
        };
        match found {
            Ok(Some(owner)) => {
                if owner.cluster_id.same(&clusters.local_cluster_id) {
                    return self.serve_here(ring, registry, req);
                }
                match clusters.peer_endpoints.get(owner.cluster_id.as_str()) {
                    Some(endpoint) => InvokeAction::ForwardToCluster {
                        endpoint: endpoint.clone(),
                        request: ForwardInvokeRequest {
                            grain_type: req.grain_type.clone(),
                            grain_key: req.grain_key.clone(),
                            message_type: req.message_type.clone(),
                            payload: copy_bytes(&req.payload),
                            encoding: req.encoding,
                            request_context: req.request_context.duplicate(),
                            source_cluster_id: clusters.local_cluster_id.to_string(),
                            message_version: req.message_version,
                        },
                    },
                    None => self.serve_here(ring, registry, req),
                }
            },
            Ok(None) => InvokeAction::RegisterOwner {
                grain_id: GrainId {
                    grain_type: registry.resolve_grain_type(req.grain_type.as_str()),
                    key: req.grain_key.clone(),
                },
                cluster_id: clusters.local_cluster_id.duplicate(),
                epoch: INITIAL_EPOCH,
            },
            Err(_) => self.serve_here(ring, registry, req),
        }
    }

    /// What is to be done about a call after an event. The first event of a call is
    /// `Received`; each later one reports on the action before.
    pub fn invoke(
        &self,
        ring: &HashRing,
        registry: &MessageRegistry,
        req: &InvokeRequest,
        event: InvokeEvent,
    ) -> (action: InvokeAction)
        ensures
            action@ == self@.next(ring@, registry@, req@, event),
    {
        match event {
            InvokeEvent::Received(check) => self.on_received(ring, registry, req, check),
            InvokeEvent::OwnerFound(found) => self.on_owner_found(ring, registry, req, found),
            InvokeEvent::OwnerRegistered => self.serve_here(ring, registry, req),
            InvokeEvent::LocalProbed(active) => if active {
                self.hand_over(registry, req)
            } else {
                self.search(ring, registry, req)
            },
            InvokeEvent::ClusterSearched(found) => match found {
                Some(endpoint) => self.pass_on(
                    req,
                    endpoint,
                    ") exceeded during directory lookup",
                ),
                None => self.hand_over(registry, req),
            },
            InvokeEvent::SiloUnreachable(reason) => InvokeAction::Refuse(
                Status { code: Code::Unavailable, message: reason },
            ),
            InvokeEvent::SiloFailed(reason) => InvokeAction::Refuse(
                Status { code: Code::Internal, message: reason },
            ),
            InvokeEvent::SiloAnswered(response) => InvokeAction::Answer(response),
            InvokeEvent::GatewayUnreachable(reason) => InvokeAction::Refuse(
                Status {
                    code: Code::Unavailable,
                    message: join2("cross-cluster connection failed: ", reason.as_str()),
                },
            ),
            InvokeEvent::GatewayFailed(reason) => InvokeAction::Refuse(
                Status {
                    code: Code::Internal,
                    message: join2("cross-cluster forward failed: ", reason.as_str()),
                },
            ),
            InvokeEvent::GatewayAnswered(response) => InvokeAction::Answer(
                InvokeResponse {
                    payload: response.payload,
                    error: response.error,
                    encoding: response.encoding,
                },
            ),
            InvokeEvent::Dispatched(outcome) => InvokeAction::Answer(
                handler_response(outcome, req.encoding),
            ),
        }
    }
}

/// The members of the ring but the named one.
pub fn others_than(ring: &HashRing, silo_id: &str) -> (others: Vec<SiloAddress>)
    ensures
        maps::views(others@) == other_members(ring@, silo_id@),
{
    let members = ring.members();
    let ghost all = ring@.members();
    let ghost keep = is_other(silo_id@);
    let mut others: Vec<SiloAddress> = Vec::new();
    let mut i: usize = 0;
    proof {
        maps::lemma_filter_nothing(all, keep);
        assert(maps::views(others@) =~= Seq::<SiloAddressView>::empty());
    }
    while i < members.len()
        invariant
            i <= members.len(),
            all == maps::views(members@),
            keep == is_other(silo_id@),
            maps::views(others@) == all.take(i as int).filter(keep),
        decreases members.len() - i,
    {
        let member = &members[i];
        assert(all[i as int] == member@);
        proof {
            maps::lemma_take_filter(all, keep, i as int);
        }
        if !same_text(member.silo_id.as_str(), silo_id) {
            let ghost before = others@;
            others.push(member.duplicate());
            assert(maps::views(others@) =~= maps::views(before).push(member@));
        }
        i += 1;
    }
    assert(all.take(all.len() as int) =~= all);
    others
}

/// The endpoint that a silo's answer to a search gives: its own, where the grain is active.
pub fn search_hit(active: bool, endpoint: String) -> (hit: Option<String>)
    ensures
        hit == (if active {
            Some(endpoint)
        } else {
            None
        }),
{
    if active {
        Some(endpoint)
    } else {
        None
    }
}

/// A call is passed on with one hop more than it came with, never beyond the maximum, and
/// otherwise as it came.
pub proof fn passing_on_counts_a_hop(
    service: GrainTransportServiceView,
    ring: HashRingView,
    registry: MessageRegistryView,
    req: InvokeRequestView,
    event: InvokeEvent,
)
    ensures
        match service.next(ring, registry, req, event) {
            InvokeActionView::ForwardToSilo { endpoint, request } => {
                &&& hop_count(request.request_context) == hop_count(req.request_context) + 1
                &&& hop_count(request.request_context) <= MAX_HOPS
                &&& hop_count(request.request_context) <= 3
                &&& request.request_context.dom().contains("__orlando_hop_count"@)
                &&& request.request_context["__orlando_hop_count"@] == text::decimal(
                    hop_count(req.request_context) + 1,
                )
                &&& request.grain_type == req.grain_type && request.grain_key == req.grain_key
                &&& request.message_type == req.message_type && request.payload == req.payload
                &&& request.encoding == req.encoding
                &&& request.message_version == req.message_version
                &&& request.request_context.remove(hop_count_key())
                    == req.request_context.remove(hop_count_key())
            },
            _ => true,
        },
{
    let hops = hop_count(req.request_context);
    if hops < MAX_HOPS {
        text::parse_undoes_decimal(hops + 1, u32::MAX as nat);
        assert(hop_count(passed_on(req).request_context) == hops + 1);
        assert(passed_on(req).request_context.remove(hop_count_key())
            =~= req.request_context.remove(hop_count_key()));
    }
}

/// A call that has used up its hops is not passed on to a silo again, whatever happens.
pub proof fn hops_are_bounded(
    service: GrainTransportServiceView,
    ring: HashRingView,
    registry: MessageRegistryView,
    req: InvokeRequestView,
    event: InvokeEvent,
)
    requires
        hop_count(req.request_context) >= MAX_HOPS,
    ensures
        !(service.next(ring, registry, req, event) is ForwardToSilo),
{
}

/// A call reaches no handler here on arrival while the check fails, its payload is too
/// large, or the ring gives the grain to another silo.
pub proof fn arrivals_are_screened(
    service: GrainTransportServiceView,
    ring: HashRingView,
    registry: MessageRegistryView,
    req: InvokeRequestView,
    check: Result<(), Status>,
)
    requires
        check is Err || req.payload.len() > MAX_PAYLOAD_SIZE || remote_owner(
            ring,
            service.local_silo_id,
            req.grain_type,
            req.grain_key,
        ) is Some,
    ensures
        ({
            let action = service.next(ring, registry, req, InvokeEvent::Received(check));
            action is Refuse || action is ForwardToSilo
        }),
{
}

/// A silo alone on its ring serves every call that passes the checks.
pub proof fn sole_silo_serves(
    service: GrainTransportServiceView,
    ring: HashRingView,
    registry: MessageRegistryView,
    req: InvokeRequestView,
)
    requires
        ring.is_empty() || (forall|p: u64| #[trigger]
            ring.slots.dom().contains(p) ==> ring.slots[p].silo_id == service.local_silo_id),
        req.payload.len() <= MAX_PAYLOAD_SIZE,
        service.cross_cluster is None,
    ensures
        service.next(ring, registry, req, InvokeEvent::Received(Ok(()))) == service.serve_here(
            ring,
            registry,
            req,
        ),
{
    if !ring.is_empty() {
        crate::hash_ring::owner_is_first_met(
            ring,
            grain::joined_key(req.grain_type, req.grain_key),
        );
    }
}

/// A call on a grain that the ring gives to another silo is passed on to that silo; and there,
/// by the same ring, it is not passed on to a silo again.
pub proof fn passing_on_ends_at_the_owner(
    here: GrainTransportServiceView,
    there: GrainTransportServiceView,
    ring: HashRingView,
    registry: MessageRegistryView,
    remote_registry: MessageRegistryView,
    req: InvokeRequestView,
    owner: SiloAddressView,
)
    requires
        ring.owner(grain::joined_key(req.grain_type, req.grain_key)) == Some(owner),
        owner.silo_id != here.local_silo_id,
        owner.silo_id == there.local_silo_id,
        req.payload.len() <= MAX_PAYLOAD_SIZE,
        hop_count(req.request_context) < MAX_HOPS,
    ensures
        here.next(ring, registry, req, InvokeEvent::Received(Ok(()))) == (
        InvokeActionView::ForwardToSilo { endpoint: owner.endpoint(), request: passed_on(req) }),
        ({
            let next = there.next(
                ring,
                remote_registry,
                passed_on(req),
                InvokeEvent::Received(Ok(())),
            );
            !(next is ForwardToSilo) && !(next is Refuse)
        }),
{
}

/// A grain is handed a call here only after it was found active here, or found active on no
/// other silo; so a call never makes a second activation while the first is known.
pub proof fn no_grain_is_activated_unsought(
    service: GrainTransportServiceView,
    ring: HashRingView,
    registry: MessageRegistryView,
    req: InvokeRequestView,
    event: InvokeEvent,
)
    ensures
        service.next(ring, registry, req, event) is Dispatch ==> {
            ||| event matches InvokeEvent::LocalProbed(true)
            ||| event matches InvokeEvent::ClusterSearched(None)
            ||| (event matches InvokeEvent::LocalProbed(false)) && other_members(
                ring,
                service.local_silo_id,
            ).len() == 0
        },
        event matches InvokeEvent::ClusterSearched(Some(_)) ==> {
            let next = service.next(ring, registry, req, event);
            next is ForwardToSilo || next is Refuse
        },
{
}

/// A call on a grain that another known cluster owns goes to that cluster, as it came: for the
/// same grain, with the same message, context and version; one that this cluster owns, or
/// nobody, is served here.
pub proof fn the_owning_cluster_serves(
    service: GrainTransportServiceView,
    clusters: CrossClusterView,
    ring: HashRingView,
    registry: MessageRegistryView,
    req: InvokeRequestView,
    owner: GrainOwnership,
)
    requires
        service.cross_cluster == Some(clusters),
    ensures
        ({
            let next = service.next(
                ring,
                registry,
                req,
                InvokeEvent::OwnerFound(Ok(Some(owner))),
            );
            let id = owner@.cluster_id;
            if id != clusters.local_cluster_id && clusters.peer_endpoints.dom().contains(id) {
                next matches InvokeActionView::ForwardToCluster { endpoint, request } && endpoint
                    == clusters.peer_endpoints[id] && request.request_context
                    == req.request_context && request.source_cluster_id
                    == clusters.local_cluster_id && request.message_version == req.message_version
                    && request.grain_type == req.grain_type && request.grain_key == req.grain_key
                    && request.message_type == req.message_type && request.payload == req.payload
                    && request.encoding == req.encoding
            } else {
                &&& next == service.serve_here(ring, registry, req)
                &&& if registry.handlers.dom().contains(req.grain_type) {
                    next is ProbeLocal
                } else {
                    next is SearchCluster || next is Answer
                }
            }
        }),
        service.next(ring, registry, req, InvokeEvent::OwnerFound(Ok(None))) == (
        InvokeActionView::RegisterOwner {
            grain_id: GrainIdView { grain_type: req.grain_type, key: req.grain_key },
            cluster_id: clusters.local_cluster_id,
            epoch: INITIAL_EPOCH,
        }),
{
}

/// The number of hops is what the context says it is, and none where it says nothing or no
/// number.
pub proof fn hops_are_read_from_the_context(
    context: Map<Seq<char>, Seq<char>>,
    n: nat,
    said: Seq<char>,
)
    requires
        n <= u32::MAX,
    ensures
        text::parse_number(said, u32::MAX as nat) is None ==> hop_count(
            context.insert("__orlando_hop_count"@, said),
        ) == 0,
        hop_count(context.insert("__orlando_hop_count"@, text::decimal(n))) == n,
        hop_count(context.remove("__orlando_hop_count"@)) == 0,
{
    text::parse_undoes_decimal(n, u32::MAX as nat);
}

/// What is passed on to a silo goes to the silo that owns the grain, or to the one on which it
/// was found active, and nowhere else.
pub proof fn calls_go_to_the_owner_or_where_the_grain_is(
    service: GrainTransportServiceView,
    ring: HashRingView,
    registry: MessageRegistryView,
    req: InvokeRequestView,
    event: InvokeEvent,
)
    ensures
        service.next(ring, registry, req, event) matches InvokeActionView::ForwardToSilo {
            endpoint,
            ..
        } ==> {
            ||| event matches InvokeEvent::ClusterSearched(Some(found)) && endpoint == found@
            ||| (event matches InvokeEvent::Received(Ok(_))) && (ring.owner(
                req.grain_type + seq!['/'] + req.grain_key,
            ) matches Some(owner) && owner.silo_id != service.local_silo_id && endpoint
                == owner.host + seq![':'] + text::decimal(owner.port as nat))
        },
{
}

/// A call that is served here reaches the handler that was registered for its grain type and
/// message type; where there is no such handler it is answered with an error.
pub proof fn calls_reach_their_handler(
    service: GrainTransportServiceView,
    ring: HashRingView,
    registry: MessageRegistryView,
    req: InvokeRequestView,
    rust_type: Seq<char>,
    known: u32,
    pinned_to: Option<Seq<&'static str>>,
    handler: u64,
)
    requires
        req.message_version <= known,
    ensures
        ({
            let with = registry.with(
                req.grain_type,
                req.message_type,
                rust_type,
                known,
                pinned_to,
                handler,
            );
            &&& service.next(ring, with, req, InvokeEvent::LocalProbed(true))
                == InvokeActionView::Dispatch(handler)
            &&& service.next(ring, with, req, InvokeEvent::ClusterSearched(None))
                == InvokeActionView::Dispatch(handler)
        }),
        !registry.handlers.dom().contains(req.grain_type) ==> {
            let answer = service.next(ring, registry, req, InvokeEvent::LocalProbed(true));
            answer matches InvokeActionView::Answer(r) && r.payload.len() == 0 && r.error
                == "unknown grain type: "@ + req.grain_type
        },
{
}

/// A caller is answered with what the handler said: the bytes and their encoding where it
/// succeeded, and else its error, without any bytes. What another silo or cluster answered is
/// passed back as it came.
pub proof fn answers_are_passed_back(
    service: GrainTransportServiceView,
    ring: HashRingView,
    registry: MessageRegistryView,
    req: InvokeRequestView,
    payload: Vec<u8>,
    encoding: Encoding,
    error: ClusterError,
    response: InvokeResponse,
    forwarded: ForwardInvokeResponse,
)
    ensures
        service.next(ring, registry, req, InvokeEvent::Dispatched(Ok((payload, encoding)))) matches
            InvokeActionView::Answer(r) && r.payload == payload@ && r.error.len() == 0
            && network_message::encoding_of(r.encoding) == encoding,
        service.next(ring, registry, req, InvokeEvent::Dispatched(Err(error))) matches
            InvokeActionView::Answer(r) && r.payload.len() == 0 && r.error == error@.message()
            && network_message::encoding_of(r.encoding) == network_message::encoding_of(
            req.encoding,
        ),
        service.next(ring, registry, req, InvokeEvent::SiloAnswered(response)) matches
            InvokeActionView::Answer(r) && r.payload == response.payload@ && r.error
            == response.error@ && r.encoding == response.encoding,
        service.next(ring, registry, req, InvokeEvent::GatewayAnswered(forwarded)) matches
            InvokeActionView::Answer(r) && r.payload == forwarded.payload@ && r.error
            == forwarded.error@ && r.encoding == forwarded.encoding,
{
}

/// A call is refused with the reason: as the check of the sender said, where its payload is too
/// large, and where the silo or cluster that it was passed to could not be reached or refused
/// it.
pub proof fn refusals_say_why(
    service: GrainTransportServiceView,
    ring: HashRingView,
    registry: MessageRegistryView,
    req: InvokeRequestView,
    status: Status,
    reason: String,
)
    ensures
        service.next(ring, registry, req, InvokeEvent::Received(Err(status))) matches
            InvokeActionView::Refuse(s) && s.code == status.code && s.message == status.message@,
        req.payload.len() > 67_108_864 <==> (service.next(
            ring,
            registry,
            req,
            InvokeEvent::Received(Ok(())),
        ) matches InvokeActionView::Refuse(s) && s.code is InvalidArgument),
        service.next(ring, registry, req, InvokeEvent::SiloUnreachable(reason)) matches
            InvokeActionView::Refuse(s) && s.code is Unavailable && s.message == reason@,
        service.next(ring, registry, req, InvokeEvent::SiloFailed(reason)) matches
            InvokeActionView::Refuse(s) && s.code is Internal && s.message == reason@,
        service.next(ring, registry, req, InvokeEvent::GatewayUnreachable(reason)) matches
            InvokeActionView::Refuse(s) && s.code is Unavailable && s.message
            == "cross-cluster connection failed: "@ + reason@,
        service.next(ring, registry, req, InvokeEvent::GatewayFailed(reason)) matches
            InvokeActionView::Refuse(s) && s.code is Internal && s.message
            == "cross-cluster forward failed: "@ + reason@,
{
}

/// Whatever is asked about a grain on the way, of the directory of clusters, of this silo or of
/// the others, is asked about the grain of the call; and a call is refused or passed on to
/// another silo upon arrival exactly where the check fails, the payload is too large or another
/// silo owns the grain.
pub proof fn questions_are_about_the_called_grain(
    service: GrainTransportServiceView,
    ring: HashRingView,
    registry: MessageRegistryView,
    req: InvokeRequestView,
    event: InvokeEvent,
)
    ensures
        match service.next(ring, registry, req, event) {
            InvokeActionView::FindOwner(g) => g.grain_type == req.grain_type && g.key
                == req.grain_key && service.cross_cluster is Some,
            InvokeActionView::RegisterOwner { grain_id, cluster_id, epoch } => grain_id.grain_type
                == req.grain_type && grain_id.key == req.grain_key && epoch == 1 && (
            service.cross_cluster matches Some(clusters) && cluster_id
                == clusters.local_cluster_id),
            InvokeActionView::ProbeLocal(g) => g.grain_type == req.grain_type && g.key
                == req.grain_key && registry.handlers.dom().contains(req.grain_type),
            _ => true,
        },
        event matches InvokeEvent::Received(Ok(_)) && req.payload.len() <= 67_108_864 && (
        ring.owner(req.grain_type + seq!['/'] + req.grain_key) matches Some(owner) ==> owner.silo_id
            == service.local_silo_id) ==> {
            let next = service.next(ring, registry, req, event);
            if service.cross_cluster is Some {
                next is FindOwner
            } else if registry.handlers.dom().contains(req.grain_type) {
                next is ProbeLocal
            } else {
                next is SearchCluster || next is Answer
            }
        },
        event is OwnerRegistered || (event matches InvokeEvent::OwnerFound(Err(_))) ==> {
            let next = service.next(ring, registry, req, event);
            if registry.handlers.dom().contains(req.grain_type) {
                next is ProbeLocal
            } else {
                next is SearchCluster || next is Answer
            }
        },
{
}

/// Where a grain is not active here, every other silo on the ring is asked for it, each once,
/// and this one is not.
pub proof fn every_other_silo_is_asked(
    service: GrainTransportServiceView,
    ring: HashRingView,
    registry: MessageRegistryView,
    req: InvokeRequestView,
    s: SiloAddressView,
)
    ensures
        match service.next(ring, registry, req, InvokeEvent::LocalProbed(false)) {
            InvokeActionView::SearchCluster(asked) => {
                &&& asked.no_duplicates()
                &&& asked.contains(s) <==> ring.members().contains(s) && s.silo_id
                    != service.local_silo_id
            },
            _ => ring.members().contains(s) ==> s.silo_id == service.local_silo_id,
        },
{
    let members = ring.members();
    let keep = is_other(service.local_silo_id);
    hash_ring::distinct_keeps_each_once(ring.slot_values());
    maps::lemma_filter_distinct(members, keep);
    if members.contains(s) && keep(s) {
        members.lemma_filter_contains(keep, members.index_of(s));
        assert(members.filter(keep).contains(s));
    }
}

} // verus!
