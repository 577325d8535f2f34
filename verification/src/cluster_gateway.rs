//! Calls that other clusters pass on to this one.

use vstd::prelude::*;

use crate::error::ClusterError;
use crate::message_registry::MessageRegistry;
use crate::network_message::Encoding;
use crate::proto::{ClusterPingResponse, ForwardInvokeRequest, ForwardInvokeResponse};
use crate::transport;
use crate::transport::handler_response;

verus! {

/// The part of a silo that takes calls from other clusters.
#[derive(Clone, Debug, PartialEq, Eq)]
pub struct ClusterGatewayService {
    local_cluster_id: String,
}

impl View for ClusterGatewayService {
    type V = Seq<char>;

    closed spec fn view(&self) -> Seq<char> {
        self.local_cluster_id@
    }
}

impl ClusterGatewayService {
    pub fn new(local_cluster_id: String) -> (service: ClusterGatewayService)
        ensures
            service@ == local_cluster_id@,
    {
        ClusterGatewayService { local_cluster_id }
    }

    /// The handler for a call passed on from another cluster, or the answer that there is
    /// none.
    pub fn forward_invoke(&self, registry: &MessageRegistry, req: &ForwardInvokeRequest) -> (next:
        Result<u64, ForwardInvokeResponse>)
        ensures
            match registry@.route(req@.grain_type, req@.message_type, req@.message_version) {
                Ok(handler) => next == Ok::<u64, ForwardInvokeResponse>(handler),
                Err(e) => next matches Err(response) && response@ == transport::handled(
                    Err(e.message()),
                    req.encoding,
                ),
            },
    {
        match registry.dispatch(
            req.grain_type.as_str(),
            req.message_type.as_str(),
            req.message_version,
        ) {
            Ok(handler) => Ok(handler),
            Err(e) => Err(self.forward_answer(Err(e), req.encoding)),
        }
    }

    /// The answer to a call passed on from another cluster, once its handler finished.
    pub fn forward_answer(
        &self,
        outcome: Result<(Vec<u8>, Encoding), ClusterError>,
        request_encoding: i32,
    ) -> (response: ForwardInvokeResponse)
        ensures
            response@ == transport::handled(
                match outcome {
                    Ok(answer) => Ok((answer.0@, answer.1)),
                    Err(e) => Err(e@.message()),
                },
                request_encoding,
            ),
    {
        let response = handler_response(outcome, request_encoding);
        ForwardInvokeResponse {
            payload: response.payload,
            error: response.error,
            encoding: response.encoding,
        }
    }

    /// Tells which cluster this is.
    pub fn cluster_ping(&self) -> (response: ClusterPingResponse)
        ensures
            response.cluster_id@ == self@,
            response.silo_count == 1,
            response.active_grains == 0,
    {
        ClusterPingResponse {
            cluster_id: self.local_cluster_id.clone(),
            silo_count: 1,
            active_grains: 0,
        }
    }
}

} // verus!
