//! The messages that silos, clusters and clients exchange.

use vstd::prelude::*;

use crate::maps::{Duplicate, StrMap};

verus! {

/// A copy of a byte string.
pub fn copy_bytes(bytes: &Vec<u8>) -> (copy: Vec<u8>)
    ensures
        copy@ == bytes@,
{
    let mut copy: Vec<u8> = Vec::new();
    let mut i: usize = 0;
    while i < bytes.len()
        invariant
            i <= bytes.len(),
            copy@ == bytes@.take(i as int),
        decreases bytes.len() - i,
    {
        assert(bytes@.take(i + 1) =~= bytes@.take(i as int).push(bytes@[i as int]));
        copy.push(bytes[i]);
        i += 1;
    }
    assert(bytes@.take(i as int) =~= bytes@);
    copy
}

/// Asks a silo to hand a message to a grain.
#[derive(Clone, Debug, PartialEq, Eq)]
pub struct InvokeRequest {
    pub grain_type: String,
    pub grain_key: String,
    pub message_type: String,
    pub payload: Vec<u8>,
    pub encoding: i32,
    pub request_context: StrMap<String>,
    pub message_version: u32,
}

/// The contents of an [`InvokeRequest`].
#[verifier::ext_equal]
pub struct InvokeRequestView {
    pub grain_type: Seq<char>,
    pub grain_key: Seq<char>,
    pub message_type: Seq<char>,
    pub payload: Seq<u8>,
    pub encoding: i32,
    pub request_context: Map<Seq<char>, Seq<char>>,
    pub message_version: u32,
}

impl View for InvokeRequest {
    type V = InvokeRequestView;

    open spec fn view(&self) -> InvokeRequestView {
        InvokeRequestView {
            grain_type: self.grain_type@,
            grain_key: self.grain_key@,
            message_type: self.message_type@,
            payload: self.payload@,
            encoding: self.encoding,
            request_context: self.request_context@,
            message_version: self.message_version,
        }
    }
}

impl Duplicate for InvokeRequest {
    fn duplicate(&self) -> (copy: Self) {
        InvokeRequest {
            grain_type: self.grain_type.clone(),
            grain_key: self.grain_key.clone(),
            message_type: self.message_type.clone(),
            payload: copy_bytes(&self.payload),
            encoding: self.encoding,
            request_context: self.request_context.duplicate(),
            message_version: self.message_version,
        }
    }
}

/// The answer to an [`InvokeRequest`]: a payload, or the text of an error.
#[derive(Clone, Debug, PartialEq, Eq)]
pub struct InvokeResponse {
    pub payload: Vec<u8>,
    pub error: String,
    pub encoding: i32,
}

/// The contents of an [`InvokeResponse`].
#[verifier::ext_equal]
pub struct InvokeResponseView {
    pub payload: Seq<u8>,
    pub error: Seq<char>,
    pub encoding: i32,
}

impl View for InvokeResponse {
    type V = InvokeResponseView;

    open spec fn view(&self) -> InvokeResponseView {
        InvokeResponseView {
            payload: self.payload@,
            error: self.error@,
            encoding: self.encoding,
        }
    }
}

/// Asks another cluster to hand a message to a grain that it owns.
#[derive(Clone, Debug, PartialEq, Eq)]
pub struct ForwardInvokeRequest {
    pub grain_type: String,
    pub grain_key: String,
    pub message_type: String,
    pub payload: Vec<u8>,
    pub encoding: i32,
    pub request_context: StrMap<String>,
    pub source_cluster_id: String,
    pub message_version: u32,
}

/// The contents of a [`ForwardInvokeRequest`].
#[verifier::ext_equal]
pub struct ForwardInvokeRequestView {
    pub grain_type: Seq<char>,
    pub grain_key: Seq<char>,
    pub message_type: Seq<char>,
    pub payload: Seq<u8>,
    pub encoding: i32,
    pub request_context: Map<Seq<char>, Seq<char>>,
    pub source_cluster_id: Seq<char>,
    pub message_version: u32,
}

impl View for ForwardInvokeRequest {
    type V = ForwardInvokeRequestView;

    open spec fn view(&self) -> ForwardInvokeRequestView {
        ForwardInvokeRequestView {
            grain_type: self.grain_type@,
            grain_key: self.grain_key@,
            message_type: self.message_type@,
            payload: self.payload@,
            encoding: self.encoding,
            request_context: self.request_context@,
            source_cluster_id: self.source_cluster_id@,
            message_version: self.message_version,
        }
    }
}

/// The answer to a [`ForwardInvokeRequest`].
#[derive(Clone, Debug, PartialEq, Eq)]
pub struct ForwardInvokeResponse {
    pub payload: Vec<u8>,
    pub error: String,
    pub encoding: i32,
}

impl View for ForwardInvokeResponse {
    type V = InvokeResponseView;

    open spec fn view(&self) -> InvokeResponseView {
        InvokeResponseView {
            payload: self.payload@,
            error: self.error@,
            encoding: self.encoding,
        }
    }
}

/// Tells which cluster answers.
#[derive(Clone, Debug, PartialEq, Eq)]
pub struct ClusterPingResponse {
    pub cluster_id: String,
    pub silo_count: u32,
    pub active_grains: u64,
}

/// A silo's address on the wire, where a port has 32 bits.
#[derive(Clone, Debug, PartialEq, Eq)]
pub struct ProtoSiloAddress {
    pub host: String,
    pub port: u32,
    pub silo_id: String,
}

/// The contents of a [`ProtoSiloAddress`].
#[verifier::ext_equal]
pub struct ProtoSiloAddressView {
    pub host: Seq<char>,
    pub port: u32,
    pub silo_id: Seq<char>,
}

impl View for ProtoSiloAddress {
    type V = ProtoSiloAddressView;

    open spec fn view(&self) -> ProtoSiloAddressView {
        ProtoSiloAddressView { host: self.host@, port: self.port, silo_id: self.silo_id@ }
    }
}

/// One item of gossip on the wire.
#[derive(Clone, Debug, PartialEq, Eq)]
pub struct GossipEntry {
    pub update_type: i32,
    pub silo: Option<ProtoSiloAddress>,
    pub incarnation: u64,
    pub reported_by: String,
}

/// The contents of a [`GossipEntry`].
#[verifier::ext_equal]
pub struct GossipEntryView {
    pub update_type: i32,
    pub silo: Option<ProtoSiloAddressView>,
    pub incarnation: u64,
    pub reported_by: Seq<char>,
}

impl View for GossipEntry {
    type V = GossipEntryView;

    open spec fn view(&self) -> GossipEntryView {
        GossipEntryView {
            update_type: self.update_type,
            silo: match self.silo {
                Some(silo) => Some(silo@),
                None => None,
            },
            incarnation: self.incarnation,
            reported_by: self.reported_by@,
        }
    }
}

/// The answer to a ping.
#[derive(Clone, Debug, PartialEq, Eq)]
pub struct PingResponse {
    pub silo_id: String,
    pub gossip: Vec<GossipEntry>,
}

/// The answer to a request to ping another silo.
#[derive(Clone, Debug, PartialEq, Eq)]
pub struct PingReqResponse {
    pub target_alive: bool,
    pub gossip: Vec<GossipEntry>,
}

/// Whether a grain is active on the answering silo, and where that is reached.
#[derive(Clone, Debug, PartialEq, Eq)]
pub struct LookupGrainResponse {
    pub active: bool,
    pub silo_id: String,
    pub endpoint: String,
}

} // verus!
