//! Calls between silos over plain connections: frames, the serving side, and the client.

use vstd::prelude::*;

use dashmap::DashMap;

use crate::connection_pool;
use crate::connection_pool::{cache_get, cache_insert, cache_remove, new_cache};
use crate::error::{ClusterError, ClusterErrorView};
use crate::hash_ring::{HashRing, HashRingView, SiloAddressView};
use crate::maps;
use crate::maps::{Duplicate, StrMap};
use crate::message_registry::{MessageRegistry, MessageRegistryView};
use crate::network_message::Encoding;
use crate::proto::{copy_bytes, InvokeRequest, InvokeRequestView, InvokeResponse};
use crate::text;
use crate::text::{chars_of, join2};
use crate::transport;
use crate::transport::GrainTransportService;

verus! {

/// The longest frame, in bytes.
pub const MAX_FRAME_LENGTH: usize = 16_777_216;

/// How many bytes a frame may claim to hold, by `bincode`'s count, which takes up to eight for
/// each byte of a frame: sixteen for each byte of the longest.
pub const DECODE_LIMIT: usize = 268_435_456;

/// A call on a grain.
#[derive(Clone, Debug, PartialEq, Eq)]
pub struct TcpInvokeRequest {
    pub request_id: u64,
    pub grain_type: String,
    pub grain_key: String,
    pub message_type: String,
    pub payload: Vec<u8>,
    pub context: StrMap<String>,
}

/// The contents of a [`TcpInvokeRequest`].
#[verifier::ext_equal]
pub struct TcpInvokeRequestView {
    pub request_id: u64,
    pub grain_type: Seq<char>,
    pub grain_key: Seq<char>,
    pub message_type: Seq<char>,
    pub payload: Seq<u8>,
    pub context: Map<Seq<char>, Seq<char>>,
}

impl View for TcpInvokeRequest {
    type V = TcpInvokeRequestView;

    open spec fn view(&self) -> TcpInvokeRequestView {
        TcpInvokeRequestView {
            request_id: self.request_id,
            grain_type: self.grain_type@,
            grain_key: self.grain_key@,
            message_type: self.message_type@,
            payload: self.payload@,
            context: self.context@,
        }
    }
}

/// The answer to a call.
#[derive(Clone, Debug, PartialEq, Eq)]
pub struct TcpInvokeResponse {
    pub request_id: u64,
    pub success: bool,
    pub payload: Vec<u8>,
    pub error: Option<String>,
}

/// The contents of a [`TcpInvokeResponse`].
#[verifier::ext_equal]
pub struct TcpInvokeResponseView {
    pub request_id: u64,
    pub success: bool,
    pub payload: Seq<u8>,
    pub error: Option<Seq<char>>,
}

impl View for TcpInvokeResponse {
    type V = TcpInvokeResponseView;

    open spec fn view(&self) -> TcpInvokeResponseView {
        TcpInvokeResponseView {
            request_id: self.request_id,
            success: self.success,
            payload: self.payload@,
            error: error_text(self.error),
        }
    }
}

/// The fields of a call, in the order they are framed in; the context as a list.
pub type RequestFields = (u64, String, String, String, Vec<u8>, Vec<(String, String)>);

/// The fields of an answer, in the order they are framed in.
pub type ResponseFields = (u64, bool, Vec<u8>, Option<String>);

/// The contents of a call's fields.
pub type RequestFieldsView = (
    u64,
    Seq<char>,
    Seq<char>,
    Seq<char>,
    Seq<u8>,
    Seq<(Seq<char>, Seq<char>)>,
);

/// The contents of an answer's fields.
pub type ResponseFieldsView = (u64, bool, Seq<u8>, Option<Seq<char>>);

/// The contents of a list of pairs of texts.
pub open spec fn pair_texts(pairs: Seq<(String, String)>) -> Seq<(Seq<char>, Seq<char>)> {
    pairs.map_values(|p: (String, String)| (p.0@, p.1@))
}

/// The contents of a call's fields.
pub open spec fn request_fields(f: RequestFields) -> RequestFieldsView {
    (f.0, f.1@, f.2@, f.3@, f.4@, pair_texts(f.5@))
}

/// The text of an optional error.
pub open spec fn error_text(error: Option<String>) -> Option<Seq<char>> {
    match error {
        Some(e) => Some(e@),
        None => None,
    }
}

/// The contents of an answer's fields.
pub open spec fn response_fields(f: ResponseFields) -> ResponseFieldsView {
    (f.0, f.1, f.2@, error_text(f.3))
}

/// The frame that `bincode` encodes the fields of a call to, or the text of its error.
pub uninterp spec fn framed_request(
    request_id: u64,
    grain_type: Seq<char>,
    grain_key: Seq<char>,
    message_type: Seq<char>,
    payload: Seq<u8>,
    context: Seq<(Seq<char>, Seq<char>)>,
) -> Result<Seq<u8>, Seq<char>>;

/// What `bincode` decodes a frame to, as the fields of a call, or the text of its error.
pub uninterp spec fn decoded_request(frame: Seq<u8>) -> Result<
    (u64, Seq<char>, Seq<char>, Seq<char>, Seq<u8>, Seq<(Seq<char>, Seq<char>)>),
    Seq<char>,
>;

/// The frame that `bincode` encodes the fields of an answer to, or the text of its error.
pub uninterp spec fn framed_response(
    request_id: u64,
    success: bool,
    payload: Seq<u8>,
    error: Option<Seq<char>>,
) -> Result<Seq<u8>, Seq<char>>;

/// What `bincode` decodes a frame to, as the fields of an answer, or the text of its error.
pub uninterp spec fn decoded_response(frame: Seq<u8>) -> Result<
    (u64, bool, Seq<u8>, Option<Seq<char>>),
    Seq<char>,
>;

/// The frame of a call's fields.
pub open spec fn framed_request_fields(f: RequestFieldsView) -> Result<Seq<u8>, Seq<char>> {
    framed_request(f.0, f.1, f.2, f.3, f.4, f.5)
}

/// The frame of an answer's fields.
pub open spec fn framed_response_fields(f: ResponseFieldsView) -> Result<Seq<u8>, Seq<char>> {
    framed_response(f.0, f.1, f.2, f.3)
}

/// The contents of a frame, or the text of an error.
pub open spec fn frame_of(frame: Result<Vec<u8>, String>) -> Result<Seq<u8>, Seq<char>> {
    match frame {
        Ok(bytes) => Ok(bytes@),
        Err(e) => Err(e@),
    }
}

/// Whether a frame decodes to the fields of a call.
pub open spec fn decodes_to_request(frame: Seq<u8>, f: RequestFieldsView) -> bool {
    decoded_request(frame) matches Ok(d) && d == f
}

/// Whether a frame decodes to the fields of an answer.
pub open spec fn decodes_to_response(frame: Seq<u8>, f: ResponseFieldsView) -> bool {
    decoded_response(frame) matches Ok(d) && d == f
}

/// Encodes the fields of a call with `bincode::serde::encode_to_vec` in the standard
/// configuration. The result is a function of the fields, under the name `framed_request`,
/// and a frame that comes out decodes to the same fields, where it is not longer than frames
/// may be.
#[verifier::external_body]
fn encode_request_fields(fields: &RequestFields) -> (frame: Result<Vec<u8>, String>)
    ensures
        frame_of(frame) == framed_request(
            fields.0,
            fields.1@,
            fields.2@,
            fields.3@,
            fields.4@,
            pair_texts(fields.5@),
        ),
        frame matches Ok(bytes) ==> (bytes@.len() <= MAX_FRAME_LENGTH ==> decodes_to_request(
            bytes@,
            request_fields(*fields),
        )),
{
    bincode::serde::encode_to_vec(fields, bincode::config::standard()).map_err(|e| e.to_string())
}

/// Decodes the fields of a call with `bincode::serde::decode_from_slice` in the standard
/// configuration with a limit: a frame that claims to hold more than the limit is an error, and
/// nothing is set aside for it. The result is a function of the frame, under the name
/// `decoded_request`.
#[verifier::external_body]
fn decode_request_fields(frame: &Vec<u8>) -> (fields: Result<RequestFields, String>)
    ensures
        match fields {
            Ok(f) => decoded_request(frame@) == Ok::<RequestFieldsView, Seq<char>>(
                request_fields(f),
            ),
            Err(e) => decoded_request(frame@) == Err::<RequestFieldsView, Seq<char>>(e@),
        },
{
    let decoded: Result<(RequestFields, usize), bincode::error::DecodeError> =
        bincode::serde::decode_from_slice(
            frame,
            bincode::config::standard().with_limit::<DECODE_LIMIT>(),
        );
    decoded.map(|d| d.0).map_err(|e| e.to_string())
}

/// Encodes the fields of an answer with `bincode::serde::encode_to_vec` in the standard
/// configuration. The result is a function of the fields, under the name `framed_response`,
/// and a frame that comes out decodes to the same fields, where it is not longer than frames
/// may be.
#[verifier::external_body]
fn encode_response_fields(fields: &ResponseFields) -> (frame: Result<Vec<u8>, String>)
    ensures
        frame_of(frame) == framed_response(
            fields.0,
            fields.1,
            fields.2@,
            error_text(fields.3),
        ),
        frame matches Ok(bytes) ==> (bytes@.len() <= MAX_FRAME_LENGTH ==> decodes_to_response(
            bytes@,
            response_fields(*fields),
        )),
{
    bincode::serde::encode_to_vec(fields, bincode::config::standard()).map_err(|e| e.to_string())
}

/// Decodes the fields of an answer with `bincode::serde::decode_from_slice` in the standard
/// configuration with a limit: a frame that claims to hold more than the limit is an error, and
/// nothing is set aside for it. The result is a function of the frame, under the name
/// `decoded_response`.
#[verifier::external_body]
fn decode_response_fields(frame: &Vec<u8>) -> (fields: Result<ResponseFields, String>)
    ensures
        match fields {
            Ok(f) => decoded_response(frame@) == Ok::<ResponseFieldsView, Seq<char>>(
                response_fields(f),
            ),
            Err(e) => decoded_response(frame@) == Err::<ResponseFieldsView, Seq<char>>(e@),
        },
{
    let decoded: Result<(ResponseFields, usize), bincode::error::DecodeError> =
        bincode::serde::decode_from_slice(
            frame,
            bincode::config::standard().with_limit::<DECODE_LIMIT>(),
        );
    decoded.map(|d| d.0).map_err(|e| e.to_string())
}

/// The map that a list of pairs makes up: of pairs with one key the last counts.
pub open spec fn map_of_pairs(pairs: Seq<(Seq<char>, Seq<char>)>) -> Map<Seq<char>, Seq<char>>
    decreases pairs.len(),
{
    if pairs.len() == 0 {
        Map::empty()
    } else {
        map_of_pairs(pairs.drop_last()).insert(pairs.last().0, pairs.last().1)
    }
}

/// The call that fields make up.
pub open spec fn request_of(f: RequestFieldsView) -> TcpInvokeRequestView {
    TcpInvokeRequestView {
        request_id: f.0,
        grain_type: f.1,
        grain_key: f.2,
        message_type: f.3,
        payload: f.4,
        context: map_of_pairs(f.5),
    }
}

/// The answer that fields make up.
pub open spec fn response_of(f: ResponseFieldsView) -> TcpInvokeResponseView {
    TcpInvokeResponseView { request_id: f.0, success: f.1, payload: f.2, error: f.3 }
}

/// The fields of a call; its context in ascending order of keys.
pub open spec fn fields_of(r: TcpInvokeRequestView) -> RequestFieldsView {
    (
        r.request_id,
        r.grain_type,
        r.grain_key,
        r.message_type,
        r.payload,
        maps::pairs_in_order(r.context),
    )
}

/// The fields of an answer.
pub open spec fn answer_fields_of(r: TcpInvokeResponseView) -> ResponseFieldsView {
    (r.request_id, r.success, r.payload, r.error)
}

fn pairs_of(context: &StrMap<String>) -> (pairs: Vec<(String, String)>)
    ensures
        pair_texts(pairs@) == maps::pairs_in_order(context@),
        map_of_pairs(pair_texts(pairs@)) == context@,
{
    let n: usize = context.len();
    let ghost keys = context.key_seq();
    let mut pairs: Vec<(String, String)> = Vec::new();
    let mut i: usize = 0;
    proof {
        assert(pair_texts(pairs@) =~= Seq::<(Seq<char>, Seq<char>)>::empty());
    }
    while i < n
        invariant
            i <= n,
            n == keys.len(),
            keys == context.key_seq(),
            pairs@.len() == i,
            forall|j: int|
                0 <= j < i ==> (#[trigger] pair_texts(pairs@)[j]) == (keys[j], context@[keys[j]]),
            forall|k: Seq<char>|
                #![trigger map_of_pairs(pair_texts(pairs@)).dom().contains(k)]
                map_of_pairs(pair_texts(pairs@)).dom().contains(k) <==> keys.take(
                    i as int,
                ).contains(k),
            forall|k: Seq<char>|
                #![trigger map_of_pairs(pair_texts(pairs@)).dom().contains(k)]
                map_of_pairs(pair_texts(pairs@)).dom().contains(k) ==> map_of_pairs(
                    pair_texts(pairs@),
                )[k] == context@[k],
        decreases n - i,
    {
        let key = context.key_at(i).clone();
        let value = context.value_at(i).clone();
        let ghost before = pairs@;
        let ghost (k0, v0) = (key@, value@);
        pairs.push((key, value));
        proof {
            let (now, next) = (keys.take(i as int), keys.take(i + 1));
            assert(next =~= now.push(k0));
            assert(pair_texts(pairs@) =~= pair_texts(before).push((k0, v0)));
            assert(pair_texts(pairs@).drop_last() =~= pair_texts(before));
            assert forall|j: int| 0 <= j < i + 1 implies (#[trigger] pair_texts(pairs@)[j]) == (
                keys[j],
                context@[keys[j]],
            ) by {
                if j < i {
                    assert(pair_texts(before)[j] == (keys[j], context@[keys[j]]));
                }
            }
            let old_map = map_of_pairs(pair_texts(before));
            let new_map = map_of_pairs(pair_texts(pairs@));
            assert(new_map == old_map.insert(k0, v0));
            assert forall|k: Seq<char>|
                #![trigger new_map.dom().contains(k)]
                new_map.dom().contains(k) <==> next.contains(k) by {
                if next.contains(k) {
                    let j = next.index_of(k);
                    if j < i {
                        assert(now[j] == k);
                        assert(old_map.dom().contains(k));
                    }
                }
                if old_map.dom().contains(k) {
                    assert(next[now.index_of(k)] == k);
                }
                assert(next[i as int] == k0);
            }
            assert forall|k: Seq<char>|
                #![trigger new_map.dom().contains(k)]
                new_map.dom().contains(k) implies new_map[k] == context@[k] by {
                if k != k0 {
                    assert(old_map.dom().contains(k));
                }
            }
        }
        i += 1;
    }
    proof {
        assert(keys.take(n as int) =~= keys);
        assert(map_of_pairs(pair_texts(pairs@)) =~= context@);
        assert(pair_texts(pairs@) =~= maps::pairs_in_order(context@));
    }
    pairs
}

fn context_of(pairs: &Vec<(String, String)>) -> (context: StrMap<String>)
    ensures
        context@ == map_of_pairs(pair_texts(pairs@)),
{
    let ghost all = pair_texts(pairs@);
    let mut context: StrMap<String> = StrMap::new();
    let mut i: usize = 0;
    assert(all.take(0) =~= Seq::<(Seq<char>, Seq<char>)>::empty());
    while i < pairs.len()
        invariant
            i <= pairs.len(),
            all == pair_texts(pairs@),
            context@ == map_of_pairs(all.take(i as int)),
        decreases pairs.len() - i,
    {
        proof {
            assert(all.take(i + 1).drop_last() =~= all.take(i as int));
            assert(all.take(i + 1).last() == all[i as int]);
        }
        context.insert(pairs[i].0.clone(), pairs[i].1.clone());
        i += 1;
    }
    assert(all.take(i as int) =~= all);
    context
}

/// The fields of a call, as they are framed.
pub fn call_fields(request: &TcpInvokeRequest) -> (fields: RequestFields)
    ensures
        request_fields(fields) == fields_of(request@),
        request_of(request_fields(fields)) == request@,
{
    (
        request.request_id,
        request.grain_type.clone(),
        request.grain_key.clone(),
        request.message_type.clone(),
        copy_bytes(&request.payload),
        pairs_of(&request.context),
    )
}

/// The fields of an answer, as they are framed.
pub fn answer_fields(response: &TcpInvokeResponse) -> (fields: ResponseFields)
    ensures
        response_fields(fields) == answer_fields_of(response@),
        response_of(response_fields(fields)) == response@,
{
    (
        response.request_id,
        response.success,
        copy_bytes(&response.payload),
        match &response.error {
            Some(e) => Some(e.clone()),
            None => None,
        },
    )
}

/// What came of encoding a frame.
pub fn encoded_frame(encoded: Result<Vec<u8>, String>) -> (frame: Result<Vec<u8>, ClusterError>)
    ensures
        match (encoded, frame) {
            (Ok(bytes), Ok(f)) => f@ == bytes@,
            (Err(reason), Err(e)) => e@ == ClusterErrorView::Serialization(reason@),
            _ => false,
        },
{
    match encoded {
        Ok(frame) => Ok(frame),
        Err(e) => Err(ClusterError::Serialization(e)),
    }
}

/// The call that the fields of a frame make up, where they could be decoded.
pub fn decoded_call(fields: Result<RequestFields, String>) -> (request: Result<
    TcpInvokeRequest,
    ClusterError,
>)
    ensures
        match (fields, request) {
            (Ok(f), Ok(r)) => r@ == request_of(request_fields(f)),
            (Err(reason), Err(e)) => e@ == ClusterErrorView::Deserialization(reason@),
            _ => false,
        },
{
    match fields {
        Ok(fields) => Ok(
            TcpInvokeRequest {
                request_id: fields.0,
                context: context_of(&fields.5),
                grain_type: fields.1,
                grain_key: fields.2,
                message_type: fields.3,
                payload: fields.4,
            },
        ),
        Err(e) => Err(ClusterError::Deserialization(e)),
    }
}

/// The answer that the fields of a frame make up, where they could be decoded.
pub fn decoded_answer(fields: Result<ResponseFields, String>) -> (response: Result<
    TcpInvokeResponse,
    ClusterError,
>)
    ensures
        match (fields, response) {
            (Ok(f), Ok(r)) => r@ == response_of(response_fields(f)),
            (Err(reason), Err(e)) => e@ == ClusterErrorView::Deserialization(reason@),
            _ => false,
        },
{
    match fields {
        Ok(fields) => Ok(
            TcpInvokeResponse {
                request_id: fields.0,
                success: fields.1,
                payload: fields.2,
                error: fields.3,
            },
        ),
        Err(e) => Err(ClusterError::Deserialization(e)),
    }
}

/// A call as a frame. One that is not longer than frames may be decodes to the call.
pub fn encode_request(request: &TcpInvokeRequest) -> (frame: Result<Vec<u8>, ClusterError>)
    ensures
        match frame {
            Ok(bytes) => framed_request_fields(fields_of(request@)) == Ok::<Seq<u8>, Seq<char>>(
                bytes@,
            ) && (bytes@.len() <= MAX_FRAME_LENGTH ==> (decoded_request(bytes@) matches Ok(f)
                && request_of(f) == request@)),
            Err(e) => framed_request_fields(fields_of(request@)) matches Err(reason) && e@
                == ClusterErrorView::Serialization(reason),
        },
{
    encoded_frame(encode_request_fields(&call_fields(request)))
}

/// A call out of a frame.
pub fn decode_request(frame: &Vec<u8>) -> (request: Result<TcpInvokeRequest, ClusterError>)
    ensures
        match request {
            Ok(r) => decoded_request(frame@) matches Ok(f) && r@ == request_of(f),
            Err(e) => decoded_request(frame@) matches Err(reason) && e@
                == ClusterErrorView::Deserialization(reason),
        },
{
    decoded_call(decode_request_fields(frame))
}

/// An answer as a frame. One that is not longer than frames may be decodes to the answer.
pub fn encode_response(response: &TcpInvokeResponse) -> (frame: Result<Vec<u8>, ClusterError>)
    ensures
        match frame {
            Ok(bytes) => framed_response_fields(answer_fields_of(response@)) == Ok::<
                Seq<u8>,
                Seq<char>,
            >(bytes@) && (bytes@.len() <= MAX_FRAME_LENGTH ==> (decoded_response(bytes@) matches Ok(
                f,
            ) && response_of(f) == response@)),
            Err(e) => framed_response_fields(answer_fields_of(response@)) matches Err(reason) && e@
                == ClusterErrorView::Serialization(reason),
        },
{
    encoded_frame(encode_response_fields(&answer_fields(response)))
}

/// An answer out of a frame.
pub fn decode_response(frame: &Vec<u8>) -> (response: Result<TcpInvokeResponse, ClusterError>)
    ensures
        match response {
            Ok(r) => decoded_response(frame@) matches Ok(f) && r@ == response_of(f),
            Err(e) => decoded_response(frame@) matches Err(reason) && e@
                == ClusterErrorView::Deserialization(reason),
        },
{
    decoded_answer(decode_response_fields(frame))
}

/// What has happened since the last action on a call.
pub enum TcpEvent {
    /// The call came in.
    Received,
    /// The silo that the call was passed to answered, or could not be called for a reason.
    Forwarded(Result<InvokeResponse, String>),
    /// The grain's handler finished.
    Dispatched(Result<(Vec<u8>, Encoding), ClusterError>),
}

/// What is to be done next about a call.
pub enum TcpAction {
    /// Answer it.
    Answer(TcpInvokeResponse),
    /// Pass it on to the silo at an endpoint.
    Forward { endpoint: String, request: InvokeRequest },
    /// Hand it to the handler with that number.
    Dispatch(u64),
}

/// The contents of a [`TcpAction`].
pub enum TcpActionView {
    Answer(TcpInvokeResponseView),
    Forward { endpoint: Seq<char>, request: InvokeRequestView },
    Dispatch(u64),
}

impl View for TcpAction {
    type V = TcpActionView;

    open spec fn view(&self) -> TcpActionView {
        match self {
            TcpAction::Answer(r) => TcpActionView::Answer(r@),
            TcpAction::Forward { endpoint, request } => TcpActionView::Forward {
                endpoint: endpoint@,
                request: request@,
            },
            TcpAction::Dispatch(h) => TcpActionView::Dispatch(*h),
        }
    }
}

/// The answer to a call that succeeded.
pub open spec fn succeeded(request_id: u64, payload: Seq<u8>) -> TcpInvokeResponseView {
    TcpInvokeResponseView { request_id, success: true, payload, error: None }
}

/// The answer to a call that failed, with what came back if anything did.
pub open spec fn failed(request_id: u64, payload: Seq<u8>, error: Seq<char>) -> TcpInvokeResponseView {
    TcpInvokeResponseView { request_id, success: false, payload, error: Some(error) }
}

/// What is to be done about a call after an event. Calls over plain connections are encoded
/// in the default encoding and carry no version.
pub open spec fn next_action(
    local_silo_id: Seq<char>,
    ring: HashRingView,
    registry: MessageRegistryView,
    req: TcpInvokeRequestView,
    event: TcpEvent,
) -> TcpActionView {
    match event {
        TcpEvent::Received => match transport::remote_owner(
            ring,
            local_silo_id,
            req.grain_type,
            req.grain_key,
        ) {
            Some(endpoint) => TcpActionView::Forward {
                endpoint,
                request: InvokeRequestView {
                    grain_type: req.grain_type,
                    grain_key: req.grain_key,
                    message_type: req.message_type,
                    payload: req.payload,
                    encoding: 0,
                    request_context: req.context,
                    message_version: 0,
                },
            },
            None => match registry.route(req.grain_type, req.message_type, 0) {
                Ok(handler) => TcpActionView::Dispatch(handler),
                Err(e) => TcpActionView::Answer(
                    failed(req.request_id, Seq::empty(), e.message()),
                ),
            },
        },
        TcpEvent::Forwarded(Ok(response)) => if response@.error.len() == 0 {
            TcpActionView::Answer(succeeded(req.request_id, response@.payload))
        } else {
            TcpActionView::Answer(
                failed(req.request_id, response@.payload, response@.error),
            )
        },
        TcpEvent::Forwarded(Err(reason)) => TcpActionView::Answer(
            failed(req.request_id, Seq::empty(), reason@),
        ),
        TcpEvent::Dispatched(Ok(answer)) => TcpActionView::Answer(
            succeeded(req.request_id, answer.0@),
        ),
        TcpEvent::Dispatched(Err(e)) => TcpActionView::Answer(
            failed(req.request_id, Seq::empty(), e@.message()),
        ),
    }
}

/// The serving side of plain connections.
#[derive(Clone, Debug, PartialEq, Eq)]
pub struct TcpTransportServer {
    routing: GrainTransportService,
}

impl View for TcpTransportServer {
    type V = Seq<char>;

    closed spec fn view(&self) -> Seq<char> {
        self.routing@.local_silo_id
    }
}

impl TcpTransportServer {
    pub fn new(local_silo_id: String) -> (server: TcpTransportServer)
        ensures
            server@ == local_silo_id@,
    {
        TcpTransportServer { routing: GrainTransportService::new(local_silo_id) }
    }

    fn failure(&self, request_id: u64, payload: Vec<u8>, error: String) -> (action: TcpAction)
        ensures
            action@ == TcpActionView::Answer(failed(request_id, payload@, error@)),
    {
        TcpAction::Answer(
            TcpInvokeResponse { request_id, success: false, payload, error: Some(error) },
        )
    }

    /// What is to be done about a call after an event. The first event of a call is
    /// `Received`; each later one reports on the action before.
    pub fn dispatch(
        &self,
        ring: &HashRing,
        registry: &MessageRegistry,
        req: &TcpInvokeRequest,
        event: TcpEvent,
    ) -> (action: TcpAction)
        ensures
            action@ == next_action(self@, ring@, registry@, req@, event),
    {
        match event {
            TcpEvent::Received => {
                if let Some(endpoint) = self.routing.find_owner(
                    ring,
                    req.grain_type.as_str(),
                    req.grain_key.as_str(),
                ) {
                    return TcpAction::Forward {
                        endpoint,
                        request: InvokeRequest {
                            grain_type: req.grain_type.clone(),
                            grain_key: req.grain_key.clone(),
                            message_type: req.message_type.clone(),
                            payload: copy_bytes(&req.payload),
                            encoding: 0,
                            request_context: req.context.duplicate(),
                            message_version: 0,
                        },
                    };
                }
                match registry.dispatch(req.grain_type.as_str(), req.message_type.as_str(), 0) {
                    Ok(handler) => TcpAction::Dispatch(handler),
                    Err(e) => self.failure(req.request_id, Vec::new(), e.to_string()),
                }
            },
            TcpEvent::Forwarded(Ok(response)) => {
                if chars_of(response.error.as_str()).len() == 0 {
                    TcpAction::Answer(
                        TcpInvokeResponse {
                            request_id: req.request_id,
                            success: true,
                            payload: response.payload,
                            error: None,
                        },
                    )
                } else {
                    self.failure(req.request_id, response.payload, response.error)
                }
            },
            TcpEvent::Forwarded(Err(reason)) => self.failure(req.request_id, Vec::new(), reason),
            TcpEvent::Dispatched(Ok(answer)) => TcpAction::Answer(
                TcpInvokeResponse {
                    request_id: req.request_id,
                    success: true,
                    payload: answer.0,
                    error: None,
                },
            ),
            TcpEvent::Dispatched(Err(e)) => self.failure(
                req.request_id,
                Vec::new(),
                e.to_string(),
            ),
        }
    }
}

/// How far a client has come with a call.
#[derive(Clone, Copy, Debug, PartialEq, Eq, Structural)]
pub enum CallPhase {
    /// Connecting, as there is no connection yet.
    Connect,
    /// Sending the call and awaiting the answer.
    Send,
    /// Connecting anew, as the call failed.
    Reconnect,
    /// Sending the call a second time.
    Resend,
}

/// What follows a phase.
#[derive(Clone, Copy, Debug, PartialEq, Eq, Structural)]
pub enum CallStep {
    /// Another phase.
    Next(CallPhase),
    /// The answer is there.
    Done,
    /// The call failed for good, with the error of the phase.
    Fail,
}

/// What follows a phase that went well or not.
pub open spec fn call_step(phase: CallPhase, ok: bool) -> CallStep {
    match (phase, ok) {
        (CallPhase::Connect, true) => CallStep::Next(CallPhase::Send),
        (CallPhase::Connect, false) => CallStep::Fail,
        (CallPhase::Send, true) => CallStep::Done,
        (CallPhase::Send, false) => CallStep::Next(CallPhase::Reconnect),
        (CallPhase::Reconnect, true) => CallStep::Next(CallPhase::Resend),
        (CallPhase::Reconnect, false) => CallStep::Fail,
        (CallPhase::Resend, true) => CallStep::Done,
        (CallPhase::Resend, false) => CallStep::Fail,
    }
}

/// The calling side of plain connections, to one endpoint.
#[derive(Clone, Debug, PartialEq, Eq)]
pub struct TcpTransportClient {
    endpoint: String,
    connected: bool,
    next_request_id: u64,
}

/// The contents of a [`TcpTransportClient`].
#[verifier::ext_equal]
pub struct TcpTransportClientView {
    pub endpoint: Seq<char>,
    pub connected: bool,
    pub next_request_id: u64,
}

impl View for TcpTransportClient {
    type V = TcpTransportClientView;

    closed spec fn view(&self) -> TcpTransportClientView {
        TcpTransportClientView {
            endpoint: self.endpoint@,
            connected: self.connected,
            next_request_id: self.next_request_id,
        }
    }
}

/// The error of a connection that could not be made.
pub fn connect_error(addr: &str, reason: &str) -> (error: ClusterError)
    ensures
        error@ == ClusterErrorView::Transport("tcp connect to "@ + addr@ + ": "@ + reason@),
{
    let mut message = join2("tcp connect to ", addr);
    message.append(": ");
    message.append(reason);
    ClusterError::Transport(message)
}

/// The error of a connection that ended before the answer.
pub fn closed_error() -> (error: ClusterError)
    ensures
        error@ == ClusterErrorView::Transport("tcp connection closed"@),
{
    ClusterError::Transport("tcp connection closed".to_string())
}

/// The error of an address that could not be listened on.
pub fn bind_error(reason: &str) -> (error: ClusterError)
    ensures
        error@ == ClusterErrorView::Transport("tcp bind failed: "@ + reason@),
{
    ClusterError::Transport(join2("tcp bind failed: ", reason))
}

impl TcpTransportClient {
    /// A client that will connect when it is first used.
    pub fn new(endpoint: String) -> (client: TcpTransportClient)
        ensures
            client@ == (TcpTransportClientView {
                endpoint: endpoint@,
                connected: false,
                next_request_id: 1,
            }),
    {
        TcpTransportClient { endpoint, connected: false, next_request_id: 1 }
    }

    pub fn endpoint(&self) -> (endpoint: &str)
        ensures
            endpoint@ == self@.endpoint,
    {
        self.endpoint.as_str()
    }

    /// Starts a call: numbers it, and says whether a connection is needed first.
    pub fn invoke(
        &mut self,
        grain_type: String,
        grain_key: String,
        message_type: String,
        payload: Vec<u8>,
        context: StrMap<String>,
    ) -> (call: (TcpInvokeRequest, CallPhase))
        ensures
            call.0@ == (TcpInvokeRequestView {
                request_id: old(self)@.next_request_id,
                grain_type: grain_type@,
                grain_key: grain_key@,
                message_type: message_type@,
                payload: payload@,
                context: context@,
            }),
            call.1 == (if old(self)@.connected {
                CallPhase::Send
            } else {
                CallPhase::Connect
            }),
            final(self)@ == (TcpTransportClientView {
                next_request_id: old(self)@.next_request_id.wrapping_add(1),
                ..old(self)@
            }),
            (call.0@, call.1, final(self)@) == old(self)@.calling(
                grain_type@,
                grain_key@,
                message_type@,
                payload@,
                context@,
            ),
    {
        let request_id: u64 = self.next_request_id;
        self.next_request_id = request_id.wrapping_add(1);
        let phase = if self.connected {
            CallPhase::Send
        } else {
            CallPhase::Connect
        };
        (
            TcpInvokeRequest { request_id, grain_type, grain_key, message_type, payload, context },
            phase,
        )
    }

    /// What follows a phase of a call that went well or not. After a failed call one new
    /// connection is tried.
    pub fn advance(&mut self, phase: CallPhase, ok: bool) -> (step: CallStep)
        ensures
            step == call_step(phase, ok),
            final(self)@ == (TcpTransportClientView {
                connected: old(self)@.connected || (phase is Connect && ok),
                ..old(self)@
            }),
            final(self)@ == old(self)@.advanced(phase, ok),
    {
        match phase {
            CallPhase::Connect => if ok {
                self.connected = true;
                CallStep::Next(CallPhase::Send)
            } else {
                CallStep::Fail
            },
            CallPhase::Send => if ok {
                CallStep::Done
            } else {
                CallStep::Next(CallPhase::Reconnect)
            },
            CallPhase::Reconnect => if ok {
                CallStep::Next(CallPhase::Resend)
            } else {
                CallStep::Fail
            },
            CallPhase::Resend => if ok {
                CallStep::Done
            } else {
                CallStep::Fail
            },
        }
    }
}

/// The phases that may still follow one, at most.
pub open spec fn phases_left(phase: CallPhase) -> nat {
    match phase {
        CallPhase::Connect => 3,
        CallPhase::Send => 2,
        CallPhase::Reconnect => 1,
        CallPhase::Resend => 0,
    }
}

/// A call ends: each phase leaves fewer to follow, and a call is sent twice at most.
pub proof fn calls_end(phase: CallPhase, ok: bool)
    ensures
        call_step(phase, ok) matches CallStep::Next(next) ==> phases_left(next) < phases_left(
            phase,
        ) && !(phase is Resend),
{
}

/// The clients of a process, one for each endpoint. A client is known by its number.
pub struct TcpConnectionPool {
    clients: DashMap<String, u64>,
    next_client: u64,
}

/// The contents of a [`TcpConnectionPool`].
#[verifier::ext_equal]
pub struct TcpConnectionPoolView {
    pub clients: Map<Seq<char>, u64>,
    pub next_client: u64,
}

impl View for TcpConnectionPool {
    type V = TcpConnectionPoolView;

    closed spec fn view(&self) -> TcpConnectionPoolView {
        TcpConnectionPoolView {
            clients: connection_pool::cached(self.clients),
            next_client: self.next_client,
        }
    }
}

impl TcpConnectionPoolView {
    /// The pool once an endpoint has a client.
    pub open spec fn serving(self, endpoint: Seq<char>) -> TcpConnectionPoolView {
        if self.clients.dom().contains(endpoint) {
            self
        } else {
            TcpConnectionPoolView {
                clients: self.clients.insert(endpoint, self.next_client),
                next_client: (self.next_client + 1) as u64,
            }
        }
    }

    /// The pool without an endpoint's client.
    pub open spec fn without(self, endpoint: Seq<char>) -> TcpConnectionPoolView {
        TcpConnectionPoolView { clients: self.clients.remove(endpoint), ..self }
    }

    /// Whether no two endpoints have one client, and the next client is a new one.
    pub open spec fn distinct(self) -> bool {
        &&& forall|e: Seq<char>| #[trigger]
            self.clients.dom().contains(e) ==> self.clients[e] < self.next_client
        &&& forall|e: Seq<char>, f: Seq<char>|
            #![trigger self.clients.dom().contains(e), self.clients.dom().contains(f)]
            self.clients.dom().contains(e) && self.clients.dom().contains(f) && e != f
                ==> self.clients[e] != self.clients[f]
    }
}

impl TcpConnectionPool {
    pub fn new() -> (pool: TcpConnectionPool)
        ensures
            pool@ == (TcpConnectionPoolView { clients: Map::empty(), next_client: 0 }),
            pool@.distinct(),
    {
        TcpConnectionPool { clients: new_cache(), next_client: 0 }
    }

    /// The client for an endpoint, a new one where there is none.
    pub fn get_client(&mut self, endpoint: &str) -> (client: u64)
        requires
            old(self)@.next_client < u64::MAX,
        ensures
            final(self)@ == old(self)@.serving(endpoint@),
            client == final(self)@.clients[endpoint@],
    {
        if let Some(client) = cache_get(&self.clients, endpoint) {
            return client;
        }
        let client: u64 = self.next_client;
        cache_insert(&mut self.clients, endpoint.to_string(), client);
        self.next_client = client + 1;
        client
    }

    /// Drops the client of an endpoint.
    pub fn remove(&mut self, endpoint: &str)
        ensures
            final(self)@ == old(self)@.without(endpoint@),
    {
        cache_remove(&mut self.clients, endpoint);
    }
}

impl Default for TcpConnectionPool {
    fn default() -> (pool: Self)
        ensures
            pool@ == (TcpConnectionPoolView { clients: Map::empty(), next_client: 0 }),
    {
        TcpConnectionPool::new()
    }
}

/// An endpoint keeps its client, and different endpoints have different ones.
pub proof fn endpoints_have_their_own_clients(
    pool: TcpConnectionPoolView,
    endpoint: Seq<char>,
    other: Seq<char>,
)
    requires
        pool.distinct(),
        pool.next_client < u64::MAX - 1,
        endpoint != other,
    ensures
        pool.serving(endpoint).distinct(),
        pool.without(endpoint).distinct(),
        pool.serving(endpoint).serving(endpoint) == pool.serving(endpoint),
        ({
            let both = pool.serving(endpoint).serving(other);
            both.clients[endpoint] != both.clients[other] && both.clients[endpoint]
                == pool.serving(endpoint).clients[endpoint]
        }),
{
    assert(pool.serving(endpoint).clients.dom().contains(endpoint));
    assert(pool.serving(endpoint).serving(other).clients.dom().contains(other));
    assert(pool.serving(endpoint).serving(other).clients.dom().contains(endpoint));
    if pool.serving(endpoint).clients.dom().contains(other) {
        assert(pool.clients.dom().contains(other));
    }
}

/// A call whose grain another silo owns is forwarded to that silo as it came: for the same
/// grain, with the same message and context.
pub proof fn forwarded_calls_keep_their_fields(
    local_silo_id: Seq<char>,
    ring: HashRingView,
    registry: MessageRegistryView,
    req: TcpInvokeRequestView,
    owner: SiloAddressView,
)
    requires
        ring.owner(req.grain_type + seq!['/'] + req.grain_key) == Some(owner),
        owner.silo_id != local_silo_id,
    ensures
        next_action(local_silo_id, ring, registry, req, TcpEvent::Received) matches
            TcpActionView::Forward { endpoint, request } && endpoint == owner.host + seq![':']
            + text::decimal(owner.port as nat) && request.grain_type == req.grain_type
            && request.grain_key == req.grain_key && request.message_type == req.message_type
            && request.payload == req.payload && request.request_context == req.context
            && request.encoding == 0 && request.message_version == 0,
{
}

/// A call whose grain no other silo owns reaches the handler that was registered for its grain
/// type and message type; one of an unknown grain type is answered with an error.
pub proof fn local_calls_reach_their_handler(
    local_silo_id: Seq<char>,
    ring: HashRingView,
    registry: MessageRegistryView,
    req: TcpInvokeRequestView,
    rust_type: Seq<char>,
    known: u32,
    pinned_to: Option<Seq<&'static str>>,
    handler: u64,
)
    requires
        ring.owner(req.grain_type + seq!['/'] + req.grain_key) matches Some(owner)
            ==> owner.silo_id == local_silo_id,
    ensures
        next_action(
            local_silo_id,
            ring,
            registry.with(
                req.grain_type,
                req.message_type,
                rust_type,
                known,
                pinned_to,
                handler,
            ),
            req,
            TcpEvent::Received,
        ) == TcpActionView::Dispatch(handler),
        !registry.handlers.dom().contains(req.grain_type) ==> (next_action(
            local_silo_id,
            ring,
            registry,
            req,
            TcpEvent::Received,
        ) matches TcpActionView::Answer(r) && r.request_id == req.request_id && !r.success
            && r.payload.len() == 0 && r.error == Some("unknown grain type: "@ + req.grain_type)),
{
}

/// An answer carries the number of its call, and what the handler or the other silo said: the
/// payload of a success, or the error of a failure.
pub proof fn answers_match_their_calls(
    local_silo_id: Seq<char>,
    ring: HashRingView,
    registry: MessageRegistryView,
    req: TcpInvokeRequestView,
    event: TcpEvent,
)
    ensures
        ({
            let next = next_action(local_silo_id, ring, registry, req, event);
            &&& next matches TcpActionView::Answer(r) ==> r.request_id == req.request_id && (
            r.success <==> r.error is None)
            &&& !(event is Received) ==> next is Answer
            &&& event matches TcpEvent::Dispatched(Ok(answer)) ==> (next matches
                TcpActionView::Answer(r) && r.success && r.payload == answer.0@)
            &&& event matches TcpEvent::Dispatched(Err(e)) ==> (next matches
                TcpActionView::Answer(r) && r.error == Some(e@.message()) && r.payload.len() == 0)
            &&& event matches TcpEvent::Forwarded(Ok(response)) ==> (next matches
                TcpActionView::Answer(r) && r.payload == response.payload@ && (
            if response.error@.len() == 0 {
                r.success
            } else {
                r.error == Some(response.error@)
            }))
            &&& event matches TcpEvent::Forwarded(Err(reason)) ==> (next matches
                TcpActionView::Answer(r) && r.error == Some(reason@) && r.payload.len() == 0)
        }),
{
}

/// A frame holds the number of a call, its grain type and key, its message type, its payload and
/// its context, in this order; and an answer's number, whether it is a success, its payload and
/// its error.
pub proof fn frames_hold_the_fields_in_order(
    call: TcpInvokeRequestView,
    answer: TcpInvokeResponseView,
    f: RequestFieldsView,
    g: ResponseFieldsView,
)
    ensures
        fields_of(call).0 == call.request_id,
        fields_of(call).1 == call.grain_type,
        fields_of(call).2 == call.grain_key,
        fields_of(call).3 == call.message_type,
        fields_of(call).4 == call.payload,
        answer_fields_of(answer).0 == answer.request_id,
        answer_fields_of(answer).1 == answer.success,
        answer_fields_of(answer).2 == answer.payload,
        answer_fields_of(answer).3 == answer.error,
        request_of(f).request_id == f.0,
        request_of(f).grain_type == f.1,
        request_of(f).grain_key == f.2,
        request_of(f).message_type == f.3,
        request_of(f).payload == f.4,
        response_of(g).request_id == g.0,
        response_of(g).success == g.1,
        response_of(g).payload == g.2,
        response_of(g).error == g.3,
{
}

/// Of the pairs of a context each key has the value that it was last given with.
pub proof fn contexts_keep_the_last_of_a_key(
    f: RequestFieldsView,
    last: int,
)
    requires
        0 <= last < f.5.len(),
        forall|j: int| last < j < f.5.len() ==> (#[trigger] f.5[j]).0 != f.5[last].0,
    ensures
        request_of(f).context.dom().contains(f.5[last].0),
        request_of(f).context[f.5[last].0] == f.5[last].1,
{
    lemma_last_pair(f.5, last);
}

proof fn lemma_last_pair(pairs: Seq<(Seq<char>, Seq<char>)>, last: int)
    requires
        0 <= last < pairs.len(),
        forall|j: int| last < j < pairs.len() ==> (#[trigger] pairs[j]).0 != pairs[last].0,
    ensures
        map_of_pairs(pairs).dom().contains(pairs[last].0),
        map_of_pairs(pairs)[pairs[last].0] == pairs[last].1,
    decreases pairs.len(),
{
    let rest = pairs.drop_last();
    if last < rest.len() {
        assert forall|j: int| last < j < rest.len() implies (#[trigger] rest[j]).0
            != rest[last].0 by {
            assert(pairs[j].0 != pairs[last].0);
        }
        lemma_last_pair(rest, last);
        assert(pairs[pairs.len() - 1].0 != pairs[last].0);
    }
}

/// A call is done once it was sent, and fails where no connection can be made or where sending
/// fails a second time; where sending fails a first time it is sent again over a new connection.
pub proof fn calls_are_sent_again_once(phase: CallPhase)
    ensures
        call_step(phase, true) == (if phase is Connect {
            CallStep::Next(CallPhase::Send)
        } else if phase is Reconnect {
            CallStep::Next(CallPhase::Resend)
        } else {
            CallStep::Done
        }),
        call_step(phase, false) == (if phase is Send {
            CallStep::Next(CallPhase::Reconnect)
        } else {
            CallStep::Fail
        }),
{
}

/// An endpoint that has no client is given one of a number that was not used before; every other
/// keeps what it has, also where an endpoint is removed.
pub proof fn clients_of_others_stay(
    pool: TcpConnectionPoolView,
    endpoint: Seq<char>,
    other: Seq<char>,
)
    requires
        pool.next_client < u64::MAX,
    ensures
        pool.serving(endpoint).clients.dom().contains(endpoint),
        pool.clients.dom().contains(endpoint) ==> pool.serving(endpoint) == pool,
        !pool.clients.dom().contains(endpoint) ==> pool.serving(endpoint).clients[endpoint]
            == pool.next_client && pool.serving(endpoint).next_client == pool.next_client + 1,
        !pool.without(endpoint).clients.dom().contains(endpoint),
        pool.without(endpoint).next_client == pool.next_client,
        other != endpoint ==> {
            &&& pool.serving(endpoint).clients.dom().contains(other)
                == pool.clients.dom().contains(other)
            &&& pool.serving(endpoint).clients[other] == pool.clients[other]
            &&& pool.without(endpoint).clients.dom().contains(other)
                == pool.clients.dom().contains(other)
            &&& pool.without(endpoint).clients[other] == pool.clients[other]
        },
{
}

impl TcpTransportClientView {
    /// A call that a client starts, how it goes on, and the client afterwards.
    pub open spec fn calling(
        self,
        grain_type: Seq<char>,
        grain_key: Seq<char>,
        message_type: Seq<char>,
        payload: Seq<u8>,
        context: Map<Seq<char>, Seq<char>>,
    ) -> (TcpInvokeRequestView, CallPhase, TcpTransportClientView) {
        (
            TcpInvokeRequestView {
                request_id: self.next_request_id,
                grain_type,
                grain_key,
                message_type,
                payload,
                context,
            },
            if self.connected {
                CallPhase::Send
            } else {
                CallPhase::Connect
            },
            TcpTransportClientView {
                next_request_id: self.next_request_id.wrapping_add(1),
                ..self
            },
        )
    }

    /// The client after a step of a call.
    pub open spec fn advanced(self, phase: CallPhase, ok: bool) -> TcpTransportClientView {
        TcpTransportClientView { connected: self.connected || (phase is Connect && ok), ..self }
    }
}

/// A call names its grain and carries its message as it is, under a number that the next call
/// does not have. It is sent at once over a connection that is there, and else once the client
/// has connected.
pub proof fn calls_are_numbered_and_name_their_grain(
    client: TcpTransportClientView,
    grain_type: Seq<char>,
    grain_key: Seq<char>,
    message_type: Seq<char>,
    payload: Seq<u8>,
    context: Map<Seq<char>, Seq<char>>,
    phase: CallPhase,
    ok: bool,
)
    ensures
        ({
            let (call, first, after) = client.calling(
                grain_type,
                grain_key,
                message_type,
                payload,
                context,
            );
            &&& call.grain_type == grain_type
            &&& call.grain_key == grain_key
            &&& call.message_type == message_type
            &&& call.payload == payload
            &&& call.context == context
            &&& call.request_id == client.next_request_id
            &&& client.next_request_id < u64::MAX ==> after.next_request_id == call.request_id + 1
            &&& client.next_request_id == u64::MAX ==> after.next_request_id == 0
            &&& client.connected ==> first is Send
            &&& !client.connected ==> first is Connect
            &&& after.connected == client.connected && after.endpoint == client.endpoint
        }),
        ({
            let after = client.advanced(phase, ok);
            &&& client.connected ==> after.connected
            &&& !client.connected ==> (after.connected <==> phase is Connect && ok)
            &&& after.next_request_id == client.next_request_id
            &&& after.endpoint == client.endpoint
        }),
{
}

/// A context holds the keys of its pairs and no others.
pub proof fn contexts_hold_the_keys_of_their_pairs(f: RequestFieldsView, key: Seq<char>)
    ensures
        request_of(f).context.dom().contains(key) <==> (exists|i: int|
            0 <= i < f.5.len() && (#[trigger] f.5[i]).0 == key),
{
    lemma_keys_of_pairs(f.5, key);
}

proof fn lemma_keys_of_pairs(pairs: Seq<(Seq<char>, Seq<char>)>, key: Seq<char>)
    ensures
        map_of_pairs(pairs).dom().contains(key) <==> (exists|i: int|
            0 <= i < pairs.len() && (#[trigger] pairs[i]).0 == key),
    decreases pairs.len(),
{
    if pairs.len() > 0 {
        let rest = pairs.drop_last();
        lemma_keys_of_pairs(rest, key);
        if exists|i: int| 0 <= i < rest.len() && (#[trigger] rest[i]).0 == key {
            let i = choose|i: int| 0 <= i < rest.len() && (#[trigger] rest[i]).0 == key;
            assert(pairs[i].0 == key);
        }
        if exists|i: int| 0 <= i < pairs.len() && (#[trigger] pairs[i]).0 == key {
            let i = choose|i: int| 0 <= i < pairs.len() && (#[trigger] pairs[i]).0 == key;
            if i < rest.len() {
                assert(rest[i].0 == key);
            }
        }
        assert(pairs[pairs.len() - 1] == pairs.last());
    }
}

} // verus!
