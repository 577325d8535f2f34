//! References to grains that may live on another silo.

use vstd::prelude::*;

use crate::error::ClusterErrorView;
use crate::grain::GrainError;
use crate::maps::StrMap;
use crate::proto::{InvokeRequest, InvokeRequestView, InvokeResponse};
use crate::retry;
use crate::retry::RetryPolicy;
use crate::store_wrapper;
use crate::store_wrapper::{ReplicaEntry, ReplicaEntryView, ReplicaStore, Replicas};
use crate::text;
use crate::text::{chars_of, has_prefix, same_text};
use crate::time;
use crate::time::{systemtime_to_millis, Duration, SystemTime};

verus! {

/// Where a referenced grain lives.
#[derive(Clone, Debug, PartialEq, Eq)]
pub enum RefTarget {
    /// On this silo.
    Local,
    /// On the silo at an endpoint.
    Remote { endpoint: String, grain_type: &'static str, grain_key: String },
}

/// The contents of a [`RefTarget`].
pub enum RefTargetView {
    Local,
    Remote { endpoint: Seq<char>, grain_type: Seq<char>, grain_key: Seq<char> },
}

impl View for RefTarget {
    type V = RefTargetView;

    open spec fn view(&self) -> RefTargetView {
        match self {
            RefTarget::Local => RefTargetView::Local,
            RefTarget::Remote { endpoint, grain_type, grain_key } => RefTargetView::Remote {
                endpoint: endpoint@,
                grain_type: grain_type@,
                grain_key: grain_key@,
            },
        }
    }
}

/// A reference to a grain.
#[derive(Clone, Debug, PartialEq, Eq)]
pub struct ClusterGrainRef {
    target: RefTarget,
    retry_policy: RetryPolicy,
    reads_replicas: bool,
    max_staleness: Duration,
}

/// The contents of a [`ClusterGrainRef`].
pub struct ClusterGrainRefView {
    pub target: RefTargetView,
    pub retry_policy: RetryPolicy,
    /// Whether copies of the grain may answer messages that only read.
    pub reads_replicas: bool,
    /// How old such a copy may be.
    pub max_staleness: nat,
}

impl View for ClusterGrainRef {
    type V = ClusterGrainRefView;

    closed spec fn view(&self) -> ClusterGrainRefView {
        ClusterGrainRefView {
            target: self.target@,
            retry_policy: self.retry_policy,
            reads_replicas: self.reads_replicas,
            max_staleness: self.max_staleness@,
        }
    }
}

/// The first thing to do with a message.
#[derive(Clone, Debug, PartialEq, Eq)]
pub enum AskStart {
    /// Put it into the grain's mailbox here.
    CallLocal,
    /// Send it to the silo at an endpoint.
    CallRemote(String),
}

/// The delay before a failed call is tried again, or none where it is not. Tries are counted
/// from zero.
pub open spec fn retry_delay(policy: RetryPolicy, attempt: u32, error: GrainError) -> Option<nat> {
    if attempt < policy.max_retries && retry::transient(error) {
        Some(
            retry::backoff(policy.base_delay@, policy.max_delay@, attempt as nat),
        )
    } else {
        None
    }
}

/// The request that carries a message to a grain on another silo.
pub open spec fn request_to(
    target: RefTargetView,
    message_type: Seq<char>,
    message_version: u32,
    payload: Seq<u8>,
    request_context: Map<Seq<char>, Seq<char>>,
) -> Option<InvokeRequestView> {
    match target {
        RefTargetView::Local => None,
        RefTargetView::Remote { endpoint, grain_type, grain_key } => Some(
            InvokeRequestView {
                grain_type,
                grain_key,
                message_type,
                payload,
                encoding: 0,
                request_context,
                message_version,
            },
        ),
    }
}

/// A span of time in whole milliseconds, kept in 64 bits with a sign.
pub open spec fn whole_millis(nanos: nat) -> i64 {
    ((nanos / 1_000_000) as u128) as i64
}

/// The copy that answers a message that only reads, at a time.
pub open spec fn replica_for(
    reference: ClusterGrainRefView,
    store: Replicas,
    now_millis: i64,
) -> Option<ReplicaEntryView> {
    match reference.target {
        RefTargetView::Local => None,
        RefTargetView::Remote { endpoint, grain_type, grain_key } => {
            let bound = whole_millis(reference.max_staleness);
            if reference.reads_replicas && bound > 0 && store_wrapper::fresh_at(
                store,
                grain_type,
                grain_key,
                bound,
                now_millis,
            ) {
                Some(store[(grain_type, grain_key)])
            } else {
                None
            }
        },
    }
}

impl ClusterGrainRef {
    /// A reference to a grain on this silo.
    pub fn local() -> (reference: ClusterGrainRef)
        ensures
            reference@.target is Local,
            !reference@.reads_replicas,
            reference@.max_staleness == 0,
            reference@.retry_policy.max_retries == 2,
            reference@.retry_policy.base_delay@ == 100 * time::NANOS_PER_MILLI,
            reference@.retry_policy.max_delay@ == 2 * time::NANOS_PER_SEC,
    {
        ClusterGrainRef {
            target: RefTarget::Local,
            retry_policy: RetryPolicy::default(),
            reads_replicas: false,
            max_staleness: Duration::zero(),
        }
    }

    /// A reference to a grain on the silo at an endpoint.
    pub fn remote(endpoint: String, grain_type: &'static str, grain_key: String) -> (reference:
        ClusterGrainRef)
        ensures
            reference@.target == (RefTargetView::Remote {
                endpoint: endpoint@,
                grain_type: grain_type@,
                grain_key: grain_key@,
            }),
            !reference@.reads_replicas,
            reference@.max_staleness == 0,
            reference@.retry_policy.max_retries == 2,
            reference@.retry_policy.base_delay@ == 100 * time::NANOS_PER_MILLI,
            reference@.retry_policy.max_delay@ == 2 * time::NANOS_PER_SEC,
    {
        ClusterGrainRef {
            target: RefTarget::Remote { endpoint, grain_type, grain_key },
            retry_policy: RetryPolicy::default(),
            reads_replicas: false,
            max_staleness: Duration::zero(),
        }
    }

    /// Sets how remote calls are retried.
    pub fn with_retry_policy(self, policy: RetryPolicy) -> (reference: ClusterGrainRef)
        ensures
            reference@ == (ClusterGrainRefView { retry_policy: policy, ..self@ }),
    {
        ClusterGrainRef {
            target: self.target,
            retry_policy: policy,
            reads_replicas: self.reads_replicas,
            max_staleness: self.max_staleness,
        }
    }

    /// Lets copies of the grain that are at most so old answer messages that only read.
    pub fn with_replica_store(self, max_staleness: Duration) -> (reference: ClusterGrainRef)
        ensures
            reference@ == (ClusterGrainRefView {
                reads_replicas: true,
                max_staleness: max_staleness@,
                ..self@
            }),
    {
        ClusterGrainRef {
            target: self.target,
            retry_policy: self.retry_policy,
            reads_replicas: true,
            max_staleness,
        }
    }

    /// The first thing to do with a message.
    pub fn ask(&self) -> (start: AskStart)
        ensures
            match self@.target {
                RefTargetView::Local => start is CallLocal,
                RefTargetView::Remote { endpoint, .. } => start matches AskStart::CallRemote(e)
                    && e@ == endpoint,
            },
    {
        match &self.target {
            RefTarget::Local => AskStart::CallLocal,
            RefTarget::Remote { endpoint, .. } => AskStart::CallRemote(endpoint.clone()),
        }
    }

    /// Whether a remote call that failed is tried again, and after which delay. Tries are
    /// counted from zero; where there is no delay the error is the result.
    pub fn after_failure(&self, attempt: u32, error: &GrainError) -> (delay: Option<Duration>)
        ensures
            match delay {
                Some(d) => retry_delay(self@.retry_policy, attempt, *error) == Some(d@),
                None => retry_delay(self@.retry_policy, attempt, *error) is None,
            },
    {
        if attempt < self.retry_policy.max_retries && RetryPolicy::is_retryable(error) {
            Some(self.retry_policy.delay_for_attempt(attempt))
        } else {
            None
        }
    }

    /// The request that carries a message to the grain's silo; none where the grain is here.
    /// Between silos messages are sent in the default encoding.
    pub fn remote_request(
        &self,
        message_type: &str,
        message_version: u32,
        payload: Vec<u8>,
        request_context: StrMap<String>,
    ) -> (request: Option<InvokeRequest>)
        ensures
            match (self@.target, request) {
                (RefTargetView::Local, None) => true,
                (RefTargetView::Remote { endpoint, grain_type, grain_key }, Some(r)) => r@ == (
                InvokeRequestView {
                    grain_type,
                    grain_key,
                    message_type: message_type@,
                    payload: payload@,
                    encoding: 0,
                    request_context: request_context@,
                    message_version,
                }),
                _ => false,
            },
            match request {
                Some(r) => request_to(
                    self@.target,
                    message_type@,
                    message_version,
                    payload@,
                    request_context@,
                ) == Some(r@),
                None => request_to(
                    self@.target,
                    message_type@,
                    message_version,
                    payload@,
                    request_context@,
                ) is None,
            },
    {
        match &self.target {
            RefTarget::Local => None,
            RefTarget::Remote { grain_type, grain_key, .. } => Some(
                InvokeRequest {
                    grain_type: (*grain_type).to_string(),
                    grain_key: grain_key.clone(),
                    message_type: message_type.to_string(),
                    payload,
                    encoding: 0,
                    request_context,
                    message_version,
                },
            ),
        }
    }

    /// The copy that answers a message that only reads, at a time.
    pub fn replica_at(&self, store: &ReplicaStore, now_millis: i64) -> (entry: Option<ReplicaEntry>)
        ensures
            match entry {
                Some(e) => replica_for(self@, store@, now_millis) == Some(e@),
                None => replica_for(self@, store@, now_millis) is None,
            },
    {
        match &self.target {
            RefTarget::Local => None,
            RefTarget::Remote { grain_type, grain_key, .. } => {
                if !self.reads_replicas {
                    return None;
                }
                let millis: u128 = self.max_staleness.as_millis();
                let bound: i64 = #[verifier::truncate] (millis as i64);
                if bound > 0 && store.is_fresh_at(
                    grain_type,
                    grain_key.as_str(),
                    bound,
                    now_millis,
                ) {
                    store.get(grain_type, grain_key.as_str())
                } else {
                    None
                }
            },
        }
    }

    /// The copy that answers a message that only reads, now. Where there is none, the
    /// message is sent to the grain.
    pub fn read_only_ask(&self, store: &ReplicaStore) -> (entry: Option<ReplicaEntry>)
        ensures
            exists|now: SystemTime|
                match entry {
                    Some(e) => replica_for(self@, store@, #[trigger] time::unix_millis(now)) == Some(
                        e@,
                    ),
                    None => replica_for(self@, store@, time::unix_millis(now)) is None,
                },
    {
        let now = SystemTime::now();
        let now_millis: i64 = systemtime_to_millis(now);
        let entry = self.replica_at(store, now_millis);
        assert(now_millis == time::unix_millis(now));
        entry
    }
}

/// The text that a silo answers a call with where the grain failed.
pub open spec fn reported(error: GrainError) -> Seq<char> {
    ClusterErrorView::HandlerError(error.message()).message()
}

/// Whether the error of an answer tells that the grain could not be reached on its silo: its
/// mailbox was closed, it did not answer in time, or a call to it failed on the way.
pub open spec fn tells_unreached(error: Seq<char>) -> bool {
    ||| error == "handler error: grain mailbox closed"@
    ||| text::begins_with(error, "handler error: grain call timed out after "@)
    ||| text::begins_with(error, "handler error: remote call failed: "@)
}

/// The payload of an answer, or the error that it carries: a failed call where the grain could
/// not be reached on its silo, else an error of the application.
pub open spec fn answered(response: InvokeResponse) -> Result<Vec<u8>, GrainError> {
    if response@.error.len() == 0 {
        Ok(response.payload)
    } else if tells_unreached(response@.error) {
        Err(GrainError::RemoteCallFailed(response.error))
    } else {
        Err(GrainError::HandlerFailed(response.error))
    }
}

/// The payload of an answer, or the error that it carries.
pub fn remote_answer(response: InvokeResponse) -> (payload: Result<Vec<u8>, GrainError>)
    ensures
        payload == answered(response),
{
    if chars_of(response.error.as_str()).len() == 0 {
        return Ok(response.payload);
    }
    let error = response.error.as_str();
    if same_text(error, "handler error: grain mailbox closed") || has_prefix(
        error,
        "handler error: grain call timed out after ",
    ) || has_prefix(error, "handler error: remote call failed: ") {
        Err(GrainError::RemoteCallFailed(response.error))
    } else {
        Err(GrainError::HandlerFailed(response.error))
    }
}

/// A call is tried at most once more than there are retries, after delays of at most the
/// longest, and an error that is not transient ends it at once.
pub proof fn retries_are_bounded(policy: RetryPolicy, attempt: u32, error: GrainError)
    ensures
        attempt >= policy.max_retries ==> retry_delay(policy, attempt, error) is None,
        !retry::transient(error) ==> retry_delay(policy, attempt, error) is None,
        retry_delay(policy, attempt, error) matches Some(delay) ==> delay <= policy.max_delay@,
{
    retry::delays_grow_up_to_the_longest(
        policy.base_delay@,
        policy.max_delay@,
        attempt as nat,
    );
}

/// An error of the application is never retried: a call whose answer carries an error, and does
/// not tell that the grain was not reached, ends with it, under every policy and at every
/// attempt.
pub proof fn application_errors_are_not_retried(
    policy: RetryPolicy,
    attempt: u32,
    response: InvokeResponse,
)
    requires
        response@.error.len() > 0,
        !tells_unreached(response@.error),
    ensures
        answered(response) matches Err(error) && retry_delay(policy, attempt, error) is None,
{
}

proof fn lemma_reports(error: GrainError)
    ensures
        tells_unreached(reported(error)) == retry::transient(error),
        reported(error).len() > 0,
{
    reveal_strlit("handler error: ");
    reveal_strlit("handler error: grain mailbox closed");
    reveal_strlit("handler error: grain call timed out after ");
    reveal_strlit("handler error: remote call failed: ");
    reveal_strlit("grain mailbox closed");
    reveal_strlit("grain call timed out after ");
    reveal_strlit("remote call failed: ");
    reveal_strlit("handler failed: ");
    reveal_strlit("message type mismatch");
    let text = reported(error);
    let timeout = "handler error: grain call timed out after "@;
    let remote = "handler error: remote call failed: "@;
    match error {
        GrainError::MailboxClosed => {
            assert(text =~= "handler error: grain mailbox closed"@);
        },
        GrainError::Timeout(after) => {
            assert(text.take(timeout.len() as int) =~= timeout);
        },
        GrainError::RemoteCallFailed(reason) => {
            assert(text.take(remote.len() as int) =~= remote);
        },
        GrainError::HandlerFailed(reason) => {
            assert(text[15] == 'h');
        },
        GrainError::TypeMismatch => {
            assert(text[15] == 'm');
        },
    }
    if !retry::transient(error) {
        assert("handler error: grain mailbox closed"@[15] == 'g');
        assert(timeout[15] == 'g');
        assert(remote[15] == 'r');
        if text::begins_with(text, timeout) {
            assert(text.take(timeout.len() as int)[15] == text[15]);
        }
        if text::begins_with(text, remote) {
            assert(text.take(remote.len() as int)[15] == text[15]);
        }
    }
}

/// Whether a call is tried again does not depend on where its grain lives: a failure that a
/// silo reports is retried exactly where it would be had it come up here.
pub proof fn reported_failures_are_retried_alike(
    policy: RetryPolicy,
    attempt: u32,
    error: GrainError,
    response: InvokeResponse,
)
    requires
        response@.error == reported(error),
    ensures
        answered(response) matches Err(heard) && retry_delay(policy, attempt, heard)
            == retry_delay(policy, attempt, error),
{
    lemma_reports(error);
}

/// A grain that lives on this silo is never read from a copy.
pub proof fn local_grains_are_not_read_from_copies(
    reference: ClusterGrainRefView,
    store: Replicas,
    now_millis: i64,
)
    ensures
        reference.target is Local || !reference.reads_replicas ==> replica_for(
            reference,
            store,
            now_millis,
        ) is None,
{
}

/// A request to a grain on another silo names that grain, and carries the message as it is; a
/// grain on this silo is sent none.
pub proof fn requests_name_the_referenced_grain(
    endpoint: Seq<char>,
    grain_type: Seq<char>,
    grain_key: Seq<char>,
    message_type: Seq<char>,
    message_version: u32,
    payload: Seq<u8>,
    context: Map<Seq<char>, Seq<char>>,
)
    ensures
        request_to(
            RefTargetView::Remote { endpoint, grain_type, grain_key },
            message_type,
            message_version,
            payload,
            context,
        ) matches Some(r) && r.grain_type == grain_type && r.grain_key == grain_key
            && r.message_type == message_type && r.message_version == message_version && r.payload
            == payload && r.request_context == context && r.encoding == 0,
        request_to(RefTargetView::Local, message_type, message_version, payload, context) is None,
{
}

/// A failed call is tried again after the base delay, doubled with each try, up to the longest,
/// where the failure was of the network or the mailbox and retries are left.
pub proof fn transient_failures_back_off(
    policy: RetryPolicy,
    attempt: u32,
    reason: String,
    after: Duration,
)
    requires
        attempt < policy.max_retries,
    ensures
        ({
            let lost = retry_delay(policy, attempt, GrainError::RemoteCallFailed(reason));
            let doubled = policy.base_delay@ * vstd::arithmetic::power2::pow2(attempt as nat);
            &&& lost == Some(
                if doubled < policy.max_delay@ {
                    doubled as nat
                } else {
                    policy.max_delay@
                },
            )
            &&& retry_delay(policy, attempt, GrainError::MailboxClosed) == lost
            &&& retry_delay(policy, attempt, GrainError::Timeout(after)) == lost
        }),
        retry_delay(policy, attempt, GrainError::HandlerFailed(reason)) is None,
        retry_delay(policy, attempt, GrainError::TypeMismatch) is None,
{
}

/// A copy answers a read exactly where the reference allows it, and the copy is of the grain
/// that is asked and no older than allowed.
pub proof fn copies_that_answer_are_fresh(
    reference: ClusterGrainRefView,
    endpoint: Seq<char>,
    grain_type: Seq<char>,
    grain_key: Seq<char>,
    store: Replicas,
    now_millis: i64,
)
    requires
        reference.target == (RefTargetView::Remote { endpoint, grain_type, grain_key }),
        reference.max_staleness <= i64::MAX,
    ensures
        ({
            let bound = reference.max_staleness as int / 1_000_000;
            let copy = store[(grain_type, grain_key)];
            let usable = reference.reads_replicas && bound > 0 && store.dom().contains(
                (grain_type, grain_key),
            ) && now_millis - copy.timestamp_millis <= bound;
            replica_for(reference, store, now_millis) == (if usable {
                Some(copy)
            } else {
                None
            })
        }),
{
    let millis = reference.max_staleness / 1_000_000;
    assert(millis <= i64::MAX) by (nonlinear_arith)
        requires
            millis == reference.max_staleness / 1_000_000,
            reference.max_staleness <= i64::MAX,
    ;
    assert(whole_millis(reference.max_staleness) == millis);
}

/// An answer without an error gives its payload; the error of any other is passed on as it is:
/// as a failed call where it tells that the grain was not reached, else as an error of the
/// application.
pub proof fn answers_give_payload_or_error(response: InvokeResponse, rest: Seq<char>)
    ensures
        response@.error.len() == 0 ==> answered(response) == Ok::<Vec<u8>, GrainError>(
            response.payload,
        ),
        response@.error.len() > 0 ==> (answered(response) matches Err(error) && (error
            == GrainError::RemoteCallFailed(response.error) || error == GrainError::HandlerFailed(
            response.error,
        ))),
        response@.error == "handler error: remote call failed: "@ + rest && response@.error.len()
            > 0 ==> answered(response) == Err::<Vec<u8>, GrainError>(
            GrainError::RemoteCallFailed(response.error),
        ),
        response@.error == "handler error: grain call timed out after "@ + rest
            && response@.error.len() > 0 ==> answered(response) == Err::<Vec<u8>, GrainError>(
            GrainError::RemoteCallFailed(response.error),
        ),
        response@.error == "handler error: grain mailbox closed"@ && response@.error.len() > 0
            ==> answered(response) == Err::<Vec<u8>, GrainError>(
            GrainError::RemoteCallFailed(response.error),
        ),
{
    text::texts_begin_with_their_prefixes(
        response@.error,
        "handler error: remote call failed: "@,
        rest,
    );
    text::texts_begin_with_their_prefixes(
        response@.error,
        "handler error: grain call timed out after "@,
        rest,
    );
}

} // verus!
