//! Keeping a copy of a grain up to date from the log of its states.

use vstd::prelude::*;

use crate::grain::ClusterId;
use crate::proto::copy_bytes;
use crate::store_wrapper::{ReplicaEntryView, ReplicaStore, Replicas};
use crate::time::Duration;

verus! {

/// What an entry of the log holds.
#[derive(Clone, Copy, Debug, PartialEq, Eq, Structural)]
pub enum ReplicationEntryType {
    /// The whole state.
    FullState,
    /// A change to the state before.
    Delta,
}

/// An entry of the log.
#[derive(Clone, Debug, PartialEq, Eq)]
pub struct ReplicationEntry {
    pub grain_type: String,
    pub grain_key: String,
    pub sequence: u64,
    pub timestamp_millis: i64,
    pub source_cluster: ClusterId,
    pub entry_type: ReplicationEntryType,
    pub payload: Vec<u8>,
}

/// The most entries that are read at once.
pub const BATCH_SIZE: usize = 100;

/// Which entries to read from the log: those of a grain after a sequence number, at most so
/// many.
#[derive(Clone, Debug, PartialEq, Eq)]
pub struct ReadRequest {
    pub grain_type: String,
    pub grain_key: String,
    pub after: u64,
    pub limit: usize,
}

/// What came of a batch of entries.
#[derive(Clone, Copy, Debug, PartialEq, Eq, Structural)]
pub enum BatchOutcome {
    /// There was nothing new.
    Nothing,
    /// The log could not be read.
    Failed,
    /// The batch was passed over, as it holds a change that cannot be applied.
    Skipped,
    /// The latest state was kept.
    Applied,
}

/// Follows the log of one grain.
#[derive(Clone, Debug, PartialEq, Eq)]
pub struct ReplicationConsumer {
    grain_type: String,
    grain_key: String,
    local_cluster: ClusterId,
    poll_interval: Duration,
    last_sequence: u64,
}

/// The contents of a [`ReplicationConsumer`].
#[verifier::ext_equal]
pub struct ReplicationConsumerView {
    pub grain_type: Seq<char>,
    pub grain_key: Seq<char>,
    pub local_cluster: Seq<char>,
    pub poll_interval: nat,
    pub last_sequence: u64,
}

impl View for ReplicationConsumer {
    type V = ReplicationConsumerView;

    closed spec fn view(&self) -> ReplicationConsumerView {
        ReplicationConsumerView {
            grain_type: self.grain_type@,
            grain_key: self.grain_key@,
            local_cluster: self.local_cluster@,
            poll_interval: self.poll_interval@,
            last_sequence: self.last_sequence,
        }
    }
}

/// Whether a batch holds a change rather than whole states only.
pub open spec fn has_delta(entries: Seq<ReplicationEntry>) -> bool {
    exists|i: int| 0 <= i < entries.len() && (#[trigger] entries[i]).entry_type is Delta
}

/// What comes of a batch.
pub open spec fn outcome(batch: Result<Vec<ReplicationEntry>, String>) -> BatchOutcome {
    match batch {
        Err(_) => BatchOutcome::Failed,
        Ok(entries) => if entries@.len() == 0 {
            BatchOutcome::Nothing
        } else if has_delta(entries@) {
            BatchOutcome::Skipped
        } else {
            BatchOutcome::Applied
        },
    }
}

/// The copies after a batch: of whole states the last one is kept.
pub open spec fn store_after(
    store: Replicas,
    consumer: ReplicationConsumerView,
    batch: Result<Vec<ReplicationEntry>, String>,
) -> Replicas {
    match (outcome(batch), batch) {
        (BatchOutcome::Applied, Ok(entries)) => store.insert(
            (consumer.grain_type, consumer.grain_key),
            ReplicaEntryView {
                payload: entries@.last().payload@,
                sequence: entries@.last().sequence,
                timestamp_millis: entries@.last().timestamp_millis,
            },
        ),
        _ => store,
    }
}

/// The last sequence number seen after a batch, applied or passed over.
pub open spec fn sequence_after(
    last_sequence: u64,
    batch: Result<Vec<ReplicationEntry>, String>,
) -> u64 {
    match batch {
        Ok(entries) => if entries@.len() == 0 {
            last_sequence
        } else {
            entries@.last().sequence
        },
        Err(_) => last_sequence,
    }
}

fn holds_delta(entries: &Vec<ReplicationEntry>) -> (yes: bool)
    ensures
        yes == has_delta(entries@),
{
    let mut i: usize = 0;
    while i < entries.len()
        invariant
            i <= entries.len(),
            forall|j: int| 0 <= j < i ==> !((#[trigger] entries@[j]).entry_type is Delta),
        decreases entries.len() - i,
    {
        if entries[i].entry_type == ReplicationEntryType::Delta {
            assert(entries@[i as int].entry_type is Delta);
            return true;
        }
        i += 1;
    }
    false
}

impl ReplicationConsumer {
    /// Follows a grain's log from its start.
    pub fn new(
        grain_type: String,
        grain_key: String,
        local_cluster: ClusterId,
        poll_interval: Duration,
    ) -> (consumer: ReplicationConsumer)
        ensures
            consumer@ == (ReplicationConsumerView {
                grain_type: grain_type@,
                grain_key: grain_key@,
                local_cluster: local_cluster@,
                poll_interval: poll_interval@,
                last_sequence: 0,
            }),
    {
        ReplicationConsumer { grain_type, grain_key, local_cluster, poll_interval, last_sequence: 0 }
    }

    pub fn poll_interval(&self) -> (interval: Duration)
        ensures
            interval@ == self@.poll_interval,
    {
        self.poll_interval
    }

    /// The entries to read next.
    pub fn next_read(&self) -> (request: ReadRequest)
        ensures
            request.grain_type@ == self@.grain_type,
            request.grain_key@ == self@.grain_key,
            request.after == self@.last_sequence,
            request.limit == BATCH_SIZE,
    {
        ReadRequest {
            grain_type: self.grain_type.clone(),
            grain_key: self.grain_key.clone(),
            after: self.last_sequence,
            limit: BATCH_SIZE,
        }
    }

    /// Takes in what was read: of whole states the last one is kept, as each replaces those
    /// before. A batch with a change in it is passed over, as applying only the last change
    /// would corrupt the copy.
    pub fn on_batch(
        &mut self,
        batch: Result<Vec<ReplicationEntry>, String>,
        store: &mut ReplicaStore,
    ) -> (result: BatchOutcome)
        ensures
            result == outcome(batch),
            final(store)@ == store_after(old(store)@, old(self)@, batch),
            final(self)@ == (ReplicationConsumerView {
                last_sequence: sequence_after(old(self)@.last_sequence, batch),
                ..old(self)@
            }),
    {
        let entries = match batch {
            Ok(entries) => entries,
            Err(_) => {
                return BatchOutcome::Failed;
            },
        };
        if entries.len() == 0 {
            return BatchOutcome::Nothing;
        }
        let last: usize = entries.len() - 1;
        self.last_sequence = entries[last].sequence;
        if holds_delta(&entries) {
            return BatchOutcome::Skipped;
        }
        store.update(
            self.grain_type.as_str(),
            self.grain_key.as_str(),
            copy_bytes(&entries[last].payload),
            entries[last].sequence,
            entries[last].timestamp_millis,
        );
        BatchOutcome::Applied
    }
}

/// Nothing but whole states is ever kept, and the kept state is the last one of its batch,
/// with the sequence number that the log is followed from afterwards.
pub proof fn only_full_states_are_kept(
    store: Replicas,
    consumer: ReplicationConsumerView,
    batch: Result<Vec<ReplicationEntry>, String>,
)
    ensures
        store_after(store, consumer, batch) != store ==> {
            &&& outcome(batch) is Applied
            &&& batch matches Ok(entries) && !has_delta(entries@)
            &&& store_after(store, consumer, batch)[(
                consumer.grain_type,
                consumer.grain_key,
            )].sequence == sequence_after(consumer.last_sequence, batch)
        },
        forall|k: (Seq<char>, Seq<char>)|
            k != (consumer.grain_type, consumer.grain_key) ==> (
            #[trigger] store_after(store, consumer, batch).dom().contains(k)
                == store.dom().contains(k) && store_after(store, consumer, batch)[k] == store[k]),
{
}

/// A batch of whole states leaves a copy of the last one, and is followed on from there. One
/// with a change in it is passed over, and one that is empty or could not be read leaves
/// everything as it is.
pub proof fn the_last_state_of_a_batch_is_kept(
    store: Replicas,
    consumer: ReplicationConsumerView,
    entries: Vec<ReplicationEntry>,
    reason: String,
)
    ensures
        entries@.len() > 0 && !has_delta(entries@) ==> {
            let batch = Ok::<Vec<ReplicationEntry>, String>(entries);
            let last = entries@[entries@.len() - 1];
            let after = store_after(store, consumer, batch);
            let copy = after[(consumer.grain_type, consumer.grain_key)];
            &&& outcome(batch) is Applied
            &&& after.dom().contains((consumer.grain_type, consumer.grain_key))
            &&& copy.payload == last.payload@
            &&& copy.sequence == last.sequence
            &&& copy.timestamp_millis == last.timestamp_millis
            &&& sequence_after(consumer.last_sequence, batch) == last.sequence
        },
        forall|i: int|
            0 <= i < entries@.len() && (#[trigger] entries@[i]).entry_type is Delta ==> {
                let batch = Ok::<Vec<ReplicationEntry>, String>(entries);
                &&& outcome(batch) is Skipped
                &&& store_after(store, consumer, batch) == store
                &&& sequence_after(consumer.last_sequence, batch) == entries@[entries@.len()
                    - 1].sequence
            },
        entries@.len() == 0 ==> {
            let batch = Ok::<Vec<ReplicationEntry>, String>(entries);
            &&& outcome(batch) is Nothing
            &&& store_after(store, consumer, batch) == store
            &&& sequence_after(consumer.last_sequence, batch) == consumer.last_sequence
        },
        ({
            let batch = Err::<Vec<ReplicationEntry>, String>(reason);
            &&& outcome(batch) is Failed
            &&& store_after(store, consumer, batch) == store
            &&& sequence_after(consumer.last_sequence, batch) == consumer.last_sequence
        }),
{
    assert forall|i: int|
        0 <= i < entries@.len() && (#[trigger] entries@[i]).entry_type is Delta implies has_delta(
        entries@,
    ) by {}
}

} // verus!
