//! Copies of grains whose home is in another cluster.

use vstd::prelude::*;

use crate::grain;
use crate::grain::entry_key_of;
use crate::maps::{Duplicate, StrMap};
use crate::proto::copy_bytes;
use crate::time;
use crate::time::{systemtime_to_millis, SystemTime};

verus! {

/// A copy of a grain's state.
#[derive(Clone, Debug, PartialEq, Eq)]
pub struct ReplicaEntry {
    /// The state, serialized.
    pub payload: Vec<u8>,
    /// The place of this copy in the sequence of the grain's states.
    pub sequence: u64,
    /// When the copy was made, in milliseconds since the Unix epoch.
    pub timestamp_millis: i64,
}

/// The contents of a [`ReplicaEntry`].
#[verifier::ext_equal]
pub struct ReplicaEntryView {
    pub payload: Seq<u8>,
    pub sequence: u64,
    pub timestamp_millis: i64,
}

impl View for ReplicaEntry {
    type V = ReplicaEntryView;

    open spec fn view(&self) -> ReplicaEntryView {
        ReplicaEntryView {
            payload: self.payload@,
            sequence: self.sequence,
            timestamp_millis: self.timestamp_millis,
        }
    }
}

impl Duplicate for ReplicaEntry {
    fn duplicate(&self) -> (copy: Self) {
        ReplicaEntry {
            payload: copy_bytes(&self.payload),
            sequence: self.sequence,
            timestamp_millis: self.timestamp_millis,
        }
    }
}

/// The latest copy of each grain.
#[derive(Clone, Debug, PartialEq, Eq)]
pub struct ReplicaStore {
    entries: StrMap<ReplicaEntry>,
}

/// The contents of a [`ReplicaStore`]: copies by grain type and key.
pub type Replicas = Map<(Seq<char>, Seq<char>), ReplicaEntryView>;

impl View for ReplicaStore {
    type V = Replicas;

    closed spec fn view(&self) -> Replicas {
        Map::new(
            |g: (Seq<char>, Seq<char>)| self.entries@.dom().contains(grain::entry_key(g.0, g.1)),
            |g: (Seq<char>, Seq<char>)| self.entries@[grain::entry_key(g.0, g.1)],
        )
    }
}

/// Whether a grain's copy is at most so old at a time, both in milliseconds.
pub open spec fn fresh_at(
    entries: Replicas,
    grain_type: Seq<char>,
    grain_key: Seq<char>,
    max_staleness_millis: i64,
    now_millis: i64,
) -> bool {
    let key = (grain_type, grain_key);
    entries.dom().contains(key) && now_millis - entries[key].timestamp_millis
        <= max_staleness_millis
}

/// The copies with one more, in place of an earlier one of the same grain.
pub open spec fn with_copy(
    entries: Replicas,
    grain_type: Seq<char>,
    grain_key: Seq<char>,
    payload: Seq<u8>,
    sequence: u64,
    timestamp_millis: i64,
) -> Replicas {
    entries.insert(
        (grain_type, grain_key),
        ReplicaEntryView { payload, sequence, timestamp_millis },
    )
}

/// No other grain has a grain's entry key.
proof fn lemma_keys_apart(grain_type: Seq<char>, grain_key: Seq<char>)
    ensures
        forall|g: (Seq<char>, Seq<char>)|
            #[trigger] grain::entry_key(g.0, g.1) == grain::entry_key(grain_type, grain_key) ==> g
                == (grain_type, grain_key),
{
    assert forall|g: (Seq<char>, Seq<char>)|
        #[trigger] grain::entry_key(g.0, g.1) == grain::entry_key(
            grain_type,
            grain_key,
        ) implies g == (grain_type, grain_key) by {
        grain::entry_keys_are_unique(g.0, g.1, grain_type, grain_key);
    }
}

impl Default for ReplicaStore {
    fn default() -> (store: Self)
        ensures
            store@ == Map::<(Seq<char>, Seq<char>), ReplicaEntryView>::empty(),
    {
        ReplicaStore::new()
    }
}

impl ReplicaStore {
    pub fn new() -> (store: ReplicaStore)
        ensures
            store@ == Map::<(Seq<char>, Seq<char>), ReplicaEntryView>::empty(),
    {
        let store = ReplicaStore { entries: StrMap::new() };
        assert(store@ =~= Map::<(Seq<char>, Seq<char>), ReplicaEntryView>::empty());
        store
    }

    /// Keeps a copy of a grain, in place of an earlier one.
    pub fn update(
        &mut self,
        grain_type: &str,
        grain_key: &str,
        payload: Vec<u8>,
        sequence: u64,
        timestamp_millis: i64,
    )
        ensures
            final(self)@ == old(self)@.insert(
                (grain_type@, grain_key@),
                ReplicaEntryView { payload: payload@, sequence, timestamp_millis },
            ),
            final(self)@ == with_copy(
                old(self)@,
                grain_type@,
                grain_key@,
                payload@,
                sequence,
                timestamp_millis,
            ),
    {
        let ghost before = self@;
        let ghost entry = ReplicaEntryView { payload: payload@, sequence, timestamp_millis };
        self.entries.insert(
            entry_key_of(grain_type, grain_key),
            ReplicaEntry { payload, sequence, timestamp_millis },
        );
        proof {
            lemma_keys_apart(grain_type@, grain_key@);
            assert(self@ =~= before.insert((grain_type@, grain_key@), entry));
        }
    }

    /// The latest copy of a grain.
    pub fn get(&self, grain_type: &str, grain_key: &str) -> (entry: Option<ReplicaEntry>)
        ensures
            match entry {
                Some(e) => self@.dom().contains((grain_type@, grain_key@)) && e@
                    == self@[(grain_type@, grain_key@)],
                None => !self@.dom().contains((grain_type@, grain_key@)),
            },
    {
        match self.entries.get(entry_key_of(grain_type, grain_key).as_str()) {
            Some(entry) => Some(entry.duplicate()),
            None => None,
        }
    }

    /// Whether there is a copy that is at most so old at a time.
    pub fn is_fresh_at(
        &self,
        grain_type: &str,
        grain_key: &str,
        max_staleness_millis: i64,
        now_millis: i64,
    ) -> (fresh: bool)
        ensures
            fresh == fresh_at(self@, grain_type@, grain_key@, max_staleness_millis, now_millis),
    {
        match self.entries.get(entry_key_of(grain_type, grain_key).as_str()) {
            Some(entry) => now_millis as i128 - entry.timestamp_millis as i128
                <= max_staleness_millis as i128,
            None => false,
        }
    }

    /// Whether there is a copy that is at most so old now.
    pub fn is_fresh(&self, grain_type: &str, grain_key: &str, max_staleness_millis: i64) -> (fresh:
        bool)
        ensures
            exists|now: SystemTime|
                fresh == fresh_at(
                    self@,
                    grain_type@,
                    grain_key@,
                    max_staleness_millis,
                    #[trigger] time::unix_millis(now),
                ),
            fresh ==> self@.dom().contains((grain_type@, grain_key@)),
    {
        let now = SystemTime::now();
        let now_millis: i64 = systemtime_to_millis(now);
        assert(now_millis == time::unix_millis(now));
        self.is_fresh_at(grain_type, grain_key, max_staleness_millis, now_millis)
    }

    /// Forgets the copy of a grain.
    pub fn remove(&mut self, grain_type: &str, grain_key: &str)
        ensures
            final(self)@ == old(self)@.remove((grain_type@, grain_key@)),
    {
        let ghost before = self@;
        self.entries.remove(entry_key_of(grain_type, grain_key).as_str());
        proof {
            lemma_keys_apart(grain_type@, grain_key@);
            assert(self@ =~= before.remove((grain_type@, grain_key@)));
        }
    }
}

/// What was kept last is what is read, until it is removed; other grains keep their copies.
pub proof fn copies_are_independent(
    entries: Replicas,
    type1: Seq<char>,
    key1: Seq<char>,
    type2: Seq<char>,
    key2: Seq<char>,
    entry: ReplicaEntryView,
)
    requires
        type1 != type2 || key1 != key2,
    ensures
        ({
            let (g1, g2) = ((type1, key1), (type2, key2));
            let kept = entries.insert(g1, entry);
            let removed = entries.remove(g1);
            &&& kept.dom().contains(g1) && kept[g1] == entry
            &&& kept.dom().contains(g2) == entries.dom().contains(g2) && kept[g2] == entries[g2]
            &&& !removed.dom().contains(g1)
            &&& removed.dom().contains(g2) == entries.dom().contains(g2) && removed[g2]
                == entries[g2]
        }),
{
}

/// A copy that is fresh enough for a bound is so for a longer one, and was so earlier.
pub proof fn freshness_only_fades(
    entries: Replicas,
    grain_type: Seq<char>,
    grain_key: Seq<char>,
    bound: i64,
    longer: i64,
    now: i64,
    earlier: i64,
)
    requires
        bound <= longer,
        earlier <= now,
        fresh_at(entries, grain_type, grain_key, bound, now),
    ensures
        fresh_at(entries, grain_type, grain_key, longer, earlier),
{
}

/// A copy that was kept is what is read of its grain, and is fresh as long as no more time has
/// gone by since it was taken than the bound allows. What there is no copy of is never fresh.
pub proof fn kept_copies_are_read_and_age(
    entries: Replicas,
    grain_type: Seq<char>,
    grain_key: Seq<char>,
    payload: Seq<u8>,
    sequence: u64,
    timestamp_millis: i64,
    bound: i64,
    now: i64,
    other: (Seq<char>, Seq<char>),
)
    requires
        other != (grain_type, grain_key),
    ensures
        ({
            let kept = with_copy(
                entries,
                grain_type,
                grain_key,
                payload,
                sequence,
                timestamp_millis,
            );
            let copy = kept[(grain_type, grain_key)];
            &&& kept.dom().contains((grain_type, grain_key))
            &&& copy.payload == payload
            &&& copy.sequence == sequence
            &&& copy.timestamp_millis == timestamp_millis
            &&& fresh_at(kept, grain_type, grain_key, bound, now) <==> now <= timestamp_millis
                + bound
            &&& kept.dom().contains(other) == entries.dom().contains(other)
            &&& kept[other] == entries[other]
        }),
        !entries.dom().contains((grain_type, grain_key)) ==> !fresh_at(
            entries,
            grain_type,
            grain_key,
            bound,
            now,
        ),
{
}

} // verus!
