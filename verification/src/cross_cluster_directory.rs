//! Which cluster owns each grain, with epochs that fence off former owners.

use vstd::prelude::*;

use crate::grain;
use crate::grain::{ClusterId, GrainId, GrainIdView};
use crate::maps;
use crate::maps::{Duplicate, StrMap};
use crate::text;
use crate::text::{join2, push_decimal};
use crate::time::SystemTime;

verus! {

/// Who owns a grain activation.
#[derive(Clone, Debug, PartialEq, Eq)]
pub struct GrainOwnership {
    pub cluster_id: ClusterId,
    pub epoch: u64,
    pub registered_at: SystemTime,
}

/// The contents of a [`GrainOwnership`].
#[verifier::ext_equal]
pub struct GrainOwnershipView {
    pub cluster_id: Seq<char>,
    pub epoch: u64,
    pub registered_at: SystemTime,
}

impl View for GrainOwnership {
    type V = GrainOwnershipView;

    open spec fn view(&self) -> GrainOwnershipView {
        GrainOwnershipView {
            cluster_id: self.cluster_id@,
            epoch: self.epoch,
            registered_at: self.registered_at,
        }
    }
}

impl Duplicate for GrainOwnership {
    fn duplicate(&self) -> (copy: Self) {
        GrainOwnership {
            cluster_id: self.cluster_id.duplicate(),
            epoch: self.epoch,
            registered_at: self.registered_at,
        }
    }
}

/// What keeps a directory from answering.
#[derive(Clone, Debug, PartialEq, Eq)]
#[non_exhaustive]
pub enum DirectoryError {
    Unavailable(String),
    StaleEpoch { current: u64, requested: u64 },
    Backend(String),
}

impl DirectoryError {
    /// The text that describes the error.
    pub open spec fn message(self) -> Seq<char> {
        match self {
            DirectoryError::Unavailable(s) => "directory backend unavailable: "@ + s@,
            DirectoryError::StaleEpoch { current, requested } => "stale epoch: current is "@
                + text::decimal(current as nat) + ", requested "@ + text::decimal(requested as nat),
            DirectoryError::Backend(s) => "directory backend error: "@ + s@,
        }
    }

    /// The text that describes the error.
    pub fn to_string(&self) -> (message: String)
        ensures
            message@ == self.message(),
    {
        match self {
            DirectoryError::Unavailable(s) => join2("directory backend unavailable: ", s.as_str()),
            DirectoryError::StaleEpoch { current, requested } => {
                let mut message = "stale epoch: current is ".to_string();
                push_decimal(&mut message, *current);
                message.append(", requested ");
                push_decimal(&mut message, *requested);
                message
            },
            DirectoryError::Backend(s) => join2("directory backend error: ", s.as_str()),
        }
    }
}

/// Tracks which cluster owns each grain activation. One cluster owns a grain at a time: of
/// several registrations at one epoch the first wins, and a registration at a higher epoch
/// takes over.
pub trait CrossClusterDirectory: Sized {
    /// Which cluster owns a grain.
    fn lookup(&self, grain_id: &GrainId) -> Result<Option<GrainOwnership>, DirectoryError>;

    /// Registers a cluster as a grain's owner, and says who owns it afterwards. A
    /// registration at an epoch that is not above the current one has no effect.
    fn register(
        &mut self,
        grain_id: &GrainId,
        cluster_id: &ClusterId,
        epoch: u64,
    ) -> Result<GrainOwnership, DirectoryError>;

    /// Releases a grain, where the cluster owns it.
    fn deregister(&mut self, grain_id: &GrainId, cluster_id: &ClusterId) -> Result<
        (),
        DirectoryError,
    >;

    /// The grains that a cluster owns.
    fn list_owned_by(&self, cluster_id: &ClusterId) -> Result<
        Vec<(GrainId, GrainOwnership)>,
        DirectoryError,
    >;

    /// Prolongs an ownership that would otherwise lapse; nothing to do where none does.
    fn renew(&mut self, _grain_id: &GrainId, _cluster_id: &ClusterId) -> (result: Result<
        (),
        DirectoryError,
    >)
        default_ensures
            result is Ok,
            *final(self) == *old(self),
    {
        Ok(())
    }
}

/// A registered grain and its owner.
#[derive(Clone, Debug, PartialEq, Eq)]
pub struct OwnedGrain {
    grain_id: GrainId,
    ownership: GrainOwnership,
}

/// The contents of an [`OwnedGrain`].
#[verifier::ext_equal]
pub struct OwnedGrainView {
    pub grain_id: GrainIdView,
    pub ownership: GrainOwnershipView,
}

impl View for OwnedGrain {
    type V = OwnedGrainView;

    closed spec fn view(&self) -> OwnedGrainView {
        OwnedGrainView { grain_id: self.grain_id@, ownership: self.ownership@ }
    }
}

/// The contents of a directory: entries by the entry keys of their grains.
pub type Entries = Map<Seq<char>, OwnedGrainView>;

/// Whether a registration takes effect: the grain is free, or owned at a lower epoch.
pub open spec fn register_wins(entries: Entries, grain: GrainIdView, epoch: u64) -> bool {
    !entries.dom().contains(grain.entry_key()) || epoch > entries[grain.entry_key()].ownership.epoch
}

/// The entries after a registration at a given time.
pub open spec fn registered(
    entries: Entries,
    grain: GrainIdView,
    cluster_id: Seq<char>,
    epoch: u64,
    now: SystemTime,
) -> Entries {
    if register_wins(entries, grain, epoch) {
        entries.insert(
            grain.entry_key(),
            OwnedGrainView {
                grain_id: grain,
                ownership: GrainOwnershipView { cluster_id, epoch, registered_at: now },
            },
        )
    } else {
        entries
    }
}

/// The entries after a cluster released a grain.
pub open spec fn deregistered(
    entries: Entries,
    grain: GrainIdView,
    cluster_id: Seq<char>,
) -> Entries {
    if entries.dom().contains(grain.entry_key()) && entries[grain.entry_key()].ownership.cluster_id
        == cluster_id {
        entries.remove(grain.entry_key())
    } else {
        entries
    }
}

/// The entries that a cluster owns, in ascending order of their keys.
pub open spec fn owned_by(entries: Entries, cluster_id: Seq<char>) -> Seq<OwnedGrainView> {
    maps::values_in_order(entries).filter(is_owned_by(cluster_id))
}

/// Whether an entry belongs to a cluster.
pub open spec fn is_owned_by(cluster_id: Seq<char>) -> spec_fn(OwnedGrainView) -> bool {
    |e: OwnedGrainView| e.ownership.cluster_id == cluster_id
}

/// The contents of a list of grains and their owners.
pub open spec fn pair_views(list: Seq<(GrainId, GrainOwnership)>) -> Seq<OwnedGrainView> {
    list.map_values(
        |p: (GrainId, GrainOwnership)| OwnedGrainView { grain_id: p.0@, ownership: p.1@ },
    )
}

/// Whether every entry stands under its own grain's key.
pub open spec fn keyed(entries: Entries) -> bool {
    forall|k: Seq<char>| #[trigger]
        entries.dom().contains(k) ==> entries[k].grain_id.entry_key() == k
}

/// A directory in memory, for several clusters in one process.
#[derive(Debug, PartialEq, Eq)]
pub struct InMemoryCrossClusterDirectory {
    entries: StrMap<OwnedGrain>,
}

impl Clone for InMemoryCrossClusterDirectory {
    fn clone(&self) -> (copy: Self)
        ensures
            copy@ == self@,
    {
        proof {
            use_type_invariant(self);
        }
        InMemoryCrossClusterDirectory { entries: self.entries.duplicate() }
    }
}

impl Duplicate for OwnedGrain {
    fn duplicate(&self) -> (copy: Self) {
        OwnedGrain { grain_id: self.grain_id.duplicate(), ownership: self.ownership.duplicate() }
    }
}

impl View for InMemoryCrossClusterDirectory {
    type V = Entries;

    closed spec fn view(&self) -> Entries {
        self.entries@
    }
}

impl Default for InMemoryCrossClusterDirectory {
    fn default() -> (directory: Self)
        ensures
            directory@ == Map::<Seq<char>, OwnedGrainView>::empty(),
    {
        InMemoryCrossClusterDirectory { entries: StrMap::new() }
    }
}

impl InMemoryCrossClusterDirectory {
    #[verifier::type_invariant]
    spec fn well_keyed(self) -> bool {
        keyed(self.entries@)
    }

    pub fn new() -> (directory: Self)
        ensures
            directory@ == Map::<Seq<char>, OwnedGrainView>::empty(),
    {
        InMemoryCrossClusterDirectory { entries: StrMap::new() }
    }

    /// Registers a cluster as a grain's owner, with the time of registration.
    pub fn register_at(
        &mut self,
        grain_id: &GrainId,
        cluster_id: &ClusterId,
        epoch: u64,
        now: SystemTime,
    ) -> (owner: GrainOwnership)
        ensures
            final(self)@ == registered(old(self)@, grain_id@, cluster_id@, epoch, now),
            owner@ == final(self)@[grain_id@.entry_key()].ownership,
    {
        proof {
            use_type_invariant(&*self);
        }
        let key = grain_id.entry_key();
        if let Some(existing) = self.entries.get(key.as_str()) {
            if epoch <= existing.ownership.epoch {
                return existing.ownership.duplicate();
            }
        }
        let ownership = GrainOwnership {
            cluster_id: cluster_id.duplicate(),
            epoch,
            registered_at: now,
        };
        let mut whole = InMemoryCrossClusterDirectory::new();
        std::mem::swap(&mut whole, self);
        let InMemoryCrossClusterDirectory { entries: mut entries } = whole;
        entries.insert(
            key,
            OwnedGrain { grain_id: grain_id.duplicate(), ownership: ownership.duplicate() },
        );
        *self = InMemoryCrossClusterDirectory { entries };
        ownership
    }
}

impl CrossClusterDirectory for InMemoryCrossClusterDirectory {
    fn lookup(&self, grain_id: &GrainId) -> (owner: Result<Option<GrainOwnership>, DirectoryError>)
        ensures
            match owner {
                Ok(Some(o)) => self@.dom().contains(grain_id@.entry_key())
                    && o@ == self@[grain_id@.entry_key()].ownership,
                Ok(None) => !self@.dom().contains(grain_id@.entry_key()),
                Err(_) => false,
            },
    {
        match self.entries.get(grain_id.entry_key().as_str()) {
            Some(entry) => Ok(Some(entry.ownership.duplicate())),
            None => Ok(None),
        }
    }

    fn register(&mut self, grain_id: &GrainId, cluster_id: &ClusterId, epoch: u64) -> (owner: Result<
        GrainOwnership,
        DirectoryError,
    >)
        ensures
            exists|now: SystemTime|
                final(self)@ == #[trigger] registered(
                    old(self)@,
                    grain_id@,
                    cluster_id@,
                    epoch,
                    now,
                ),
            match owner {
                Ok(o) => o@ == final(self)@[grain_id@.entry_key()].ownership,
                Err(_) => false,
            },
    {
        let now = SystemTime::now();
        Ok(self.register_at(grain_id, cluster_id, epoch, now))
    }

    fn deregister(&mut self, grain_id: &GrainId, cluster_id: &ClusterId) -> (done: Result<
        (),
        DirectoryError,
    >)
        ensures
            done is Ok,
            final(self)@ == deregistered(old(self)@, grain_id@, cluster_id@),
    {
        let key = grain_id.entry_key();
        let owns: bool = match self.entries.get(key.as_str()) {
            Some(existing) => existing.ownership.cluster_id.same(cluster_id),
            None => false,
        };
        if owns {
            proof {
                use_type_invariant(&*self);
            }
            let mut whole = InMemoryCrossClusterDirectory::new();
            std::mem::swap(&mut whole, self);
            let InMemoryCrossClusterDirectory { entries: mut entries } = whole;
            entries.remove(key.as_str());
            *self = InMemoryCrossClusterDirectory { entries };
        }
        Ok(())
    }

    fn list_owned_by(&self, cluster_id: &ClusterId) -> (owned: Result<
        Vec<(GrainId, GrainOwnership)>,
        DirectoryError,
    >)
        ensures
            match owned {
                Ok(list) => pair_views(list@) == owned_by(self@, cluster_id@),
                Err(_) => false,
            },
            keyed(self@),
            self@.dom().finite(),
    {
        proof {
            use_type_invariant(self);
        }
        let n: usize = self.entries.len();
        let mut owned: Vec<(GrainId, GrainOwnership)> = Vec::new();
        let ghost all = maps::values_in_order(self@);
        let ghost keep = is_owned_by(cluster_id@);
        let mut i: usize = 0;
        proof {
            maps::lemma_filter_nothing(all, keep);
            assert(pair_views(owned@) =~= Seq::<OwnedGrainView>::empty());
        }
        while i < n
            invariant
                i <= n,
                n == self.entries.key_seq().len(),
                self.entries.key_seq() == maps::in_text_order(self@.dom()),
                all == maps::values_in_order(self@),
                keep == is_owned_by(cluster_id@),
                pair_views(owned@) == all.take(i as int).filter(keep),
            decreases n - i,
        {
            let entry = self.entries.value_at(i);
            assert(all[i as int] == entry@);
            proof {
                maps::lemma_take_filter(all, keep, i as int);
            }
            if entry.ownership.cluster_id.same(cluster_id) {
                let ghost before = owned@;
                owned.push((entry.grain_id.duplicate(), entry.ownership.duplicate()));
                assert(pair_views(owned@) =~= pair_views(before).push(entry@));
            }
            i += 1;
        }
        assert(all.take(n as int) =~= all);
        Ok(owned)
    }
}

/// The list of a cluster's grains holds exactly its entries, each once.
pub proof fn owned_list_is_complete(entries: Entries, cluster_id: Seq<char>)
    requires
        keyed(entries),
        entries.dom().finite(),
    ensures
        forall|i: int|
            0 <= i < owned_by(entries, cluster_id).len() ==> {
                let e = #[trigger] owned_by(entries, cluster_id)[i];
                &&& entries.dom().contains(e.grain_id.entry_key())
                &&& entries[e.grain_id.entry_key()] == e
                &&& e.ownership.cluster_id == cluster_id
            },
        forall|k: Seq<char>| #[trigger]
            entries.dom().contains(k) && entries[k].ownership.cluster_id == cluster_id
                ==> owned_by(entries, cluster_id).contains(entries[k]),
        owned_by(entries, cluster_id).no_duplicates(),
{
    let keys = maps::in_text_order(entries.dom());
    let all = maps::values_in_order(entries);
    let keep = is_owned_by(cluster_id);
    maps::lemma_text_order_is_complete(entries.dom());
    maps::lemma_ascending_no_duplicates(keys);
    assert forall|i: int| 0 <= i < all.len() implies #[trigger] all[i] == entries[keys[i]]
        && entries.dom().contains(keys[i]) && all[i].grain_id.entry_key() == keys[i] by {
        assert(keys.contains(keys[i]));
    }
    assert(all.no_duplicates());
    maps::lemma_filter_distinct(all, keep);
    assert forall|i: int| 0 <= i < all.filter(keep).len() implies {
        let e = #[trigger] all.filter(keep)[i];
        &&& entries.dom().contains(e.grain_id.entry_key())
        &&& entries[e.grain_id.entry_key()] == e
        &&& e.ownership.cluster_id == cluster_id
    } by {
        let e = all.filter(keep)[i];
        all.lemma_filter_pred(keep, i);
        assert(all.filter(keep).contains(e));
        let j = all.index_of(e);
        assert(all[j] == e);
    }
    assert forall|k: Seq<char>| #[trigger]
        entries.dom().contains(k) && entries[k].ownership.cluster_id
            == cluster_id implies all.filter(keep).contains(entries[k]) by {
        assert(keys.contains(k));
        let j = keys.index_of(k);
        assert(all[j] == entries[k]);
        all.lemma_filter_contains(keep, j);
    }
}

/// The first registration at an epoch wins, a lower epoch is fenced off, and a higher one
/// takes over.
pub proof fn epochs_decide_ownership(
    entries: Entries,
    grain: GrainIdView,
    cluster_id: Seq<char>,
    epoch: u64,
    now: SystemTime,
)
    requires
        entries.dom().contains(grain.entry_key()),
    ensures
        epoch <= entries[grain.entry_key()].ownership.epoch ==> registered(
            entries,
            grain,
            cluster_id,
            epoch,
            now,
        ) == entries,
        epoch > entries[grain.entry_key()].ownership.epoch ==> {
            let owner = registered(
                entries,
                grain,
                cluster_id,
                epoch,
                now,
            )[grain.entry_key()].ownership;
            owner.cluster_id == cluster_id && owner.epoch == epoch
        },
{
}

/// A registration never lowers a grain's epoch, never frees a grain, and leaves every
/// other entry alone; a release leaves every other entry alone too.
pub proof fn registrations_are_monotone(
    entries: Entries,
    grain: GrainIdView,
    cluster_id: Seq<char>,
    epoch: u64,
    now: SystemTime,
    key: Seq<char>,
)
    ensures
        ({
            let after = registered(entries, grain, cluster_id, epoch, now);
            &&& after.dom().contains(grain.entry_key())
            &&& entries.dom().contains(key) ==> after.dom().contains(key)
                && after[key].ownership.epoch >= entries[key].ownership.epoch
            &&& key != grain.entry_key() ==> (after.dom().contains(key) == entries.dom().contains(key)
                && after[key] == entries[key])
        }),
        ({
            let after = deregistered(entries, grain, cluster_id);
            key != grain.entry_key() ==> (after.dom().contains(key) == entries.dom().contains(key)
                && after[key] == entries[key])
        }),
{
}

/// Each grain has an owner of its own: what is registered or released for one grain leaves
/// every other as it was.
pub proof fn grains_are_owned_one_by_one(
    entries: Entries,
    grain: GrainIdView,
    other: GrainIdView,
    cluster_id: Seq<char>,
    epoch: u64,
    now: SystemTime,
)
    requires
        grain != other,
    ensures
        ({
            let key = other.entry_key();
            let after = registered(entries, grain, cluster_id, epoch, now);
            let freed = deregistered(entries, grain, cluster_id);
            &&& after.dom().contains(key) == entries.dom().contains(key)
            &&& after[key] == entries[key]
            &&& freed.dom().contains(key) == entries.dom().contains(key)
            &&& freed[key] == entries[key]
        }),
{
    if grain.entry_key() == other.entry_key() {
        grain::entry_keys_are_unique(grain.grain_type, grain.key, other.grain_type, other.key);
    }
}

/// Only the owner can release a grain, and then it is free.
pub proof fn only_the_owner_releases(
    entries: Entries,
    grain: GrainIdView,
    cluster_id: Seq<char>,
)
    requires
        entries.dom().contains(grain.entry_key()),
    ensures
        entries[grain.entry_key()].ownership.cluster_id == cluster_id ==> !deregistered(
            entries,
            grain,
            cluster_id,
        ).dom().contains(grain.entry_key()),
        entries[grain.entry_key()].ownership.cluster_id != cluster_id ==> deregistered(
            entries,
            grain,
            cluster_id,
        ) == entries,
{
}

/// Of two clusters that register a grain at one epoch, the first keeps it.
pub proof fn concurrent_registrations_have_one_winner(
    entries: Entries,
    grain: GrainIdView,
    first: Seq<char>,
    second: Seq<char>,
    epoch: u64,
    now: SystemTime,
    later: SystemTime,
)
    ensures
        registered(registered(entries, grain, first, epoch, now), grain, second, epoch, later)
            == registered(entries, grain, first, epoch, now),
{
}

/// A registration that wins is kept as it was made: for that grain, of that cluster, at that
/// epoch and time. It wins where nobody owns the grain, or somebody at a lower epoch.
pub proof fn registrations_are_kept_as_made(
    entries: Entries,
    grain: GrainIdView,
    cluster_id: Seq<char>,
    epoch: u64,
    now: SystemTime,
)
    ensures
        ({
            let key = grain.entry_key();
            let after = registered(entries, grain, cluster_id, epoch, now);
            let free = !entries.dom().contains(key);
            &&& free || entries[key].ownership.epoch < epoch ==> {
                &&& after[key].grain_id == grain
                &&& after[key].ownership.cluster_id == cluster_id
                &&& after[key].ownership.epoch == epoch
                &&& after[key].ownership.registered_at == now
            }
            &&& !free && entries[key].ownership.epoch >= epoch ==> after[key] == entries[key]
        }),
{
}

/// What an error tells ends with its reason, or names both epochs.
pub proof fn directory_errors_tell_the_reason(reason: String, current: u64, requested: u64)
    ensures
        DirectoryError::Unavailable(reason).message() == "directory backend unavailable: "@
            + reason@,
        DirectoryError::Backend(reason).message() == "directory backend error: "@ + reason@,
        (DirectoryError::StaleEpoch { current, requested }).message() == "stale epoch: current is "@
            + text::decimal(current as nat) + ", requested "@ + text::decimal(requested as nat),
{
}

} // verus!
