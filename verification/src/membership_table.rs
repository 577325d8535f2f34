//! The agreed membership of a cluster: a table with one version, which every change
//! increases by one.

use vstd::prelude::*;

use crate::hash_ring::{SiloAddress, SiloAddressView};
use crate::maps;
use crate::maps::{Duplicate, StrMap};
use crate::text;
use crate::text::{join2, push_decimal, same_text};
use crate::time::SystemTime;

verus! {

/// What the cluster has agreed on about a silo.
#[derive(Clone, Copy, Debug, PartialEq, Eq, Structural)]
pub enum MembershipStatus {
    /// Admitted, but not serving yet.
    Joining,
    /// Serving grains.
    Active,
    /// Suspected by at least one silo.
    Suspect,
    /// Declared dead for good: a silo that restarts joins with a new generation.
    Dead,
}

/// A silo's row in the table.
#[derive(Clone, Debug, PartialEq, Eq)]
pub struct MemberEntry {
    pub addr: SiloAddress,
    pub status: MembershipStatus,
    /// Set when the silo starts, higher each time.
    pub generation: u64,
    /// The silos that suspect this one.
    pub suspectors: Vec<String>,
    /// When the silo last said it was alive; not part of what is agreed on.
    pub i_am_alive: SystemTime,
}

/// The contents of a [`MemberEntry`].
#[verifier::ext_equal]
pub struct MemberEntryView {
    pub addr: SiloAddressView,
    pub status: MembershipStatus,
    pub generation: u64,
    pub suspectors: Seq<Seq<char>>,
    pub i_am_alive: SystemTime,
}

impl View for MemberEntry {
    type V = MemberEntryView;

    open spec fn view(&self) -> MemberEntryView {
        MemberEntryView {
            addr: self.addr@,
            status: self.status,
            generation: self.generation,
            suspectors: maps::views(self.suspectors@),
            i_am_alive: self.i_am_alive,
        }
    }
}

/// A copy of a list of strings.
pub fn copy_texts(list: &Vec<String>) -> (copy: Vec<String>)
    ensures
        maps::views(copy@) == maps::views(list@),
{
    let mut copy: Vec<String> = Vec::new();
    let mut i: usize = 0;
    while i < list.len()
        invariant
            i <= list.len(),
            copy@.len() == i,
            forall|j: int| 0 <= j < i ==> (#[trigger] copy@[j])@ == list@[j]@,
        decreases list.len() - i,
    {
        copy.push(list[i].clone());
        i += 1;
    }
    assert(maps::views(copy@) =~= maps::views(list@));
    copy
}

impl Duplicate for MemberEntry {
    fn duplicate(&self) -> (copy: Self) {
        MemberEntry {
            addr: self.addr.duplicate(),
            status: self.status,
            generation: self.generation,
            suspectors: copy_texts(&self.suspectors),
            i_am_alive: self.i_am_alive,
        }
    }
}

impl MemberEntry {
    /// The row of a silo that is about to join, alive at a given time.
    pub fn joining_at(addr: SiloAddress, generation: u64, now: SystemTime) -> (entry: MemberEntry)
        ensures
            entry@ == (MemberEntryView {
                addr: addr@,
                status: MembershipStatus::Joining,
                generation,
                suspectors: Seq::empty(),
                i_am_alive: now,
            }),
    {
        let entry = MemberEntry {
            addr,
            status: MembershipStatus::Joining,
            generation,
            suspectors: Vec::new(),
            i_am_alive: now,
        };
        assert(entry@.suspectors =~= Seq::<Seq<char>>::empty());
        entry
    }

    /// The row of a silo that is about to join, alive now.
    pub fn joining(addr: SiloAddress, generation: u64) -> (entry: MemberEntry)
        ensures
            entry@ == (MemberEntryView {
                addr: addr@,
                status: MembershipStatus::Joining,
                generation,
                suspectors: Seq::empty(),
                i_am_alive: entry@.i_am_alive,
            }),
    {
        MemberEntry::joining_at(addr, generation, SystemTime::now())
    }
}

/// The table at a version.
#[derive(Clone, Debug, PartialEq, Eq)]
pub struct MembershipView {
    pub version: u64,
    /// Members in ascending order of their identities.
    pub members: Vec<MemberEntry>,
}

/// Whether a row is that of a serving silo.
pub open spec fn is_active() -> spec_fn(MemberEntryView) -> bool {
    |m: MemberEntryView| m.status is Active
}

/// The addresses of the serving silos among rows.
pub open spec fn active_addrs(members: Seq<MemberEntryView>) -> Seq<SiloAddressView> {
    members.filter(is_active()).map_values(|m: MemberEntryView| m.addr)
}

/// The first row with an identity.
pub open spec fn row_of(members: Seq<MemberEntryView>, silo_id: Seq<char>) -> Option<
    MemberEntryView,
>
    decreases members.len(),
{
    if members.len() == 0 {
        None
    } else if members[0].addr.silo_id == silo_id {
        Some(members[0])
    } else {
        row_of(members.skip(1), silo_id)
    }
}

impl MembershipView {
    /// The addresses of the serving silos, in the order of their rows.
    pub fn active_silos(&self) -> (silos: Vec<SiloAddress>)
        ensures
            maps::views(silos@) == active_addrs(maps::views(self.members@)),
    {
        let ghost all = maps::views(self.members@);
        let ghost keep = is_active();
        let mut silos: Vec<SiloAddress> = Vec::new();
        let mut i: usize = 0;
        let ghost pick = |m: MemberEntryView| m.addr;
        proof {
            maps::lemma_filter_nothing(all, keep);
            assert(maps::views(silos@) =~= all.take(0).filter(keep).map_values(pick));
        }
        while i < self.members.len()
            invariant
                i <= self.members.len(),
                all == maps::views(self.members@),
                keep == is_active(),
                pick == (|m: MemberEntryView| m.addr),
                maps::views(silos@) == all.take(i as int).filter(keep).map_values(pick),
            decreases self.members.len() - i,
        {
            let member = &self.members[i];
            proof {
                assert(all[i as int] == member@);
                maps::lemma_take_filter(all, keep, i as int);
            }
            if member.status == MembershipStatus::Active {
                let ghost before = silos@;
                silos.push(member.addr.duplicate());
                assert(maps::views(silos@) =~= maps::views(before).push(member@.addr));
                assert(all.take(i + 1).filter(keep).map_values(pick) =~= all.take(i as int).filter(
                    keep,
                ).map_values(pick).push(member@.addr));
            }
            i += 1;
        }
        assert(all.take(i as int) =~= all);
        silos
    }

    /// The row with an identity.
    pub fn member(&self, silo_id: &str) -> (member: Option<&MemberEntry>)
        ensures
            match member {
                Some(m) => row_of(maps::views(self.members@), silo_id@) == Some(m@),
                None => row_of(maps::views(self.members@), silo_id@) is None,
            },
    {
        let ghost all = maps::views(self.members@);
        let mut i: usize = 0;
        assert(all.skip(0) =~= all);
        while i < self.members.len()
            invariant
                i <= self.members.len(),
                all == maps::views(self.members@),
                row_of(all, silo_id@) == row_of(all.skip(i as int), silo_id@),
            decreases self.members.len() - i,
        {
            proof {
                assert(all.skip(i as int)[0] == self.members@[i as int]@);
                assert(all.skip(i as int).skip(1) =~= all.skip(i + 1));
            }
            if same_text(self.members[i].addr.silo_id.as_str(), silo_id) {
                return Some(&self.members[i]);
            }
            i += 1;
        }
        None
    }
}

/// Why a membership table refused.
#[derive(Clone, Debug, PartialEq, Eq)]
pub enum MembershipError {
    /// The change was made for another version: read the table and try again.
    VersionConflict { expected: u64, actual: u64 },
    /// The silo has no row.
    NotFound(String),
    /// The store behind the table failed.
    Backend(String),
}

/// The contents of a [`MembershipError`].
pub enum MembershipErrorView {
    VersionConflict { expected: u64, actual: u64 },
    NotFound(Seq<char>),
    Backend(Seq<char>),
}

impl View for MembershipError {
    type V = MembershipErrorView;

    open spec fn view(&self) -> MembershipErrorView {
        match self {
            MembershipError::VersionConflict { expected, actual } =>
                MembershipErrorView::VersionConflict { expected: *expected, actual: *actual },
            MembershipError::NotFound(s) => MembershipErrorView::NotFound(s@),
            MembershipError::Backend(s) => MembershipErrorView::Backend(s@),
        }
    }
}

impl MembershipErrorView {
    /// The text that describes the error.
    pub open spec fn message(self) -> Seq<char> {
        match self {
            MembershipErrorView::VersionConflict { expected, actual } =>
                "membership version conflict: expected "@ + text::decimal(expected as nat)
                    + ", table at "@ + text::decimal(actual as nat),
            MembershipErrorView::NotFound(s) => "member not found: "@ + s,
            MembershipErrorView::Backend(s) => "membership backend error: "@ + s,
        }
    }
}

impl MembershipError {
    /// The text that describes the error.
    pub fn to_string(&self) -> (message: String)
        ensures
            message@ == self@.message(),
    {
        match self {
            MembershipError::VersionConflict { expected, actual } => {
                let mut message = "membership version conflict: expected ".to_string();
                push_decimal(&mut message, *expected);
                message.append(", table at ");
                push_decimal(&mut message, *actual);
                message
            },
            MembershipError::NotFound(s) => join2("member not found: ", s.as_str()),
            MembershipError::Backend(s) => join2("membership backend error: ", s.as_str()),
        }
    }
}

/// A membership table. Its changes are ordered by one version: a change takes effect only
/// where it was made for the version that the table has.
pub trait MembershipTable: Sized {
    /// Whether the version can grow by one more change.
    spec fn has_room(&self) -> bool;

    /// The table as it is.
    fn read_all(&self) -> Result<MembershipView, MembershipError>;

    /// Puts a row in, in place of one with the same identity, and increases the version,
    /// where it is the expected one.
    fn try_update(&mut self, entry: MemberEntry, expected_version: u64) -> Result<
        MembershipView,
        MembershipError,
    >
        requires
            old(self).has_room(),
    ;

    /// Notes that a silo is alive. The version stays.
    fn update_i_am_alive(&mut self, silo_id: &str) -> Result<(), MembershipError>;
}

/// The contents of a table.
#[verifier::ext_equal]
pub struct TableView {
    pub version: u64,
    /// Rows by identity.
    pub members: Map<Seq<char>, MemberEntryView>,
}

impl TableView {
    /// Whether each row stands under its own identity.
    pub open spec fn keyed(self) -> bool {
        forall|id: Seq<char>| #[trigger]
            self.members.dom().contains(id) ==> self.members[id].addr.silo_id == id
    }

    /// The table after a change.
    pub open spec fn updated(self, entry: MemberEntryView) -> TableView {
        TableView {
            version: (self.version + 1) as u64,
            members: self.members.insert(entry.addr.silo_id, entry),
        }
    }

    /// The table after a change was tried at an expected version, and the error, where it was
    /// refused.
    pub open spec fn tried(self, entry: MemberEntryView, expected: u64) -> (
        TableView,
        Option<MembershipErrorView>,
    ) {
        if expected == self.version {
            (self.updated(entry), None)
        } else {
            (
                self,
                Some(MembershipErrorView::VersionConflict { expected, actual: self.version }),
            )
        }
    }

    /// The table after a silo said it was alive.
    pub open spec fn alive(self, silo_id: Seq<char>, now: SystemTime) -> TableView {
        if self.members.dom().contains(silo_id) {
            TableView {
                members: self.members.insert(
                    silo_id,
                    MemberEntryView { i_am_alive: now, ..self.members[silo_id] },
                ),
                ..self
            }
        } else {
            self
        }
    }

    /// The rows in ascending order of identities.
    pub open spec fn rows(self) -> Seq<MemberEntryView> {
        maps::values_in_order(self.members)
    }
}

/// Whether a view shows a table.
pub open spec fn shows(view: MembershipView, table: TableView) -> bool {
    view.version == table.version && maps::views(view.members@) == table.rows()
}

/// A table in memory.
#[derive(Debug, PartialEq, Eq)]
pub struct InMemoryMembershipTable {
    version: u64,
    members: StrMap<MemberEntry>,
}

impl View for InMemoryMembershipTable {
    type V = TableView;

    closed spec fn view(&self) -> TableView {
        TableView { version: self.version, members: self.members@ }
    }
}

impl Default for InMemoryMembershipTable {
    fn default() -> (table: Self)
        ensures
            table@ == (TableView { version: 0, members: Map::empty() }),
    {
        InMemoryMembershipTable::new()
    }
}

impl InMemoryMembershipTable {
    #[verifier::type_invariant]
    spec fn well_keyed(self) -> bool {
        self@.keyed()
    }

    /// An empty table at version zero.
    pub fn new() -> (table: InMemoryMembershipTable)
        ensures
            table@ == (TableView { version: 0, members: Map::empty() }),
    {
        InMemoryMembershipTable { version: 0, members: StrMap::new() }
    }

    fn snapshot(&self) -> (view: MembershipView)
        ensures
            shows(view, self@),
    {
        let n: usize = self.members.len();
        let mut members: Vec<MemberEntry> = Vec::new();
        let ghost rows = self@.rows();
        let mut i: usize = 0;
        while i < n
            invariant
                i <= n,
                n == self.members.key_seq().len(),
                self.members.key_seq() == maps::in_text_order(self@.members.dom()),
                rows == self@.rows(),
                members@.len() == i,
                forall|j: int| 0 <= j < i ==> (#[trigger] members@[j])@ == rows[j],
            decreases n - i,
        {
            members.push(self.members.value_at(i).duplicate());
            i += 1;
        }
        assert(maps::views(members@) =~= rows);
        MembershipView { version: self.version, members }
    }

    /// Notes that a silo is alive at a time. The version stays.
    pub fn update_i_am_alive_at(&mut self, silo_id: &str, now: SystemTime) -> (done: Result<
        (),
        MembershipError,
    >)
        ensures
            final(self)@ == old(self)@.alive(silo_id@, now),
            match done {
                Ok(()) => old(self)@.members.dom().contains(silo_id@),
                Err(e) => !old(self)@.members.dom().contains(silo_id@) && e@
                    == MembershipErrorView::NotFound(silo_id@),
            },
    {
        proof {
            use_type_invariant(&*self);
        }
        let found: Option<MemberEntry> = match self.members.get(silo_id) {
            Some(entry) => Some(entry.duplicate()),
            None => None,
        };
        match found {
            Some(entry) => {
                let version: u64 = self.version;
                let mut whole = InMemoryMembershipTable::new();
                std::mem::swap(&mut whole, self);
                let InMemoryMembershipTable { version: _, members: mut members } = whole;
                members.insert(
                    silo_id.to_string(),
                    MemberEntry {
                        addr: entry.addr,
                        status: entry.status,
                        generation: entry.generation,
                        suspectors: entry.suspectors,
                        i_am_alive: now,
                    },
                );
                *self = InMemoryMembershipTable { version, members };
                Ok(())
            },
            None => Err(MembershipError::NotFound(silo_id.to_string())),
        }
    }
}

impl MembershipTable for InMemoryMembershipTable {
    open spec fn has_room(&self) -> bool {
        self@.version < u64::MAX
    }

    fn read_all(&self) -> (view: Result<MembershipView, MembershipError>)
        ensures
            view matches Ok(v) && shows(v, self@),
            self@.keyed(),
            self@.members.dom().finite(),
    {
        proof {
            use_type_invariant(self);
        }
        let n: usize = self.members.len();
        Ok(self.snapshot())
    }

    fn try_update(&mut self, entry: MemberEntry, expected_version: u64) -> (view: Result<
        MembershipView,
        MembershipError,
    >)
        ensures
            if expected_version == old(self)@.version {
                &&& final(self)@ == old(self)@.updated(entry@)
                &&& view matches Ok(v) && shows(v, final(self)@)
            } else {
                &&& final(self)@ == old(self)@
                &&& view matches Err(e) && e@ == (MembershipErrorView::VersionConflict {
                    expected: expected_version,
                    actual: old(self)@.version,
                })
            },
            old(self)@.tried(entry@, expected_version) == (
                final(self)@,
                match view {
                    Ok(_) => None,
                    Err(e) => Some(e@),
                },
            ),
    {
        proof {
            use_type_invariant(&*self);
        }
        if self.version != expected_version {
            return Err(
                MembershipError::VersionConflict {
                    expected: expected_version,
                    actual: self.version,
                },
            );
        }
        let mut whole = InMemoryMembershipTable::new();
        std::mem::swap(&mut whole, self);
        let InMemoryMembershipTable { version: _, members: mut members } = whole;
        members.insert(entry.addr.silo_id.clone(), entry);
        *self = InMemoryMembershipTable { version: expected_version + 1, members };
        Ok(self.snapshot())
    }

    fn update_i_am_alive(&mut self, silo_id: &str) -> (done: Result<(), MembershipError>)
        ensures
            exists|now: SystemTime|
                final(self)@ == #[trigger] old(self)@.alive(silo_id@, now),
            match done {
                Ok(()) => old(self)@.members.dom().contains(silo_id@),
                Err(e) => !old(self)@.members.dom().contains(silo_id@) && e@
                    == MembershipErrorView::NotFound(silo_id@),
            },
    {
        let now = SystemTime::now();
        self.update_i_am_alive_at(silo_id, now)
    }
}

/// A change increases the version by one, replaces only the row that it is about, and that
/// row is then as the change has it.
pub proof fn changes_are_counted_and_local(
    table: TableView,
    entry: MemberEntryView,
    id: Seq<char>,
)
    requires
        table.version < u64::MAX,
    ensures
        table.updated(entry).version == table.version + 1,
        table.updated(entry).members[entry.addr.silo_id] == entry,
        id != entry.addr.silo_id ==> (table.updated(entry).members.dom().contains(id)
            == table.members.dom().contains(id) && table.updated(entry).members[id]
            == table.members[id]),
        table.keyed() ==> table.updated(entry).keyed(),
{
}

/// Saying that a silo is alive changes no version, no status, no generation and no
/// suspicion.
pub proof fn being_alive_is_not_a_change(
    table: TableView,
    silo_id: Seq<char>,
    now: SystemTime,
    id: Seq<char>,
)
    ensures
        ({
            let after = table.alive(silo_id, now);
            &&& after.version == table.version
            &&& after.members.dom() == table.members.dom()
            &&& table.members.dom().contains(id) ==> after.members[id].addr
                == table.members[id].addr && after.members[id].status == table.members[id].status
                && after.members[id].generation == table.members[id].generation
                && after.members[id].suspectors == table.members[id].suspectors
        }),
{
    assert(table.alive(silo_id, now).members.dom() =~= table.members.dom());
}

/// Changes about different silos give the same table in either order.
pub proof fn changes_about_different_silos_commute(
    table: TableView,
    a: MemberEntryView,
    b: MemberEntryView,
)
    requires
        a.addr.silo_id != b.addr.silo_id,
    ensures
        table.updated(a).updated(b) == table.updated(b).updated(a),
        table.updated(a).updated(b).rows() == table.updated(b).updated(a).rows(),
{
    assert(table.updated(a).updated(b) =~= table.updated(b).updated(a));
}

/// A view shows every row once, in ascending order of identities; so two views of one table
/// agree, and so does what is derived from them.
pub proof fn rows_are_sorted_and_complete(table: TableView)
    requires
        table.keyed(),
        table.members.dom().finite(),
    ensures
        maps::ascending(table.rows().map_values(|m: MemberEntryView| m.addr.silo_id)),
        forall|id: Seq<char>| #[trigger]
            table.members.dom().contains(id) ==> table.rows().contains(table.members[id]),
        forall|i: int|
            0 <= i < table.rows().len() ==> {
                let row = #[trigger] table.rows()[i];
                table.members.dom().contains(row.addr.silo_id) && table.members[row.addr.silo_id]
                    == row
            },
{
    let keys = maps::in_text_order(table.members.dom());
    maps::lemma_text_order_is_complete(table.members.dom());
    assert forall|i: int| 0 <= i < keys.len() implies table.members.dom().contains(
        #[trigger] keys[i],
    ) by {
        assert(keys.contains(keys[i]));
    }
    let ids = table.rows().map_values(|m: MemberEntryView| m.addr.silo_id);
    assert(ids =~= keys) by {
        assert forall|i: int| 0 <= i < keys.len() implies ids[i] == keys[i] by {
            assert(table.members.dom().contains(keys[i]));
        }
    }
    assert forall|id: Seq<char>| #[trigger]
        table.members.dom().contains(id) implies table.rows().contains(table.members[id]) by {
        assert(keys.contains(id));
        let i = keys.index_of(id);
        assert(table.rows()[i] == table.members[id]);
    }
}

proof fn lemma_mapped_contains(
    rows: Seq<MemberEntryView>,
    addr: SiloAddressView,
)
    ensures
        rows.map_values(|m: MemberEntryView| m.addr).contains(addr) <==> (exists|i: int|
            0 <= i < rows.len() && (#[trigger] rows[i]).addr == addr),
{
    let mapped = rows.map_values(|m: MemberEntryView| m.addr);
    if mapped.contains(addr) {
        let i = mapped.index_of(addr);
        assert(rows[i].addr == addr);
    }
    if exists|i: int| 0 <= i < rows.len() && (#[trigger] rows[i]).addr == addr {
        let i = choose|i: int| 0 <= i < rows.len() && (#[trigger] rows[i]).addr == addr;
        assert(mapped[i] == addr);
    }
}

/// A silo is listed as serving exactly when a row says so; one that is joining, suspected
/// or dead is not.
pub proof fn only_active_silos_serve(members: Seq<MemberEntryView>, addr: SiloAddressView)
    ensures
        active_addrs(members).contains(addr) <==> (exists|i: int|
            0 <= i < members.len() && (#[trigger] members[i]).addr == addr && members[i].status
                is Active),
{
    let keep = is_active();
    let rows = members.filter(keep);
    lemma_mapped_contains(rows, addr);
    maps::lemma_filter_distinct(members, keep);
    if active_addrs(members).contains(addr) {
        let i = choose|i: int| 0 <= i < rows.len() && (#[trigger] rows[i]).addr == addr;
        assert(rows.contains(rows[i]));
        let j = members.index_of(rows[i]);
        assert(members[j].addr == addr && members[j].status is Active);
    }
    if exists|i: int|
        0 <= i < members.len() && (#[trigger] members[i]).addr == addr && members[i].status
            is Active {
        let i = choose|i: int|
            0 <= i < members.len() && (#[trigger] members[i]).addr == addr && members[i].status
                is Active;
        members.lemma_filter_contains(keep, i);
        let j = rows.index_of(members[i]);
        assert(rows[j].addr == addr);
    }
}

/// The table after changes, in their order.
pub open spec fn updated_by_all(table: TableView, entries: Seq<MemberEntryView>) -> TableView
    decreases entries.len(),
{
    if entries.len() == 0 {
        table
    } else {
        updated_by_all(table, entries.drop_last()).updated(entries.last())
    }
}

/// Whether changes are about different silos.
pub open spec fn about_different_silos(entries: Seq<MemberEntryView>) -> bool {
    forall|i: int, j: int|
        #![trigger entries[i], entries[j]]
        0 <= i < j < entries.len() ==> entries[i].addr.silo_id != entries[j].addr.silo_id
}

proof fn lemma_updated_by_all(table: TableView, entries: Seq<MemberEntryView>, id: Seq<char>)
    requires
        about_different_silos(entries),
        table.version + entries.len() <= u64::MAX,
    ensures
        ({
            let after = updated_by_all(table, entries);
            &&& after.version == table.version + entries.len()
            &&& forall|i: int|
                0 <= i < entries.len() && (#[trigger] entries[i]).addr.silo_id == id
                    ==> after.members.dom().contains(id) && after.members[id] == entries[i]
            &&& (forall|i: int|
                0 <= i < entries.len() ==> (#[trigger] entries[i]).addr.silo_id != id)
                ==> after.members.dom().contains(id) == table.members.dom().contains(id)
                && after.members[id] == table.members[id]
        }),
    decreases entries.len(),
{
    if entries.len() > 0 {
        let rest = entries.drop_last();
        lemma_updated_by_all(table, rest, id);
        assert(entries.last() == entries[entries.len() - 1]);
        let after = updated_by_all(table, entries);
        assert forall|i: int|
            0 <= i < entries.len() && (#[trigger] entries[i]).addr.silo_id
                == id implies after.members.dom().contains(id) && after.members[id]
            == entries[i] by {
            if i < rest.len() {
                assert(rest[i].addr.silo_id == id);
                assert(entries[i].addr.silo_id != entries[entries.len() - 1].addr.silo_id);
            }
        }
        if forall|i: int|
            0 <= i < entries.len() ==> (#[trigger] entries[i]).addr.silo_id != id {
            assert forall|i: int| 0 <= i < rest.len() implies (#[trigger] rest[i]).addr.silo_id
                != id by {
                assert(entries[i].addr.silo_id != id);
            }
        }
    }
}

/// Two tables that were equal and saw the same changes about different silos, in whatever
/// order, are equal, and so are their views.
pub proof fn same_changes_same_table(
    table: TableView,
    one: Seq<MemberEntryView>,
    other: Seq<MemberEntryView>,
)
    requires
        about_different_silos(one),
        about_different_silos(other),
        one.len() == other.len(),
        forall|e: MemberEntryView| one.contains(e) <==> #[trigger] other.contains(e),
        table.version + one.len() <= u64::MAX,
    ensures
        updated_by_all(table, one) == updated_by_all(table, other),
        updated_by_all(table, one).rows() == updated_by_all(table, other).rows(),
{
    let (a, b) = (updated_by_all(table, one), updated_by_all(table, other));
    assert forall|id: Seq<char>|
        #![trigger a.members.dom().contains(id)]
        #![trigger b.members.dom().contains(id)]
        a.members.dom().contains(id) == b.members.dom().contains(id) && a.members[id]
            == b.members[id] by {
        lemma_updated_by_all(table, one, id);
        lemma_updated_by_all(table, other, id);
        if exists|i: int| 0 <= i < one.len() && (#[trigger] one[i]).addr.silo_id == id {
            let i = choose|i: int| 0 <= i < one.len() && (#[trigger] one[i]).addr.silo_id == id;
            assert(one.contains(one[i]));
            assert(other.contains(one[i]));
            let j = other.index_of(one[i]);
            assert(other[j].addr.silo_id == id);
        } else {
            assert forall|j: int| 0 <= j < other.len() implies (#[trigger] other[j]).addr.silo_id
                != id by {
                assert(other.contains(other[j]));
                assert(one.contains(other[j]));
                let i = one.index_of(other[j]);
                assert(one[i] == other[j]);
            }
        }
    }
    lemma_updated_by_all(table, one, Seq::empty());
    lemma_updated_by_all(table, other, Seq::empty());
    assert(a.members =~= b.members);
}

/// A change is made exactly where the table is at the expected version; else the table stays
/// and the refusal tells both versions.
pub proof fn changes_need_the_current_version(
    table: TableView,
    entry: MemberEntryView,
    expected: u64,
)
    requires
        table.version < u64::MAX,
    ensures
        ({
            let (after, refusal) = table.tried(entry, expected);
            &&& expected == table.version ==> {
                &&& refusal is None
                &&& after.version == expected + 1
                &&& after.members == table.members.insert(entry.addr.silo_id, entry)
            }
            &&& expected != table.version ==> {
                &&& refusal == Some(
                    MembershipErrorView::VersionConflict { expected, actual: table.version },
                )
                &&& after == table
            }
        }),
{
}

/// The row of a silo tells when it was last alive, and the other rows stay; where there is no
/// row, nothing changes.
pub proof fn rows_tell_when_a_silo_was_alive(
    table: TableView,
    silo_id: Seq<char>,
    now: SystemTime,
    other: Seq<char>,
)
    requires
        other != silo_id,
    ensures
        table.members.dom().contains(silo_id) ==> table.alive(silo_id, now).members[silo_id].i_am_alive
            == now,
        !table.members.dom().contains(silo_id) ==> table.alive(silo_id, now) == table,
        table.alive(silo_id, now).members[other] == table.members[other],
{
}

/// Serving silos are listed in the order of their rows: what two lists of rows give together is
/// what one gives and then what the other gives, and a row gives its address or nothing.
pub proof fn serving_silos_keep_their_order(
    one: Seq<MemberEntryView>,
    other: Seq<MemberEntryView>,
    row: MemberEntryView,
)
    ensures
        active_addrs(one + other) == active_addrs(one) + active_addrs(other),
        active_addrs(seq![row]) == (if row.status is Active {
            seq![row.addr]
        } else {
            Seq::empty()
        }),
{
    Seq::filter_distributes_over_add(one, other, is_active());
    assert(active_addrs(one + other) =~= active_addrs(one) + active_addrs(other));
    reveal(Seq::filter);
    assert(seq![row].drop_last() =~= Seq::<MemberEntryView>::empty());
    assert(seq![row].drop_last().filter(is_active()) =~= Seq::<MemberEntryView>::empty());
    assert(active_addrs(seq![row]) =~= (if row.status is Active {
        seq![row.addr]
    } else {
        Seq::empty()
    }));
}

/// The row of a silo is the first one with its identity.
pub proof fn the_first_row_of_a_silo_counts(
    members: Seq<MemberEntryView>,
    silo_id: Seq<char>,
    i: int,
)
    requires
        forall|j: int| 0 <= j < members.len() && j < i ==> (#[trigger] members[j]).addr.silo_id
            != silo_id,
        0 <= i <= members.len(),
        i < members.len() ==> members[i].addr.silo_id == silo_id,
    ensures
        row_of(members, silo_id) == (if i < members.len() {
            Some(members[i])
        } else {
            None
        }),
    decreases members.len(),
{
    if members.len() > 0 && i > 0 {
        assert(members[0].addr.silo_id != silo_id);
        let rest = members.skip(1);
        assert forall|j: int| 0 <= j < rest.len() && j < i - 1 implies (
        #[trigger] rest[j]).addr.silo_id != silo_id by {
            assert(rest[j] == members[j + 1]);
        }
        the_first_row_of_a_silo_counts(rest, silo_id, i - 1);
    }
}

/// A view of a table has its version, and a row for each silo, in the order of identities.
pub proof fn views_show_the_table(view: MembershipView, table: TableView, i: int)
    requires
        shows(view, table),
        0 <= i < table.rows().len(),
    ensures
        view.version == table.version,
        view.members@.len() == table.rows().len(),
        view.members@[i]@ == table.rows()[i],
{
    assert(maps::views(view.members@)[i] == view.members@[i]@);
}

/// What an error tells names the versions, the silo or the reason that it is about.
pub proof fn membership_errors_tell_what_they_are_about(
    about: Seq<char>,
    expected: u64,
    actual: u64,
)
    ensures
        MembershipErrorView::NotFound(about).message() == "member not found: "@ + about,
        MembershipErrorView::Backend(about).message() == "membership backend error: "@ + about,
        (MembershipErrorView::VersionConflict { expected, actual }).message()
            == "membership version conflict: expected "@ + text::decimal(expected as nat)
            + ", table at "@ + text::decimal(actual as nat),
{
}

} // verus!
