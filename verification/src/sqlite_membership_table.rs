//! Rows of the membership table as a relational store keeps them.

use vstd::prelude::*;

use crate::hash_ring::{SiloAddress, SiloAddressView};
use crate::maps;
use crate::membership_table::{
    MemberEntry, MemberEntryView, MembershipError, MembershipErrorView, MembershipStatus,
    MembershipView,
};
use crate::text::{chars_of, same_text};
use crate::time;
use crate::time::{millis_to_systemtime, systemtime_to_millis};

verus! {

/// A stored row: numbers have 64 bits and a sign, lists are one text.
#[derive(Clone, Debug, PartialEq, Eq)]
pub struct MemberRow {
    pub silo_id: String,
    pub host: String,
    pub port: i64,
    pub status: String,
    pub generation: i64,
    pub suspectors: String,
    pub i_am_alive: i64,
}

/// The contents of a [`MemberRow`].
#[verifier::ext_equal]
pub struct MemberRowView {
    pub silo_id: Seq<char>,
    pub host: Seq<char>,
    pub port: i64,
    pub status: Seq<char>,
    pub generation: i64,
    pub suspectors: Seq<char>,
    pub i_am_alive: i64,
}

impl View for MemberRow {
    type V = MemberRowView;

    open spec fn view(&self) -> MemberRowView {
        MemberRowView {
            silo_id: self.silo_id@,
            host: self.host@,
            port: self.port,
            status: self.status@,
            generation: self.generation,
            suspectors: self.suspectors@,
            i_am_alive: self.i_am_alive,
        }
    }
}

/// The name of a status.
pub open spec fn status_name(s: MembershipStatus) -> Seq<char> {
    match s {
        MembershipStatus::Joining => "joining"@,
        MembershipStatus::Active => "active"@,
        MembershipStatus::Suspect => "suspect"@,
        MembershipStatus::Dead => "dead"@,
    }
}

/// The status with a name; an unknown name stands for a dead silo.
pub open spec fn status_named(name: Seq<char>) -> MembershipStatus {
    if name == "joining"@ {
        MembershipStatus::Joining
    } else if name == "active"@ {
        MembershipStatus::Active
    } else if name == "suspect"@ {
        MembershipStatus::Suspect
    } else {
        MembershipStatus::Dead
    }
}

/// The name of a status.
pub fn status_to_str(s: MembershipStatus) -> (name: &'static str)
    ensures
        name@ == status_name(s),
{
    match s {
        MembershipStatus::Joining => "joining",
        MembershipStatus::Active => "active",
        MembershipStatus::Suspect => "suspect",
        MembershipStatus::Dead => "dead",
    }
}

/// The status with a name; an unknown name stands for a dead silo.
pub fn status_from_str(s: &str) -> (status: MembershipStatus)
    ensures
        status == status_named(s@),
{
    if same_text(s, "joining") {
        MembershipStatus::Joining
    } else if same_text(s, "active") {
        MembershipStatus::Active
    } else if same_text(s, "suspect") {
        MembershipStatus::Suspect
    } else {
        MembershipStatus::Dead
    }
}

/// Texts with a line break between each two.
pub open spec fn lines(list: Seq<Seq<char>>) -> Seq<char>
    decreases list.len(),
{
    if list.len() == 0 {
        Seq::empty()
    } else if list.len() == 1 {
        list[0]
    } else {
        lines(list.drop_last()) + seq!['\n'] + list.last()
    }
}

/// The pieces between the line breaks of a text: one more than there are breaks.
pub open spec fn pieces(s: Seq<char>) -> Seq<Seq<char>>
    decreases s.len(),
{
    if s.len() == 0 {
        seq![Seq::empty()]
    } else {
        let before = pieces(s.drop_last());
        if s.last() == '\n' {
            before.push(Seq::empty())
        } else {
            before.drop_last().push(before.last().push(s.last()))
        }
    }
}

/// The texts that a stored list stands for; an empty text stands for none.
pub open spec fn listed(s: Seq<char>) -> Seq<Seq<char>> {
    if s.len() == 0 {
        Seq::empty()
    } else {
        pieces(s)
    }
}

/// The identities of suspecting silos as one text.
pub fn join_suspectors(s: &Vec<String>) -> (joined: String)
    ensures
        joined@ == lines(maps::views(s@)),
{
    let ghost all = maps::views(s@);
    if s.len() == 0 {
        return String::new();
    }
    let mut joined = s[0].clone();
    let mut i: usize = 1;
    proof {
        assert(all.take(1)[0] == s@[0]@);
        assert(lines(all.take(1)) == s@[0]@);
        reveal_strlit("\n");
        assert("\n"@ =~= seq!['\n']);
    }
    while i < s.len()
        invariant
            1 <= i <= s.len(),
            all == maps::views(s@),
            "\n"@ == seq!['\n'],
            joined@ == lines(all.take(i as int)),
        decreases s.len() - i,
    {
        proof {
            assert(all.take(i + 1).drop_last() =~= all.take(i as int));
            assert(all.take(i + 1).last() == s@[i as int]@);
        }
        joined.append("\n");
        joined.append(s[i].as_str());
        i += 1;
    }
    assert(all.take(i as int) =~= all);
    joined
}

proof fn lemma_pieces_nonempty(s: Seq<char>)
    ensures
        pieces(s).len() > 0,
    decreases s.len(),
{
    if s.len() > 0 {
        lemma_pieces_nonempty(s.drop_last());
    }
}

/// The identities of suspecting silos out of one text.
pub fn split_suspectors(s: &str) -> (list: Vec<String>)
    ensures
        maps::views(list@) == listed(s@),
{
    let chars = chars_of(s);
    let mut list: Vec<String> = Vec::new();
    if chars.len() == 0 {
        assert(maps::views(list@) =~= listed(s@));
        return list;
    }
    let mut start: usize = 0;
    let mut i: usize = 0;
    proof {
        assert(s@.take(0) =~= Seq::<char>::empty());
        assert(s@.subrange(0, 0) =~= Seq::<char>::empty());
        assert(maps::views(list@).push(s@.subrange(0, 0)) =~= seq![Seq::<char>::empty()]);
    }
    while i < chars.len()
        invariant
            chars@ == s@,
            start <= i <= chars.len(),
            maps::views(list@).push(s@.subrange(start as int, i as int)) == pieces(
                s@.take(i as int),
            ),
        decreases chars.len() - i,
    {
        let ghost done = maps::views(list@);
        let ghost open = s@.subrange(start as int, i as int);
        proof {
            assert(s@.take(i + 1).drop_last() =~= s@.take(i as int));
            assert(s@.take(i + 1).last() == s@[i as int]);
            assert(done.push(open).drop_last() =~= done);
            assert(done.push(open).last() == open);
        }
        if chars[i] == '\n' {
            let piece = s.substring_char(start, i);
            let ghost before = list@;
            list.push(piece.to_string());
            start = i + 1;
            proof {
                assert(maps::views(list@) =~= done.push(open));
                assert(s@.subrange(i + 1, i + 1) =~= Seq::<char>::empty());
            }
        } else {
            proof {
                assert(s@.subrange(start as int, i + 1) =~= open.push(s@[i as int]));
            }
        }
        i += 1;
    }
    let piece = s.substring_char(start, chars.len());
    let ghost done = maps::views(list@);
    list.push(piece.to_string());
    proof {
        assert(maps::views(list@) =~= done.push(s@.subrange(start as int, s@.len() as int)));
        assert(s@.take(s@.len() as int) =~= s@);
    }
    list
}

/// The row that keeps an entry.
pub open spec fn stored(entry: MemberEntryView) -> MemberRowView {
    MemberRowView {
        silo_id: entry.addr.silo_id,
        host: entry.addr.host,
        port: entry.addr.port as i64,
        status: status_name(entry.status),
        generation: entry.generation as i64,
        suspectors: lines(entry.suspectors),
        i_am_alive: time::unix_millis(entry.i_am_alive),
    }
}

/// The entry that a row keeps. Of the port the low 16 bits count; a generation is taken
/// without its sign.
pub open spec fn restored(row: MemberRowView) -> MemberEntryView {
    MemberEntryView {
        addr: SiloAddressView { host: row.host, port: row.port as u16, silo_id: row.silo_id },
        status: status_named(row.status),
        generation: row.generation as u64,
        suspectors: listed(row.suspectors),
        i_am_alive: time::time_of_millis(row.i_am_alive),
    }
}

/// The row that keeps an entry.
pub fn entry_to_row(entry: &MemberEntry) -> (row: MemberRow)
    ensures
        row@ == stored(entry@),
{
    MemberRow {
        silo_id: entry.addr.silo_id.clone(),
        host: entry.addr.host.clone(),
        port: entry.addr.port as i64,
        status: status_to_str(entry.status).to_string(),
        generation: #[verifier::truncate] (entry.generation as i64),
        suspectors: join_suspectors(&entry.suspectors),
        i_am_alive: systemtime_to_millis(entry.i_am_alive),
    }
}

/// The entry that a row keeps.
pub fn row_to_entry(row: MemberRow) -> (entry: MemberEntry)
    ensures
        entry@ == restored(row@),
{
    MemberEntry {
        addr: SiloAddress {
            host: row.host,
            port: #[verifier::truncate] (row.port as u16),
            silo_id: row.silo_id,
        },
        status: status_from_str(row.status.as_str()),
        generation: #[verifier::truncate] (row.generation as u64),
        suspectors: split_suspectors(row.suspectors.as_str()),
        i_am_alive: millis_to_systemtime(row.i_am_alive),
    }
}

/// Entries out of rows, in their order.
pub open spec fn restored_all(rows: Seq<MemberRowView>) -> Seq<MemberEntryView> {
    rows.map_values(|r: MemberRowView| restored(r))
}

/// The view that a stored version and rows make up. (The store hands the rows out in
/// ascending order of identities.)
pub fn rows_to_view(version: i64, rows: Vec<MemberRow>) -> (view: MembershipView)
    ensures
        view.version == version as u64,
        maps::views(view.members@) == restored_all(maps::views(rows@)),
{
    let mut rows = rows;
    let ghost all = maps::views(rows@);
    let n: usize = rows.len();
    let mut reversed: Vec<MemberEntry> = Vec::new();
    let mut members: Vec<MemberEntry> = Vec::new();
    while rows.len() > 0
        invariant
            rows@.len() + reversed@.len() == n,
            all.len() == n,
            forall|j: int| 0 <= j < rows@.len() ==> (#[trigger] rows@[j])@ == all[j],
            forall|j: int|
                0 <= j < reversed@.len() ==> (#[trigger] reversed@[j])@ == restored(all[n - 1 - j]),
        decreases rows@.len(),
    {
        match rows.pop() {
            Some(row) => {
                reversed.push(row_to_entry(row));
            },
            None => {},
        }
    }
    while reversed.len() > 0
        invariant
            members@.len() + reversed@.len() == n,
            all.len() == n,
            forall|j: int|
                0 <= j < reversed@.len() ==> (#[trigger] reversed@[j])@ == restored(all[n - 1 - j]),
            forall|j: int| 0 <= j < members@.len() ==> (#[trigger] members@[j])@ == restored(all[j]),
        decreases reversed@.len(),
    {
        match reversed.pop() {
            Some(entry) => {
                members.push(entry);
            },
            None => {},
        }
    }
    assert(maps::views(members@) =~= restored_all(all));
    MembershipView { version: #[verifier::truncate] (version as u64), members }
}

/// The error of a change that may not go ahead.
pub open spec fn version_refusal(current: i64, expected: u64) -> Option<MembershipErrorView> {
    if current as u64 == expected {
        None
    } else {
        Some(MembershipErrorView::VersionConflict { expected, actual: current as u64 })
    }
}

/// The error where no row is of the silo that is alive.
pub open spec fn unknown_silo(rows_affected: u64, silo_id: Seq<char>) -> Option<
    MembershipErrorView,
> {
    if rows_affected == 0 {
        Some(MembershipErrorView::NotFound(silo_id))
    } else {
        None
    }
}

/// Whether a change may go ahead: only where the stored version is the expected one.
pub fn check_version(current: i64, expected_version: u64) -> (verdict: Result<
    (),
    MembershipError,
>)
    ensures
        match verdict {
            Ok(()) => current as u64 == expected_version,
            Err(e) => current as u64 != expected_version && e@ == (
            MembershipErrorView::VersionConflict {
                expected: expected_version,
                actual: current as u64,
            }),
        },
        version_refusal(current, expected_version) == (match verdict {
            Ok(()) => None,
            Err(e) => Some(e@),
        }),
{
    let actual: u64 = #[verifier::truncate] (current as u64);
    if actual != expected_version {
        Err(MembershipError::VersionConflict { expected: expected_version, actual })
    } else {
        Ok(())
    }
}

/// What came of noting that a silo is alive: a row was changed, or there is none.
pub fn alive_outcome(rows_affected: u64, silo_id: &str) -> (done: Result<(), MembershipError>)
    ensures
        match done {
            Ok(()) => rows_affected != 0,
            Err(e) => rows_affected == 0 && e@ == MembershipErrorView::NotFound(silo_id@),
        },
        unknown_silo(rows_affected, silo_id@) == (match done {
            Ok(()) => None,
            Err(e) => Some(e@),
        }),
{
    if rows_affected == 0 {
        Err(MembershipError::NotFound(silo_id.to_string()))
    } else {
        Ok(())
    }
}

/// A status survives being stored by name.
pub proof fn statuses_survive_storage(s: MembershipStatus)
    ensures
        status_named(status_name(s)) == s,
{
    reveal_strlit("joining");
    reveal_strlit("active");
    reveal_strlit("suspect");
    reveal_strlit("dead");
    assert("joining"@.len() == 7 && "suspect"@.len() == 7);
    assert("active"@.len() == 6 && "dead"@.len() == 4);
    assert("joining"@[0] == 'j' && "suspect"@[0] == 's');
}

proof fn lemma_pieces_extend(a: Seq<char>, b: Seq<char>)
    requires
        !b.contains('\n'),
    ensures
        pieces(a + b) == pieces(a).drop_last().push(pieces(a).last() + b),
    decreases b.len(),
{
    lemma_pieces_nonempty(a);
    if b.len() == 0 {
        assert(a + b =~= a);
        assert(pieces(a).last() + b =~= pieces(a).last());
        assert(pieces(a) =~= pieces(a).drop_last().push(pieces(a).last()));
    } else {
        let rest = b.drop_last();
        assert(!rest.contains('\n')) by {
            if rest.contains('\n') {
                assert(b[rest.index_of('\n')] == '\n');
            }
        }
        assert(b.last() != '\n') by {
            assert(b.contains(b.last()));
        }
        lemma_pieces_extend(a, rest);
        assert((a + b).drop_last() =~= a + rest);
        assert((a + b).last() == b.last());
        let before = pieces(a + rest);
        assert(before.last() == pieces(a).last() + rest);
        assert(before.drop_last() =~= pieces(a).drop_last());
        assert((pieces(a).last() + rest).push(b.last()) =~= pieces(a).last() + b);
    }
}

proof fn lemma_pieces_of_lines(list: Seq<Seq<char>>)
    requires
        list.len() > 0,
        forall|i: int| 0 <= i < list.len() ==> !(#[trigger] list[i]).contains('\n'),
    ensures
        pieces(lines(list)) == list,
    decreases list.len(),
{
    let empty = Seq::<char>::empty();
    if list.len() == 1 {
        lemma_pieces_extend(empty, list[0]);
        assert(empty + list[0] =~= list[0]);
        assert(pieces(empty) =~= seq![empty]);
        assert(pieces(empty).drop_last() =~= Seq::<Seq<char>>::empty());
        assert(pieces(lines(list)) =~= list);
    } else {
        let rest = list.drop_last();
        assert forall|i: int| 0 <= i < rest.len() implies !(#[trigger] rest[i]).contains('\n') by {
            assert(!list[i].contains('\n'));
        }
        lemma_pieces_of_lines(rest);
        let a = lines(rest) + seq!['\n'];
        assert(a.drop_last() =~= lines(rest));
        assert(a.last() == '\n');
        assert(pieces(a) == rest.push(empty));
        lemma_pieces_extend(a, list.last());
        assert(empty + list.last() =~= list.last());
        assert(pieces(a).drop_last() =~= rest);
        assert(pieces(lines(list)) =~= list);
    }
}

proof fn lemma_lines_empty(list: Seq<Seq<char>>)
    ensures
        lines(list).len() == 0 ==> list.len() == 0 || (list.len() == 1 && list[0].len() == 0),
{
    if list.len() > 1 {
        assert(lines(list).len() >= 1);
    }
}

/// A list of identities survives being stored as one text, where no identity holds a line
/// break; a list of one empty identity is the exception.
pub proof fn suspectors_survive_storage(list: Seq<Seq<char>>)
    requires
        forall|i: int| 0 <= i < list.len() ==> !(#[trigger] list[i]).contains('\n'),
        !(list.len() == 1 && list[0].len() == 0),
    ensures
        listed(lines(list)) == list,
{
    lemma_lines_empty(list);
    if list.len() > 0 {
        lemma_pieces_of_lines(list);
    } else {
        assert(listed(lines(list)) =~= list);
    }
}

/// An entry survives being stored, but for its time of being alive, which is kept in whole
/// milliseconds.
pub proof fn entries_survive_storage(entry: MemberEntryView)
    requires
        forall|i: int|
            0 <= i < entry.suspectors.len() ==> !(#[trigger] entry.suspectors[i]).contains('\n'),
        !(entry.suspectors.len() == 1 && entry.suspectors[0].len() == 0),
    ensures
        restored(stored(entry)) == (MemberEntryView {
            i_am_alive: time::time_of_millis(time::unix_millis(entry.i_am_alive)),
            ..entry
        }),
{
    statuses_survive_storage(entry.status);
    suspectors_survive_storage(entry.suspectors);
    let g: u64 = entry.generation;
    let p: u16 = entry.addr.port;
    assert((g as i64) as u64 == g) by (bit_vector);
    assert((p as i64) as u16 == p) by (bit_vector);
}

/// A row holds what an entry holds, each field in the column of its name; the time of being
/// alive is in milliseconds.
pub proof fn columns_hold_the_fields(entry: MemberEntryView)
    requires
        0 <= entry.i_am_alive.unix_nanos,
        entry.i_am_alive.unix_nanos < i64::MAX * 1_000_000,
    ensures
        ({
            let row = stored(entry);
            let alive = entry.i_am_alive.unix_nanos;
            &&& row.silo_id == entry.addr.silo_id
            &&& row.host == entry.addr.host
            &&& row.port == entry.addr.port
            &&& entry.generation <= i64::MAX ==> row.generation == entry.generation
            &&& row.i_am_alive * 1_000_000 <= alive < (row.i_am_alive + 1) * 1_000_000
        }),
{
}

/// An entry holds what a row holds, where its numbers are in range; a name that is no status
/// stands for a dead silo.
pub proof fn fields_hold_the_columns(row: MemberRowView)
    requires
        0 <= row.port <= u16::MAX,
        0 <= row.generation,
        0 <= row.i_am_alive,
    ensures
        ({
            let entry = restored(row);
            &&& entry.addr.silo_id == row.silo_id
            &&& entry.addr.host == row.host
            &&& entry.addr.port == row.port
            &&& entry.generation == row.generation
            &&& entry.i_am_alive.unix_nanos == row.i_am_alive * 1_000_000
            &&& row.status == "joining"@ ==> entry.status is Joining
            &&& row.status == "active"@ ==> entry.status is Active
            &&& row.status == "suspect"@ ==> entry.status is Suspect
            &&& row.status == "dead"@ ==> entry.status is Dead
            &&& row.status != "joining"@ && row.status != "active"@ && row.status != "suspect"@
                ==> entry.status is Dead
        }),
{
    statuses_survive_storage(MembershipStatus::Joining);
    statuses_survive_storage(MembershipStatus::Active);
    statuses_survive_storage(MembershipStatus::Suspect);
    statuses_survive_storage(MembershipStatus::Dead);
}

/// Identities are stored one to a line, in their order.
pub proof fn identities_are_stored_line_by_line(list: Seq<Seq<char>>, last: Seq<char>)
    ensures
        lines(Seq::empty()) == Seq::<char>::empty(),
        lines(seq![last]) == last,
        list.len() > 0 ==> lines(list.push(last)) == lines(list) + seq!['\n'] + last,
        listed(Seq::empty()) == Seq::<Seq<char>>::empty(),
{
    assert(list.push(last).drop_last() =~= list);
    if list.len() > 0 {
        assert(list.push(last).len() > 1);
    }
}

/// A change goes ahead exactly where the stored version is the expected one, and noting that a
/// silo is alive fails exactly where no row is of it; the refusals tell the versions or the silo.
pub proof fn storage_refusals_say_why(
    current: i64,
    expected: u64,
    rows_affected: u64,
    silo_id: Seq<char>,
)
    requires
        current >= 0,
    ensures
        version_refusal(current, expected) is None <==> current == expected,
        version_refusal(current, expected) matches Some(e) ==> (e matches
            MembershipErrorView::VersionConflict { expected: wanted, actual } && wanted == expected
            && actual == current),
        unknown_silo(rows_affected, silo_id) is None <==> rows_affected > 0,
        unknown_silo(rows_affected, silo_id) matches Some(e) ==> e
            == MembershipErrorView::NotFound(silo_id),
{
}

/// Rows are read in their order.
pub proof fn rows_are_read_in_order(rows: Seq<MemberRowView>, i: int)
    requires
        0 <= i < rows.len(),
    ensures
        restored_all(rows).len() == rows.len(),
        restored_all(rows)[i] == restored(rows[i]),
{
}

} // verus!
