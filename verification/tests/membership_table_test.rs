use orlando_cluster::membership_table::MembershipView;
use orlando_cluster::sqlite_membership_table::{
    alive_outcome, check_version, entry_to_row, join_suspectors, row_to_entry, rows_to_view,
    split_suspectors, status_from_str, status_to_str, MemberRow,
};
use orlando_cluster::time::{millis_to_systemtime, systemtime_to_millis, SystemTime};
use orlando_cluster::{
    InMemoryMembershipTable, MemberEntry, MembershipError, MembershipStatus, MembershipTable,
    SiloAddress,
};

fn addr(id: &str) -> SiloAddress {
    SiloAddress { host: "127.0.0.1".into(), port: 7000, silo_id: id.into() }
}

fn active(id: &str, generation: u64) -> MemberEntry {
    MemberEntry {
        addr: addr(id),
        status: MembershipStatus::Active,
        generation,
        suspectors: Vec::new(),
        i_am_alive: SystemTime::now(),
    }
}

#[test]
fn empty_table_starts_at_version_zero() {
    let table = InMemoryMembershipTable::new();
    let view = table.read_all().unwrap();
    assert_eq!(view.version, 0);
    assert!(view.members.is_empty());
}

#[test]
fn membership_table_try_update_inserts_and_bumps_version() {
    let mut table = InMemoryMembershipTable::new();
    let view = table.try_update(active("silo-a", 1), 0).unwrap();
    assert_eq!(view.version, 1);
    assert_eq!(view.members.len(), 1);
    assert_eq!(view.member("silo-a").unwrap().generation, 1);
}

#[test]
fn stale_expected_version_conflicts() {
    let mut table = InMemoryMembershipTable::new();
    table.try_update(active("silo-a", 1), 0).unwrap();
    let err = table.try_update(active("silo-b", 1), 0).unwrap_err();
    assert_eq!(err, MembershipError::VersionConflict { expected: 0, actual: 1 });
}

#[test]
fn conflicting_writer_succeeds_after_reread() {
    let mut table = InMemoryMembershipTable::new();
    table.try_update(active("silo-a", 1), 0).unwrap();
    assert!(table.try_update(active("silo-b", 1), 0).is_err());
    let current: u64 = table.read_all().unwrap().version;
    let view = table.try_update(active("silo-b", 1), current).unwrap();
    assert_eq!(view.version, 2);
    assert_eq!(view.members.len(), 2);
}

#[test]
fn version_is_strictly_monotonic_and_replaces_in_place() {
    let mut table = InMemoryMembershipTable::new();
    let mut v: u64 = 0;
    for g in 1..=3 {
        v = table.try_update(active("silo-a", g), v).unwrap().version;
    }
    assert_eq!(v, 3);
    let view = table.read_all().unwrap();
    assert_eq!(view.members.len(), 1);
    assert_eq!(view.member("silo-a").unwrap().generation, 3);
}

#[test]
fn two_tables_fed_same_updates_agree() {
    let (mut t1, mut t2) = (InMemoryMembershipTable::new(), InMemoryMembershipTable::new());
    for (id, g) in [("silo-c", 3u64), ("silo-a", 1), ("silo-b", 2)] {
        let entry = active(id, g);
        let v1: u64 = t1.read_all().unwrap().version;
        t1.try_update(entry.clone(), v1).unwrap();
        let v2: u64 = t2.read_all().unwrap().version;
        t2.try_update(entry, v2).unwrap();
    }
    let view1 = t1.read_all().unwrap();
    let view2 = t2.read_all().unwrap();
    assert_eq!(view1, view2);
    let ids: Vec<_> = view1.members.iter().map(|m| m.addr.silo_id.as_str()).collect();
    assert_eq!(ids, ["silo-a", "silo-b", "silo-c"]);
    assert_eq!(view1.active_silos().len(), 3);
}

#[test]
fn tables_agree_whatever_the_order_of_changes() {
    let entries = vec![active("silo-a", 1), active("silo-b", 2), active("silo-c", 3)];
    let (mut t1, mut t2) = (InMemoryMembershipTable::new(), InMemoryMembershipTable::new());
    for (i, entry) in entries.iter().enumerate() {
        t1.try_update(entry.clone(), i as u64).unwrap();
    }
    for (i, entry) in entries.iter().rev().enumerate() {
        t2.try_update(entry.clone(), i as u64).unwrap();
    }
    assert_eq!(t1.read_all().unwrap(), t2.read_all().unwrap());
}

#[test]
fn membership_table_i_am_alive_does_not_bump_version() {
    let mut table = InMemoryMembershipTable::new();
    table.try_update(active("silo-a", 1), 0).unwrap();
    table.update_i_am_alive("silo-a").unwrap();
    assert_eq!(table.read_all().unwrap().version, 1, "I-am-alive is diagnostic only");
    let err = table.update_i_am_alive("ghost").unwrap_err();
    assert_eq!(err, MembershipError::NotFound("ghost".into()));
}

#[test]
fn status_transition_to_dead_is_recorded() {
    let mut table = InMemoryMembershipTable::new();
    let mut v: u64 = table.try_update(active("silo-a", 1), 0).unwrap().version;
    let mut dead = active("silo-a", 1);
    dead.status = MembershipStatus::Dead;
    v = table.try_update(dead, v).unwrap().version;
    assert_eq!(v, 2);
    let view = table.read_all().unwrap();
    assert_eq!(view.member("silo-a").unwrap().status, MembershipStatus::Dead);
    assert!(view.active_silos().is_empty(), "dead silo is not active");
}

#[test]
fn being_alive_sets_the_time() {
    let mut table = InMemoryMembershipTable::new();
    table.try_update(active("silo-a", 1), 0).unwrap();
    let then = millis_to_systemtime(5_000);
    table.update_i_am_alive_at("silo-a", then).unwrap();
    assert_eq!(table.read_all().unwrap().member("silo-a").unwrap().i_am_alive, then);
}

#[test]
fn a_joining_entry_is_fresh() {
    let before = systemtime_to_millis(SystemTime::now());
    let entry = MemberEntry::joining(addr("silo-a"), 7);
    assert_eq!(entry.status, MembershipStatus::Joining);
    assert_eq!(entry.generation, 7);
    assert!(entry.suspectors.is_empty());
    assert!(systemtime_to_millis(entry.i_am_alive) >= before);
    assert!(before > 1_600_000_000_000);
}

#[test]
fn only_active_rows_serve() {
    let mut members: Vec<MemberEntry> = Vec::new();
    for (id, status) in [
        ("a", MembershipStatus::Joining),
        ("b", MembershipStatus::Active),
        ("c", MembershipStatus::Suspect),
        ("d", MembershipStatus::Dead),
    ] {
        let mut entry = active(id, 1);
        entry.status = status;
        members.push(entry);
    }
    let view = MembershipView { version: 4, members };
    assert_eq!(view.active_silos(), vec![addr("b")]);
    assert!(view.member("e").is_none());
}

#[test]
fn membership_errors_have_texts() {
    let conflict = MembershipError::VersionConflict { expected: 3, actual: 12 };
    let text = conflict.to_string();
    assert!(text.contains('3') && text.contains("12"), "{}", text);
    assert!(MembershipError::NotFound("ghost".into()).to_string().contains("ghost"));
    assert!(MembershipError::Backend("disk full".into()).to_string().contains("disk full"));
}

#[test]
fn statuses_survive_a_row() {
    for status in [
        MembershipStatus::Joining,
        MembershipStatus::Active,
        MembershipStatus::Suspect,
        MembershipStatus::Dead,
    ] {
        assert_eq!(status_from_str(status_to_str(status)), status);
    }
    assert_eq!(status_to_str(MembershipStatus::Suspect), "suspect");
    assert_eq!(status_from_str("unheard of"), MembershipStatus::Dead);
}

#[test]
fn suspectors_survive_a_row() {
    let list = vec!["silo-b".to_string(), "silo-c".to_string()];
    assert_eq!(join_suspectors(&list), "silo-b\nsilo-c");
    assert_eq!(split_suspectors("silo-b\nsilo-c"), list);
    assert!(split_suspectors("").is_empty());
    assert_eq!(join_suspectors(&Vec::new()), "");
    assert_eq!(split_suspectors("a\n"), vec!["a".to_string(), String::new()]);
}

#[test]
fn entries_survive_a_row() {
    let mut entry = active("silo-a", 1);
    entry.status = MembershipStatus::Suspect;
    entry.suspectors = vec!["silo-b".into(), "silo-c".into()];
    entry.i_am_alive = millis_to_systemtime(1_000);
    let row = entry_to_row(&entry);
    assert_eq!(row.port, 7000);
    assert_eq!(row.i_am_alive, 1_000);
    assert_eq!(row_to_entry(row), entry);
}

#[test]
fn rows_make_a_view() {
    let rows: Vec<MemberRow> =
        ["silo-a", "silo-b"].iter().map(|id| entry_to_row(&active(id, 2))).collect();
    let view = rows_to_view(5, rows);
    assert_eq!(view.version, 5);
    assert_eq!(view.members.len(), 2);
    assert_eq!(view.member("silo-b").unwrap().generation, 2);
    assert_eq!(view.member("silo-b").unwrap().addr.port, 7000);
}

#[test]
fn stored_versions_are_compared() {
    assert_eq!(check_version(1, 1), Ok(()));
    assert_eq!(
        check_version(1, 0),
        Err(MembershipError::VersionConflict { expected: 0, actual: 1 })
    );
    assert_eq!(alive_outcome(1, "silo-a"), Ok(()));
    assert_eq!(alive_outcome(0, "ghost"), Err(MembershipError::NotFound("ghost".into())));
}

#[test]
fn times_before_the_epoch_are_cut_off() {
    assert_eq!(systemtime_to_millis(SystemTime { unix_nanos: -5 }), 0);
    assert_eq!(millis_to_systemtime(-5), SystemTime { unix_nanos: 0 });
    assert_eq!(systemtime_to_millis(millis_to_systemtime(1_234)), 1_234);
    assert_eq!(systemtime_to_millis(SystemTime { unix_nanos: 1_999_999 }), 1);
}

#[test]
fn clock_readings_lie_around_the_epoch() {
    assert_eq!(SystemTime::at_reading(Ok(7)), SystemTime { unix_nanos: 7 });
    assert_eq!(SystemTime::at_reading(Err(7)), SystemTime { unix_nanos: -7 });
}
