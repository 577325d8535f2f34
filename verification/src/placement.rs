//! Which silo a grain is placed on.

use vstd::prelude::*;

use crate::failure_detector::random_below;
use crate::grain;
use crate::grain::join_key;
use crate::hash_ring;
use crate::hash_ring::{HashRing, HashRingView, SiloAddress, SiloAddressView};
use crate::maps;
use crate::maps::Duplicate;
use crate::text::same_text;

verus! {

/// Decides which silo hosts a grain.
pub trait PlacementStrategy {
    /// The silo that should own a grain; none where no silo can.
    fn place(&self, grain_type: &str, grain_key: &str, local_silo_id: &str, ring: &HashRing) -> Option<
        SiloAddress,
    >;
}

/// Places a grain where the ring puts its key.
#[derive(Clone, Copy, Debug, PartialEq, Eq)]
pub struct HashBasedPlacement;

/// Places a grain on the silo that asks.
#[derive(Clone, Copy, Debug, PartialEq, Eq)]
pub struct PreferLocalPlacement;

/// Places a grain on any member, at random.
#[derive(Clone, Copy, Debug, PartialEq, Eq)]
pub struct RandomPlacement;

/// The first member with an identity.
pub open spec fn member_with_id(members: Seq<SiloAddressView>, silo_id: Seq<char>) -> Option<
    SiloAddressView,
>
    decreases members.len(),
{
    if members.len() == 0 {
        None
    } else if members[0].silo_id == silo_id {
        Some(members[0])
    } else {
        member_with_id(members.skip(1), silo_id)
    }
}

/// The first member with an identity.
pub fn find_member(members: &Vec<SiloAddress>, silo_id: &str) -> (found: Option<SiloAddress>)
    ensures
        match found {
            Some(m) => member_with_id(maps::views(members@), silo_id@) == Some(m@),
            None => member_with_id(maps::views(members@), silo_id@) is None,
        },
{
    let ghost all = maps::views(members@);
    let mut i: usize = 0;
    assert(all.skip(0) =~= all);
    while i < members.len()
        invariant
            i <= members.len(),
            all == maps::views(members@),
            member_with_id(all, silo_id@) == member_with_id(all.skip(i as int), silo_id@),
        decreases members.len() - i,
    {
        proof {
            assert(all.skip(i as int)[0] == members@[i as int]@);
            assert(all.skip(i as int).skip(1) =~= all.skip(i + 1));
        }
        if same_text(members[i].silo_id.as_str(), silo_id) {
            return Some(members[i].duplicate());
        }
        i += 1;
    }
    None
}

impl PlacementStrategy for HashBasedPlacement {
    fn place(
        &self,
        grain_type: &str,
        grain_key: &str,
        _local_silo_id: &str,
        ring: &HashRing,
    ) -> (target: Option<SiloAddress>)
        ensures
            match target {
                Some(t) => ring@.owner(grain::joined_key(grain_type@, grain_key@)) == Some(t@),
                None => ring@.owner(grain::joined_key(grain_type@, grain_key@)) is None,
            },
    {
        match ring.get(join_key(grain_type, grain_key).as_str()) {
            Some(target) => Some(target.duplicate()),
            None => None,
        }
    }
}

impl PlacementStrategy for PreferLocalPlacement {
    fn place(
        &self,
        _grain_type: &str,
        _grain_key: &str,
        local_silo_id: &str,
        ring: &HashRing,
    ) -> (target: Option<SiloAddress>)
        ensures
            match target {
                Some(t) => member_with_id(ring@.members(), local_silo_id@) == Some(t@),
                None => member_with_id(ring@.members(), local_silo_id@) is None,
            },
    {
        find_member(&ring.members(), local_silo_id)
    }
}

impl RandomPlacement {
    /// The member at a position.
    pub fn place_at(&self, ring: &HashRing, i: usize) -> (target: Option<SiloAddress>)
        ensures
            match target {
                Some(t) => i < ring@.members().len() && t@ == ring@.members()[i as int],
                None => i >= ring@.members().len(),
            },
    {
        let members = ring.members();
        assert(maps::views(members@).len() == members@.len());
        if i < members.len() {
            assert(maps::views(members@)[i as int] == members@[i as int]@);
            Some(members[i].duplicate())
        } else {
            None
        }
    }
}

impl PlacementStrategy for RandomPlacement {
    fn place(
        &self,
        _grain_type: &str,
        _grain_key: &str,
        _local_silo_id: &str,
        ring: &HashRing,
    ) -> (target: Option<SiloAddress>)
        ensures
            target is None <==> ring@.members().len() == 0,
            target matches Some(t) ==> ring@.members().contains(t@),
    {
        let members = ring.members();
        assert(maps::views(members@).len() == members@.len());
        if members.len() == 0 {
            return None;
        }
        let i: usize = random_below(members.len());
        let target = self.place_at(ring, i);
        assert(ring@.members()[i as int] == target->0@);
        target
    }
}

/// A ring without members is an empty ring.
pub proof fn no_members_on_an_empty_ring_only(ring: HashRingView)
    ensures
        ring.members().len() == 0 <==> ring.is_empty(),
{
    if ring.is_empty() {
        if ring.members().len() > 0 {
            let s = ring.members()[0];
            assert(ring.members().contains(s));
            hash_ring::members_are_those_on_the_ring(ring, s);
        }
    } else {
        hash_ring::owner_is_first_met(ring, Seq::empty());
        let s = ring.slots[ring.owner_slot(Seq::empty())];
        hash_ring::members_are_those_on_the_ring(ring, s);
        assert(ring.members().contains(s));
    }
}

/// A silo on the ring finds itself when it prefers to place grains on itself.
pub proof fn local_placement_finds_the_local_silo(
    members: Seq<SiloAddressView>,
    silo_id: Seq<char>,
)
    ensures
        member_with_id(members, silo_id) is Some <==> (exists|i: int|
            0 <= i < members.len() && (#[trigger] members[i]).silo_id == silo_id),
        member_with_id(members, silo_id) matches Some(m) ==> m.silo_id == silo_id
            && members.contains(m),
    decreases members.len(),
{
    if members.len() > 0 {
        let rest = members.skip(1);
        local_placement_finds_the_local_silo(rest, silo_id);
        if members[0].silo_id != silo_id {
            if exists|i: int| 0 <= i < members.len() && (#[trigger] members[i]).silo_id == silo_id {
                let i = choose|i: int|
                    0 <= i < members.len() && (#[trigger] members[i]).silo_id == silo_id;
                assert(rest[i - 1].silo_id == silo_id);
            }
            if exists|i: int| 0 <= i < rest.len() && (#[trigger] rest[i]).silo_id == silo_id {
                let i = choose|i: int| 0 <= i < rest.len() && (#[trigger] rest[i]).silo_id
                    == silo_id;
                assert(members[i + 1].silo_id == silo_id);
            }
            if let Some(m) = member_with_id(rest, silo_id) {
                let j = rest.index_of(m);
                assert(members[j + 1] == m);
            }
        } else {
            assert(members.contains(members[0]));
        }
    }
}

/// Of several members with one identity the first counts.
pub proof fn the_first_member_with_an_identity_counts(
    members: Seq<SiloAddressView>,
    silo_id: Seq<char>,
    i: int,
)
    requires
        forall|j: int| 0 <= j < members.len() && j < i ==> (#[trigger] members[j]).silo_id
            != silo_id,
        0 <= i <= members.len(),
        i < members.len() ==> members[i].silo_id == silo_id,
    ensures
        member_with_id(members, silo_id) == (if i < members.len() {
            Some(members[i])
        } else {
            None
        }),
    decreases members.len(),
{
    if members.len() > 0 && i > 0 {
        assert(members[0].silo_id != silo_id);
        let rest = members.skip(1);
        assert forall|j: int| 0 <= j < rest.len() && j < i - 1 implies (#[trigger] rest[j]).silo_id
            != silo_id by {
            assert(rest[j] == members[j + 1]);
        }
        the_first_member_with_an_identity_counts(rest, silo_id, i - 1);
    }
}

} // verus!
