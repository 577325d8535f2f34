//! Consistent hashing: silos own arcs of a ring of 64-bit positions.

use vstd::prelude::*;
use vstd::utf8::*;

use crate::maps;
use crate::maps::{Duplicate, NumMap};
use crate::text;
use crate::text::{push_decimal, same_text};

verus! {

/// Where a silo is reached, and the identity it joined the cluster under.
#[derive(Clone, Debug, PartialEq, Eq, Hash)]
pub struct SiloAddress {
    pub host: String,
    pub port: u16,
    pub silo_id: String,
}

/// The contents of a [`SiloAddress`].
#[verifier::ext_equal]
pub struct SiloAddressView {
    pub host: Seq<char>,
    pub port: u16,
    pub silo_id: Seq<char>,
}

impl View for SiloAddress {
    type V = SiloAddressView;

    open spec fn view(&self) -> SiloAddressView {
        SiloAddressView { host: self.host@, port: self.port, silo_id: self.silo_id@ }
    }
}

impl Duplicate for SiloAddress {
    fn duplicate(&self) -> (copy: Self) {
        SiloAddress {
            host: self.host.clone(),
            port: self.port,
            silo_id: self.silo_id.clone(),
        }
    }
}

impl SiloAddressView {
    /// The address as `host:port`.
    pub open spec fn endpoint(self) -> Seq<char> {
        endpoint_text(self.host, self.port)
    }
}

/// A host and a port as `host:port`.
pub open spec fn endpoint_text(host: Seq<char>, port: u16) -> Seq<char> {
    host + seq![':'] + text::decimal(port as nat)
}

impl SiloAddress {
    /// The address as `host:port`.
    pub fn endpoint(&self) -> (endpoint: String)
        ensures
            endpoint@ == self@.endpoint(),
    {
        endpoint_of(self.host.as_str(), self.port)
    }

    /// Whether two addresses agree in every field.
    pub fn same(&self, other: &SiloAddress) -> (yes: bool)
        ensures
            yes == (self@ == other@),
    {
        self.port == other.port && same_text(self.host.as_str(), other.host.as_str()) && same_text(
            self.silo_id.as_str(),
            other.silo_id.as_str(),
        )
    }
}

/// A host and a port as `host:port`.
pub fn endpoint_of(host: &str, port: u16) -> (endpoint: String)
    ensures
        endpoint@ == endpoint_text(host@, port),
{
    let mut out = host.to_string();
    out.append(":");
    push_decimal(&mut out, port as u64);
    proof {
        reveal_strlit(":");
        assert(":"@ =~= seq![':']);
    }
    out
}

/// The offset basis of 64-bit FNV-1a.
pub const FNV_OFFSET: u64 = 0xcbf2_9ce4_8422_2325;

/// The prime of 64-bit FNV-1a.
pub const FNV_PRIME: u64 = 0x0000_0100_0000_01b3;

/// The 64-bit FNV-1a hash of a sequence of bytes.
pub open spec fn fnv1a(bytes: Seq<u8>) -> u64
    decreases bytes.len(),
{
    if bytes.len() == 0 {
        FNV_OFFSET
    } else {
        (fnv1a(bytes.drop_last()) ^ (bytes.last() as u64)).wrapping_mul(FNV_PRIME)
    }
}

/// The hash of a string: the 64-bit FNV-1a hash of its UTF-8 bytes.
pub open spec fn hash_of(key: Seq<char>) -> u64 {
    fnv1a(encode_utf8(key))
}

/// A hash taken through one more step of FNV-1a. The hashes of strings that differ only in their
/// last character lie close together, such as those of a silo's node labels, or of grains that
/// are numbered; a further step moves them apart on the ring.
pub open spec fn spread(hash: u64) -> u64 {
    (hash ^ 0xff).wrapping_mul(FNV_PRIME)
}

/// The place of a string on the ring.
pub open spec fn place_of(key: Seq<char>) -> u64 {
    spread(hash_of(key))
}

/// The 64-bit FNV-1a hash of a string's UTF-8 bytes.
pub fn hash_key(key: &str) -> (hash: u64)
    ensures
        hash == hash_of(key@),
{
    let bytes = key.as_bytes();
    let mut hash: u64 = FNV_OFFSET;
    let mut i: usize = 0;
    assert(bytes@.take(0) =~= Seq::<u8>::empty());
    while i < bytes.len()
        invariant
            i <= bytes.len(),
            hash == fnv1a(bytes@.take(i as int)),
        decreases bytes.len() - i,
    {
        proof {
            assert(bytes@.take(i + 1).drop_last() =~= bytes@.take(i as int));
            assert(bytes@.take(i + 1).last() == bytes@[i as int]);
        }
        hash = (hash ^ (bytes[i] as u64)).wrapping_mul(FNV_PRIME);
        i += 1;
    }
    assert(bytes@.take(i as int) =~= bytes@);
    hash
}

/// The place of a string on the ring.
pub fn ring_place(key: &str) -> (place: u64)
    ensures
        place == place_of(key@),
{
    (hash_key(key) ^ 0xff).wrapping_mul(FNV_PRIME)
}

/// The label of a silo's virtual node with the given number.
pub open spec fn node_label(silo_id: Seq<char>, i: nat) -> Seq<char> {
    silo_id + seq![':'] + text::decimal(i)
}

/// The position of a silo's virtual node with the given number.
pub open spec fn node_position(silo_id: Seq<char>, i: nat) -> u64 {
    place_of(node_label(silo_id, i))
}

/// Every position that a silo takes on a ring with that many virtual nodes.
pub open spec fn positions_of(silo_id: Seq<char>, virtual_nodes: nat) -> Set<u64> {
    Set::new(|p: u64| exists|i: nat| i < virtual_nodes && p == #[trigger] node_position(silo_id, i))
}

/// Steps from one position forward to another, around the ring.
pub open spec fn clockwise(from: u64, to: u64) -> int {
    if to >= from {
        to - from
    } else {
        to - from + 0x1_0000_0000_0000_0000
    }
}

/// Whether a position is the taken one met first when walking forward from `from`.
pub open spec fn first_taken(taken: Set<u64>, from: u64, p: u64) -> bool {
    taken.contains(p) && (forall|q: u64| #[trigger]
        taken.contains(q) ==> clockwise(from, p) <= clockwise(from, q))
}

/// The elements of a sequence, each where it first occurs.
pub open spec fn distinct<A>(s: Seq<A>) -> Seq<A>
    decreases s.len(),
{
    if s.len() == 0 {
        s
    } else if s.drop_last().contains(s.last()) {
        distinct(s.drop_last())
    } else {
        distinct(s.drop_last()).push(s.last())
    }
}

/// Removing repetitions keeps every element and leaves each once.
pub proof fn distinct_keeps_each_once<A>(s: Seq<A>)
    ensures
        distinct(s).no_duplicates(),
        forall|a: A|
            #![trigger distinct(s).contains(a)]
            #![trigger s.contains(a)]
            distinct(s).contains(a) <==> s.contains(a),
    decreases s.len(),
{
    if s.len() > 0 {
        let t = s.drop_last();
        distinct_keeps_each_once(t);
        assert(s =~= t.push(s.last()));
        assert forall|a: A| distinct(s).contains(a) <==> s.contains(a) by {
            if s.contains(a) {
                let i = s.index_of(a);
                assert(s[i] == a);
                if i < t.len() {
                    assert(t[i] == a);
                    assert(distinct(t).contains(a));
                }
                if !t.contains(s.last()) {
                    let d = distinct(t);
                    if d.contains(a) {
                        assert(d.push(s.last())[d.index_of(a)] == a);
                    } else {
                        assert(d.push(s.last())[d.len() as int] == a);
                    }
                }
            }
            if distinct(s).contains(a) {
                let i = distinct(s).index_of(a);
                assert(distinct(s)[i] == a);
                if t.contains(s.last()) || i < distinct(t).len() {
                    assert(distinct(t)[i] == a);
                    assert(distinct(t).contains(a));
                    let j = t.index_of(a);
                    assert(s[j] == a);
                } else {
                    assert(s[s.len() - 1] == a);
                }
            }
        }
        if !t.contains(s.last()) {
            assert(!distinct(t).contains(s.last()));
            assert forall|i: int, j: int|
                0 <= i < distinct(s).len() && 0 <= j < distinct(s).len() && i != j implies distinct(
                s,
            )[i] != distinct(s)[j] by {
                let d = distinct(t);
                if i == d.len() {
                    assert(d.contains(d[j]));
                } else if j == d.len() {
                    assert(d.contains(d[i]));
                }
            }
        }
    }
}

/// The contents of a [`HashRing`]: which silo holds each taken position.
#[verifier::ext_equal]
pub struct HashRingView {
    pub slots: Map<u64, SiloAddressView>,
    pub virtual_nodes: u32,
}

impl HashRingView {
    /// The positions that a silo takes on this ring.
    pub open spec fn positions(self, silo_id: Seq<char>) -> Set<u64> {
        positions_of(silo_id, self.virtual_nodes as nat)
    }

    /// Whether each silo stands only where its identity puts it.
    pub open spec fn placed(self) -> bool {
        forall|p: u64| #[trigger]
            self.slots.dom().contains(p) ==> self.positions(self.slots[p].silo_id).contains(p)
    }

    /// The ring with a silo at each of its positions.
    pub open spec fn with(self, silo: SiloAddressView) -> HashRingView {
        HashRingView {
            slots: Map::new(
                |p: u64|
                    self.slots.dom().contains(p) || self.positions(silo.silo_id).contains(p),
                |p: u64|
                    if self.positions(silo.silo_id).contains(p) {
                        silo
                    } else {
                        self.slots[p]
                    },
            ),
            virtual_nodes: self.virtual_nodes,
        }
    }

    /// The ring with a silo's positions freed.
    pub open spec fn without(self, silo_id: Seq<char>) -> HashRingView {
        HashRingView {
            slots: Map::new(
                |p: u64| self.slots.dom().contains(p) && !self.positions(silo_id).contains(p),
                |p: u64| self.slots[p],
            ),
            virtual_nodes: self.virtual_nodes,
        }
    }

    pub open spec fn is_empty(self) -> bool {
        self.slots.dom() == Set::<u64>::empty()
    }

    /// The taken position that is responsible for a key.
    pub open spec fn owner_slot(self, key: Seq<char>) -> u64 {
        choose|p: u64| first_taken(self.slots.dom(), place_of(key), p)
    }

    /// The silo that is responsible for a key, on a ring that is not empty.
    pub open spec fn owner(self, key: Seq<char>) -> Option<SiloAddressView> {
        if self.is_empty() {
            None
        } else {
            Some(self.slots[self.owner_slot(key)])
        }
    }

    /// The silos on the ring in the order of their first positions.
    pub open spec fn members(self) -> Seq<SiloAddressView> {
        distinct(self.slot_values())
    }

    /// The identities of the silos on the ring.
    pub open spec fn silo_ids(self) -> Set<Seq<char>> {
        Set::new(
            |id: Seq<char>|
                exists|s: SiloAddressView| #[trigger] self.members().contains(s) && s.silo_id == id,
        )
    }

    /// What stands at each taken position, in ascending order of positions.
    pub open spec fn slot_values(self) -> Seq<SiloAddressView> {
        maps::in_number_order(self.slots.dom()).map_values(|p: u64| self.slots[p])
    }
}

/// At most one position is met first.
pub proof fn lemma_first_taken_unique(taken: Set<u64>, from: u64, p: u64, q: u64)
    requires
        first_taken(taken, from, p),
        first_taken(taken, from, q),
    ensures
        p == q,
{
    assert(clockwise(from, p) <= clockwise(from, q));
    assert(clockwise(from, q) <= clockwise(from, p));
}

/// A ring of positions with the silos that hold them.
#[derive(Debug, PartialEq, Eq)]
pub struct HashRing {
    ring: NumMap<SiloAddress>,
    virtual_nodes: u32,
}

impl View for HashRing {
    type V = HashRingView;

    closed spec fn view(&self) -> HashRingView {
        HashRingView { slots: self.ring@, virtual_nodes: self.virtual_nodes }
    }
}

impl Clone for HashRing {
    fn clone(&self) -> (copy: Self)
        ensures
            copy@ == self@,
    {
        self.duplicate()
    }
}

impl Duplicate for HashRing {
    fn duplicate(&self) -> (copy: Self) {
        proof {
            use_type_invariant(self);
        }
        HashRing { ring: self.ring.duplicate(), virtual_nodes: self.virtual_nodes }
    }
}

fn node_text(silo_id: &str, i: u32) -> (out: String)
    ensures
        out@ == node_label(silo_id@, i as nat),
{
    let mut out = silo_id.to_string();
    out.append(":");
    push_decimal(&mut out, i as u64);
    proof {
        reveal_strlit(":");
        assert(":"@ =~= seq![':']);
    }
    out
}

proof fn lemma_positions_step(silo_id: Seq<char>, i: nat)
    ensures
        positions_of(silo_id, i + 1) == positions_of(silo_id, i).insert(node_position(silo_id, i)),
{
    let a = positions_of(silo_id, i + 1);
    let b = positions_of(silo_id, i).insert(node_position(silo_id, i));
    assert forall|p: u64| a.contains(p) <==> b.contains(p) by {
        if a.contains(p) {
            let j = choose|j: nat| j < i + 1 && p == #[trigger] node_position(silo_id, j);
            if j < i {
                assert(positions_of(silo_id, i).contains(p));
            }
        }
        if b.contains(p) {
            if p == node_position(silo_id, i) {
                assert(i < i + 1);
            } else {
                let j = choose|j: nat| j < i && p == #[trigger] node_position(silo_id, j);
                assert(j < i + 1);
            }
        }
    }
    assert(a =~= b);
}

impl HashRing {
    #[verifier::type_invariant]
    spec fn well_placed(self) -> bool {
        self@.placed()
    }

    /// An empty ring on which each silo will take that many positions.
    pub fn new(virtual_nodes: u32) -> (ring: HashRing)
        ensures
            ring@ == (HashRingView { slots: Map::empty(), virtual_nodes }),
    {
        HashRing { ring: NumMap::new(), virtual_nodes }
    }

    /// Puts a silo on the ring, at each of its positions.
    pub fn add(&mut self, silo: SiloAddress)
        ensures
            final(self)@ == old(self)@.with(silo@),
    {
        proof {
            use_type_invariant(&*self);
        }
        let n: u32 = self.virtual_nodes;
        let ghost before = self@;
        let mut whole = HashRing::new(n);
        std::mem::swap(&mut whole, self);
        let HashRing { ring: mut ring, virtual_nodes: _ } = whole;
        let mut i: u32 = 0;
        assert(ring@ =~= HashRingView { slots: before.slots, virtual_nodes: 0 }.with(silo@).slots);
        while i < n
            invariant
                i <= n,
                ring@ == (HashRingView { slots: before.slots, virtual_nodes: i }).with(silo@).slots,
            decreases n - i,
        {
            let label = node_text(silo.silo_id.as_str(), i);
            let key: u64 = ring_place(label.as_str());
            ring.insert(key, silo.duplicate());
            proof {
                lemma_positions_step(silo.silo_id@, i as nat);
                let next = HashRingView { slots: before.slots, virtual_nodes: (i + 1) as u32 };
                assert(key == node_position(silo.silo_id@, i as nat));
                assert(ring@ =~= next.with(silo@).slots);
            }
            i += 1;
        }
        proof {
            assert(ring@ == before.with(silo@).slots);
            let after = HashRingView { slots: ring@, virtual_nodes: n };
            assert(after.placed()) by {
                assert forall|p: u64| #[trigger] after.slots.dom().contains(p) implies after.positions(
                    after.slots[p].silo_id,
                ).contains(p) by {
                    if !before.positions(silo@.silo_id).contains(p) {
                        assert(before.slots.dom().contains(p));
                    }
                }
            }
        }
        *self = HashRing { ring, virtual_nodes: n };
    }

    /// Frees every position that belongs to a silo's identity: no key maps to it any more.
    pub fn remove(&mut self, silo: &SiloAddress)
        ensures
            final(self)@ == old(self)@.without(silo@.silo_id),
            forall|key: Seq<char>|
                match #[trigger] final(self)@.owner(key) {
                    Some(owner) => owner.silo_id != silo@.silo_id,
                    None => true,
                },
    {
        proof {
            use_type_invariant(&*self);
        }
        let n: u32 = self.virtual_nodes;
        let ghost before = self@;
        let mut whole = HashRing::new(n);
        std::mem::swap(&mut whole, self);
        let HashRing { ring: mut ring, virtual_nodes: _ } = whole;
        let mut i: u32 = 0;
        assert(ring@ =~= HashRingView { slots: before.slots, virtual_nodes: 0 }.without(
            silo@.silo_id,
        ).slots);
        while i < n
            invariant
                i <= n,
                ring@ == (HashRingView { slots: before.slots, virtual_nodes: i }).without(
                    silo@.silo_id,
                ).slots,
            decreases n - i,
        {
            let label = node_text(silo.silo_id.as_str(), i);
            let key: u64 = ring_place(label.as_str());
            ring.remove(key);
            proof {
                lemma_positions_step(silo.silo_id@, i as nat);
                let next = HashRingView { slots: before.slots, virtual_nodes: (i + 1) as u32 };
                assert(key == node_position(silo.silo_id@, i as nat));
                assert(ring@ =~= next.without(silo@.silo_id).slots);
            }
            i += 1;
        }
        proof {
            let after = HashRingView { slots: ring@, virtual_nodes: n };
            assert(after == before.without(silo@.silo_id));
            assert(after.placed()) by {
                assert forall|p: u64| #[trigger] after.slots.dom().contains(p) implies after.positions(
                    after.slots[p].silo_id,
                ).contains(p) by {
                    assert(before.slots.dom().contains(p));
                }
            }
            removed_silo_owns_nothing(before, silo@.silo_id);
        }
        *self = HashRing { ring, virtual_nodes: n };
    }

    /// The silo responsible for a key; none where the ring is empty.
    pub fn get(&self, grain_key: &str) -> (owner: Option<&SiloAddress>)
        ensures
            match owner {
                Some(silo) => self@.owner(grain_key@) == Some(silo@),
                None => self@.owner(grain_key@) is None,
            },
    {
        let n: usize = self.ring.len();
        if n == 0 {
            assert(self@.slots.dom() =~= Set::<u64>::empty());
            return None;
        }
        let key: u64 = ring_place(grain_key);
        let p: usize = self.ring.position(key);
        let slot: usize = if p < n {
            p
        } else {
            0
        };
        proof {
            let ks = self.ring.key_seq();
            let taken = self@.slots.dom();
            let chosen = ks[slot as int];
            assert(taken.contains(chosen));
            assert forall|q: u64| #[trigger] taken.contains(q) implies clockwise(key, chosen)
                <= clockwise(key, q) by {
                assert(ks.contains(q));
                let j = ks.index_of(q);
                assert(ks[j] == q);
            }
            assert(first_taken(taken, key, chosen));
            lemma_first_taken_unique(taken, key, chosen, self@.owner_slot(grain_key@));
        }
        Some(self.ring.value_at(slot))
    }

    /// The silos on the ring, each once, in the order of their first positions.
    pub fn members(&self) -> (members: Vec<SiloAddress>)
        ensures
            maps::views(members@) == self@.members(),
    {
        let mut seen: Vec<SiloAddress> = Vec::new();
        let n: usize = self.ring.len();
        let ghost values = self@.slot_values();
        let mut i: usize = 0;
        proof {
            assert(values.take(0) =~= Seq::<SiloAddressView>::empty());
            assert(maps::views(seen@) =~= Seq::<SiloAddressView>::empty());
        }
        while i < n
            invariant
                i <= n,
                n == self.ring.key_seq().len(),
                self.ring.key_seq() == maps::in_number_order(self@.slots.dom()),
                values == self@.slot_values(),
                maps::views(seen@) == distinct(values.take(i as int)),
            decreases n - i,
        {
            let silo = self.ring.value_at(i);
            let known: bool = holds(&seen, silo);
            proof {
                let now = values.take(i as int);
                let next = values.take(i + 1);
                assert(next.drop_last() =~= now);
                assert(next.last() == silo@);
                distinct_keeps_each_once(now);
            }
            if !known {
                let ghost before = seen@;
                seen.push(silo.duplicate());
                assert(maps::views(seen@) =~= maps::views(before).push(silo@));
            }
            i += 1;
        }
        assert(values.take(n as int) =~= values);
        seen
    }

    pub fn is_empty(&self) -> (yes: bool)
        ensures
            yes == self@.is_empty(),
    {
        let n: usize = self.ring.len();
        proof {
            if n == 0 {
                assert(self@.slots.dom() =~= Set::<u64>::empty());
            } else {
                assert(self@.slots.dom().contains(self.ring.key_seq()[0]));
            }
        }
        n == 0
    }

    pub fn virtual_nodes(&self) -> (n: u32)
        ensures
            n == self@.virtual_nodes,
    {
        self.virtual_nodes
    }
}

/// Whether a list holds an address.
pub fn holds(list: &Vec<SiloAddress>, silo: &SiloAddress) -> (yes: bool)
    ensures
        yes == maps::views(list@).contains(silo@),
{
    let mut i: usize = 0;
    while i < list.len()
        invariant
            i <= list.len(),
            forall|j: int| 0 <= j < i ==> (#[trigger] maps::views(list@)[j]) != silo@,
        decreases list.len() - i,
    {
        if list[i].same(silo) {
            assert(maps::views(list@)[i as int] == silo@);
            return true;
        }
        i += 1;
    }
    false
}

/// A key's owner is the silo at the taken position met first, whatever that is.
proof fn lemma_owner_slot(ring: HashRingView, key: Seq<char>, p: u64)
    requires
        first_taken(ring.slots.dom(), place_of(key), p),
    ensures
        ring.owner_slot(key) == p,
        ring.owner(key) == Some(ring.slots[p]),
{
    lemma_first_taken_unique(ring.slots.dom(), place_of(key), p, ring.owner_slot(key));
    assert(ring.slots.dom().contains(p));
}

/// Among finitely many taken positions one is met first.
proof fn lemma_first_taken_exists(taken: Set<u64>, from: u64, q: u64, bound: int)
    requires
        taken.contains(q),
        clockwise(from, q) <= bound,
    ensures
        exists|p: u64| first_taken(taken, from, p),
    decreases bound,
{
    if !first_taken(taken, from, q) {
        let r = choose|r: u64| #[trigger]
            taken.contains(r) && clockwise(from, r) < clockwise(from, q);
        lemma_first_taken_exists(taken, from, r, bound - 1);
    }
}

/// The owner of a key stands at a taken position, the first one met.
pub proof fn owner_is_first_met(ring: HashRingView, key: Seq<char>)
    requires
        !ring.is_empty(),
    ensures
        first_taken(ring.slots.dom(), place_of(key), ring.owner_slot(key)),
{
    assert(exists|q: u64| ring.slots.dom().contains(q)) by {
        if forall|q: u64| !ring.slots.dom().contains(q) {
            assert(ring.slots.dom() =~= Set::<u64>::empty());
        }
    }
    let q = choose|q: u64| ring.slots.dom().contains(q);
    lemma_first_taken_exists(ring.slots.dom(), place_of(key), q, clockwise(place_of(key), q));
}

/// Once a silo is taken off the ring, no key maps to it.
pub proof fn removed_silo_owns_nothing(ring: HashRingView, silo_id: Seq<char>)
    requires
        ring.placed(),
    ensures
        forall|key: Seq<char>|
            match #[trigger] ring.without(silo_id).owner(key) {
                Some(owner) => owner.silo_id != silo_id,
                None => true,
            },
        forall|s: SiloAddressView| #[trigger]
            ring.without(silo_id).members().contains(s) ==> s.silo_id != silo_id,
{
    let after = ring.without(silo_id);
    assert forall|p: u64| #[trigger] after.slots.dom().contains(p) implies after.slots[p].silo_id
        != silo_id by {
        assert(ring.slots.dom().contains(p));
    }
    assert forall|key: Seq<char>|
        match #[trigger] after.owner(key) {
            Some(owner) => owner.silo_id != silo_id,
            None => true,
        } by {
        if !after.is_empty() {
            owner_is_first_met(after, key);
        }
    }
    assert forall|s: SiloAddressView| #[trigger] after.members().contains(s) implies s.silo_id
        != silo_id by {
        if after.members().contains(s) && s.silo_id == silo_id {
            members_are_those_on_the_ring(after, s);
        }
    }
}

/// The members are exactly the silos that hold a position, each once. (A ring has finitely
/// many positions, so its slots can be listed in order.)
pub proof fn members_are_those_on_the_ring(ring: HashRingView, s: SiloAddressView)
    ensures
        ring.members().no_duplicates(),
        ring.members().contains(s) <==> (exists|p: u64| #[trigger]
            ring.slots.dom().contains(p) && ring.slots[p] == s),
{
    distinct_keeps_each_once(ring.slot_values());
    let order = maps::in_number_order(ring.slots.dom());
    lemma_positions_listable(ring.slots.dom());
    assert(forall|k: u64| ring.slots.dom().contains(k) <==> #[trigger] order.contains(k));
    let values = ring.slot_values();
    if values.contains(s) {
        let i = values.index_of(s);
        assert(values[i] == s);
        assert(order.contains(order[i]));
        assert(ring.slots.dom().contains(order[i]));
    }
    if exists|p: u64| #[trigger] ring.slots.dom().contains(p) && ring.slots[p] == s {
        let p = choose|p: u64| #[trigger] ring.slots.dom().contains(p) && ring.slots[p] == s;
        assert(order.contains(p));
        let i = order.index_of(p);
        assert(values[i] == s);
    }
}

/// Any set of positions below a bound can be listed in ascending order.
proof fn lemma_listable_below(set: Set<u64>, bound: int) -> (s: Seq<u64>)
    requires
        0 <= bound <= 0x1_0000_0000_0000_0000,
    ensures
        maps::increasing(s),
        forall|k: u64| (set.contains(k) && k < bound) <==> #[trigger] s.contains(k),
    decreases bound,
{
    if bound == 0 {
        Seq::empty()
    } else {
        let t = lemma_listable_below(set, bound - 1);
        let k0 = (bound - 1) as u64;
        if set.contains(k0) {
            let s = t.push(k0);
            assert forall|k: u64| (set.contains(k) && k < bound) <==> #[trigger] s.contains(k) by {
                if set.contains(k) && k < bound {
                    if k == k0 {
                        assert(s[t.len() as int] == k);
                    } else {
                        assert(t.contains(k));
                        assert(s[t.index_of(k)] == k);
                    }
                }
                if s.contains(k) {
                    let i = s.index_of(k);
                    assert(s[i] == k);
                    if i < t.len() {
                        assert(t[i] == k);
                        assert(t.contains(k));
                    }
                }
            }
            assert forall|i: int, j: int| #![trigger s[i], s[j]] 0 <= i < j < s.len() implies s[i]
                < s[j] by {
                if j == t.len() {
                    assert(t.contains(t[i]));
                }
            }
            s
        } else {
            assert forall|k: u64| (set.contains(k) && k < bound) <==> #[trigger] t.contains(k) by {
                if set.contains(k) && k < bound {
                    assert(k != k0);
                }
            }
            t
        }
    }
}

proof fn lemma_positions_listable(set: Set<u64>)
    ensures
        maps::increasing(maps::in_number_order(set)),
        forall|k: u64| set.contains(k) <==> #[trigger] maps::in_number_order(set).contains(k),
{
    let s = lemma_listable_below(set, 0x1_0000_0000_0000_0000);
    assert(forall|k: u64| set.contains(k) <==> #[trigger] s.contains(k));
    maps::lemma_in_number_order(set, s);
}

/// A silo that joins takes keys over for itself; no key moves between the others.
pub proof fn adding_moves_keys_only_to_the_new_silo(
    ring: HashRingView,
    silo: SiloAddressView,
    key: Seq<char>,
)
    ensures
        ring.with(silo).owner(key) == ring.owner(key) || ring.with(silo).owner(key) == Some(silo),
{
    let after = ring.with(silo);
    if after.is_empty() {
        assert forall|p: u64| !ring.slots.dom().contains(p) by {
            if ring.slots.dom().contains(p) {
                assert(after.slots.dom().contains(p));
            }
        }
        assert(ring.slots.dom() =~= Set::<u64>::empty());
    } else {
        owner_is_first_met(after, key);
        let p = after.owner_slot(key);
        if !ring.positions(silo.silo_id).contains(p) {
            assert(ring.slots.dom().contains(p));
            assert forall|q: u64| #[trigger] ring.slots.dom().contains(q) implies clockwise(
                place_of(key),
                p,
            ) <= clockwise(place_of(key), q) by {
                assert(after.slots.dom().contains(q));
            }
            assert(first_taken(ring.slots.dom(), place_of(key), p));
            lemma_owner_slot(ring, key, p);
        }
    }
}

/// When a silo leaves, the keys whose owner stood at a position of another stay.
pub proof fn removing_moves_only_keys_of_the_removed_silo(
    ring: HashRingView,
    silo_id: Seq<char>,
    key: Seq<char>,
)
    requires
        !ring.positions(silo_id).contains(ring.owner_slot(key)),
    ensures
        ring.without(silo_id).owner(key) == ring.owner(key),
{
    let after = ring.without(silo_id);
    if ring.is_empty() {
        assert(after.slots.dom() =~= Set::<u64>::empty());
    } else {
        owner_is_first_met(ring, key);
        let p = ring.owner_slot(key);
        assert(after.slots.dom().contains(p));
        assert forall|q: u64| #[trigger] after.slots.dom().contains(q) implies clockwise(
            place_of(key),
            p,
        ) <= clockwise(place_of(key), q) by {
            assert(ring.slots.dom().contains(q));
        }
        lemma_owner_slot(after, key, p);
    }
}

/// Adding a silo a second time changes nothing.
pub proof fn adding_twice_is_adding_once(ring: HashRingView, silo: SiloAddressView)
    ensures
        ring.with(silo).with(silo) == ring.with(silo),
{
    assert(ring.with(silo).with(silo).slots =~= ring.with(silo).slots);
}

/// Removing a silo undoes adding it, where its positions were free.
pub proof fn removing_undoes_adding(ring: HashRingView, silo: SiloAddressView)
    requires
        ring.slots.dom().disjoint(ring.positions(silo.silo_id)),
    ensures
        ring.with(silo).without(silo.silo_id) == ring,
{
    assert(ring.with(silo).without(silo.silo_id).slots =~= ring.slots);
}

/// Two silos without a common position may join in either order.
pub proof fn joining_order_does_not_matter(
    ring: HashRingView,
    a: SiloAddressView,
    b: SiloAddressView,
)
    requires
        ring.positions(a.silo_id).disjoint(ring.positions(b.silo_id)),
    ensures
        ring.with(a).with(b) == ring.with(b).with(a),
{
    assert(ring.with(a).with(b).slots =~= ring.with(b).with(a).slots);
}

/// An empty ring, and every ring that adding and removing make of one, has each silo only
/// where its identity puts it.
pub proof fn placement_is_kept(ring: HashRingView, silo: SiloAddressView)
    requires
        ring.placed(),
    ensures
        ring.with(silo).placed(),
        ring.without(silo.silo_id).placed(),
        (HashRingView { slots: Map::empty(), virtual_nodes: ring.virtual_nodes }).placed(),
{
    assert forall|p: u64| #[trigger]
        ring.with(silo).slots.dom().contains(p) implies ring.with(silo).positions(
        ring.with(silo).slots[p].silo_id,
    ).contains(p) by {
        if !ring.positions(silo.silo_id).contains(p) {
            assert(ring.slots.dom().contains(p));
        }
    }
    assert forall|p: u64| #[trigger]
        ring.without(silo.silo_id).slots.dom().contains(p) implies ring.without(
        silo.silo_id,
    ).positions(ring.without(silo.silo_id).slots[p].silo_id).contains(p) by {
        assert(ring.slots.dom().contains(p));
    }
}

/// Two hashes that lie at one place are equal: the prime is odd, so that multiplying by it
/// can be undone.
proof fn lemma_spread_is_injective(a: u64, b: u64)
    requires
        spread(a) == spread(b),
    ensures
        a == b,
{
    let m: int = 0x1_0000_0000_0000_0000;
    let prime: int = 0x0000_0100_0000_01b3;
    let inverse: int = 0xce96_5057_aff6_957b;
    let turns: int = 887285111055;
    assert(prime * inverse == turns * m + 1) by (nonlinear_arith)
        requires
            m == 0x1_0000_0000_0000_0000,
            prime == 0x0000_0100_0000_01b3,
            inverse == 0xce96_5057_aff6_957b,
            turns == 887285111055,
    ;
    let x: u64 = a ^ 0xff;
    let y: u64 = b ^ 0xff;
    let (p, q) = ((x * prime) / m, (y * prime) / m);
    vstd::arithmetic::div_mod::lemma_fundamental_div_mod(x * prime, m);
    vstd::arithmetic::div_mod::lemma_fundamental_div_mod(y * prime, m);
    assert((x * prime) % m == (y * prime) % m);
    let d: int = x - y;
    let k: int = (p - q) * inverse - d * turns;
    assert(d * prime == (p - q) * m) by (nonlinear_arith)
        requires
            d == x - y,
            x * prime - y * prime == m * p - m * q,
    ;
    assert(d == k * m) by (nonlinear_arith)
        requires
            d * prime == (p - q) * m,
            prime * inverse == turns * m + 1,
            k == (p - q) * inverse - d * turns,
    {
        assert((d * prime) * inverse == d * (prime * inverse));
        assert(d * (turns * m + 1) == (d * turns) * m + d);
        assert(((p - q) * m) * inverse == ((p - q) * inverse) * m);
        assert(k * m == ((p - q) * inverse) * m - (d * turns) * m);
    }
    assert(k == 0) by (nonlinear_arith)
        requires
            d == k * m,
            -m < d < m,
            m > 0,
    ;
    assert(a == b) by (bit_vector)
        requires
            a ^ 0xff == b ^ 0xff,
    ;
}

/// Whether no two of these silos have node labels with one hash.
pub open spec fn labels_apart(ids: Set<Seq<char>>, virtual_nodes: nat) -> bool {
    forall|a: Seq<char>, b: Seq<char>, i: nat, j: nat|
        #![trigger node_label(a, i), node_label(b, j)]
        ids.contains(a) && ids.contains(b) && a != b && i < virtual_nodes && j < virtual_nodes
            ==> hash_of(node_label(a, i)) != hash_of(node_label(b, j))
}

/// Silos whose node labels have different hashes share no position.
pub proof fn apart_labels_share_no_position(
    ids: Set<Seq<char>>,
    virtual_nodes: nat,
    a: Seq<char>,
    b: Seq<char>,
)
    requires
        labels_apart(ids, virtual_nodes),
        ids.contains(a),
        ids.contains(b),
        a != b,
    ensures
        positions_of(a, virtual_nodes).disjoint(positions_of(b, virtual_nodes)),
{
    assert forall|p: u64|
        !(positions_of(a, virtual_nodes).contains(p) && positions_of(b, virtual_nodes).contains(
            p,
        )) by {
        if positions_of(a, virtual_nodes).contains(p) && positions_of(b, virtual_nodes).contains(p) {
            let i = choose|i: nat| i < virtual_nodes && p == #[trigger] node_position(a, i);
            let j = choose|j: nat| j < virtual_nodes && p == #[trigger] node_position(b, j);
            lemma_spread_is_injective(hash_of(node_label(a, i)), hash_of(node_label(b, j)));
        }
    }
}

/// Whether the ring holds exactly these silos, each at every position of its own.
pub open spec fn ring_holds(ring: HashRingView, silos: Map<Seq<char>, SiloAddressView>) -> bool {
    &&& forall|id: Seq<char>| #[trigger] silos.dom().contains(id) ==> silos[id].silo_id == id
    &&& forall|p: u64| #[trigger]
        ring.slots.dom().contains(p) ==> silos.dom().contains(ring.slots[p].silo_id)
            && ring.positions(ring.slots[p].silo_id).contains(p)
    &&& forall|id: Seq<char>, p: u64|
        #![trigger silos.dom().contains(id), ring.positions(id).contains(p)]
        silos.dom().contains(id) && ring.positions(id).contains(p) ==> ring.slots.dom().contains(p)
            && ring.slots[p] == silos[id]
}

/// Adding a silo to a ring that holds some silos gives one that holds it too; removing it, one
/// that holds the others.
pub proof fn ring_holds_what_is_added(
    ring: HashRingView,
    silos: Map<Seq<char>, SiloAddressView>,
    ids: Set<Seq<char>>,
    silo: SiloAddressView,
)
    requires
        ring_holds(ring, silos),
        labels_apart(ids, ring.virtual_nodes as nat),
        silos.dom().subset_of(ids),
        ids.contains(silo.silo_id),
    ensures
        ring_holds(ring.with(silo), silos.insert(silo.silo_id, silo)),
        ring_holds(ring.without(silo.silo_id), silos.remove(silo.silo_id)),
{
    let n = ring.virtual_nodes as nat;
    assert forall|id: Seq<char>, p: u64|
        #![trigger silos.dom().contains(id), ring.positions(id).contains(p)]
        silos.dom().contains(id) && ring.positions(id).contains(p) && id
            != silo.silo_id implies !ring.positions(silo.silo_id).contains(p) by {
        assert(ids.contains(id));
        apart_labels_share_no_position(ids, n, id, silo.silo_id);
    }
    let (added, more) = (ring.with(silo), silos.insert(silo.silo_id, silo));
    assert forall|id: Seq<char>, p: u64|
        #![trigger more.dom().contains(id), added.positions(id).contains(p)]
        more.dom().contains(id) && added.positions(id).contains(p) implies added.slots.dom().contains(
        p,
    ) && added.slots[p] == more[id] by {
        if id != silo.silo_id {
            assert(silos.dom().contains(id) && ring.positions(id).contains(p));
        }
    }
    assert forall|p: u64| #[trigger] added.slots.dom().contains(p) implies more.dom().contains(
        added.slots[p].silo_id,
    ) && added.positions(added.slots[p].silo_id).contains(p) by {
        if !ring.positions(silo.silo_id).contains(p) {
            assert(ring.slots.dom().contains(p));
        }
    }
    let (left, fewer) = (ring.without(silo.silo_id), silos.remove(silo.silo_id));
    assert forall|id: Seq<char>, p: u64|
        #![trigger fewer.dom().contains(id), left.positions(id).contains(p)]
        fewer.dom().contains(id) && left.positions(id).contains(p) implies left.slots.dom().contains(
        p,
    ) && left.slots[p] == fewer[id] by {
        assert(silos.dom().contains(id) && ring.positions(id).contains(p));
    }
    assert forall|p: u64| #[trigger] left.slots.dom().contains(p) implies fewer.dom().contains(
        left.slots[p].silo_id,
    ) && left.positions(left.slots[p].silo_id).contains(p) by {
        assert(ring.slots.dom().contains(p));
    }
}

/// A ring that holds exactly some silos lists exactly those as its members, each once, and is
/// empty only where there are none.
pub proof fn members_are_the_silos_held(
    ring: HashRingView,
    silos: Map<Seq<char>, SiloAddressView>,
)
    requires
        ring.virtual_nodes > 0,
        ring_holds(ring, silos),
    ensures
        ring.members().no_duplicates(),
        forall|s: SiloAddressView| #[trigger]
            ring.members().contains(s) <==> silos.dom().contains(s.silo_id) && silos[s.silo_id]
                == s,
        forall|i: int, j: int|
            #![trigger ring.members()[i], ring.members()[j]]
            0 <= i < ring.members().len() && 0 <= j < ring.members().len()
                && ring.members()[i].silo_id == ring.members()[j].silo_id ==> i == j,
        forall|id: Seq<char>| #[trigger]
            silos.dom().contains(id) ==> ring.members().contains(silos[id]),
        ring.is_empty() <==> ring.members().len() == 0,
        ring.is_empty() <==> silos.dom() == Set::<Seq<char>>::empty(),
{
    let members = ring.members();
    distinct_keeps_each_once(ring.slot_values());
    assert forall|id: Seq<char>| #[trigger] silos.dom().contains(id) implies ring.positions(
        id,
    ).contains(node_position(id, 0)) by {
        assert(0nat < ring.virtual_nodes as nat);
    }
    assert forall|s: SiloAddressView| #[trigger]
        members.contains(s) <==> silos.dom().contains(s.silo_id) && silos[s.silo_id] == s by {
        members_are_those_on_the_ring(ring, s);
        if members.contains(s) {
            let p = choose|p: u64| #[trigger] ring.slots.dom().contains(p) && ring.slots[p] == s;
            assert(ring.positions(s.silo_id).contains(p));
        }
        if silos.dom().contains(s.silo_id) && silos[s.silo_id] == s {
            let p = node_position(s.silo_id, 0);
            assert(ring.positions(s.silo_id).contains(p));
            assert(ring.slots.dom().contains(p));
        }
    }
    assert forall|i: int, j: int|
        #![trigger members[i], members[j]]
        0 <= i < members.len() && 0 <= j < members.len() && members[i].silo_id
            == members[j].silo_id implies i == j by {
        assert(members.contains(members[i]) && members.contains(members[j]));
    }
    if ring.is_empty() {
        if members.len() > 0 {
            members_are_those_on_the_ring(ring, members[0]);
            assert(members.contains(members[0]));
        }
        assert forall|id: Seq<char>| !silos.dom().contains(id) by {
            if silos.dom().contains(id) {
                assert(ring.slots.dom().contains(node_position(id, 0)));
            }
        }
        assert(silos.dom() =~= Set::<Seq<char>>::empty());
    } else {
        owner_is_first_met(ring, Seq::empty());
        let p = ring.owner_slot(Seq::empty());
        assert(ring.slots.dom().contains(p));
        members_are_those_on_the_ring(ring, ring.slots[p]);
        assert(members.contains(ring.slots[p]));
        assert(silos.dom().contains(ring.slots[p].silo_id));
    }
}

/// What is done to a ring.
pub enum RingChange {
    /// A silo is added at an address.
    Added(SiloAddressView),
    /// A silo is removed.
    Removed(SiloAddressView),
}

impl RingChange {
    /// The silo that is added or removed.
    pub open spec fn silo(self) -> SiloAddressView {
        match self {
            RingChange::Added(silo) => silo,
            RingChange::Removed(silo) => silo,
        }
    }
}

/// The ring that a sequence of changes makes of a new one.
pub open spec fn ring_after(virtual_nodes: u32, changes: Seq<RingChange>) -> HashRingView
    decreases changes.len(),
{
    if changes.len() == 0 {
        HashRingView { slots: Map::empty(), virtual_nodes }
    } else {
        let before = ring_after(virtual_nodes, changes.drop_last());
        match changes.last() {
            RingChange::Added(silo) => before.with(silo),
            RingChange::Removed(silo) => before.without(silo.silo_id),
        }
    }
}

/// The silos that were added and not removed since, each at the address last added.
pub open spec fn standing(changes: Seq<RingChange>) -> Map<Seq<char>, SiloAddressView>
    decreases changes.len(),
{
    if changes.len() == 0 {
        Map::empty()
    } else {
        let before = standing(changes.drop_last());
        match changes.last() {
            RingChange::Added(silo) => before.insert(silo.silo_id, silo),
            RingChange::Removed(silo) => before.remove(silo.silo_id),
        }
    }
}

/// The identities that a sequence of changes names.
pub open spec fn named(changes: Seq<RingChange>) -> Set<Seq<char>> {
    Set::new(
        |id: Seq<char>|
            exists|i: int| 0 <= i < changes.len() && (#[trigger] changes[i]).silo().silo_id == id,
    )
}

proof fn lemma_ring_after_holds(
    virtual_nodes: u32,
    changes: Seq<RingChange>,
    ids: Set<Seq<char>>,
)
    requires
        labels_apart(ids, virtual_nodes as nat),
        named(changes).subset_of(ids),
    ensures
        ring_after(virtual_nodes, changes).virtual_nodes == virtual_nodes,
        ring_holds(ring_after(virtual_nodes, changes), standing(changes)),
        standing(changes).dom().subset_of(ids),
    decreases changes.len(),
{
    if changes.len() > 0 {
        let t = changes.drop_last();
        assert forall|id: Seq<char>| named(t).contains(id) implies ids.contains(id) by {
            let i = choose|i: int| 0 <= i < t.len() && (#[trigger] t[i]).silo().silo_id == id;
            assert(changes[i].silo().silo_id == id);
            assert(named(changes).contains(id));
        }
        lemma_ring_after_holds(virtual_nodes, t, ids);
        let silo = changes.last().silo();
        assert(changes[changes.len() - 1].silo().silo_id == silo.silo_id);
        assert(named(changes).contains(silo.silo_id));
        ring_holds_what_is_added(ring_after(virtual_nodes, t), standing(t), ids, silo);
    }
}

/// After any sequence of adds and removes on a new ring the members are exactly the silos
/// that were added and not removed since, each once and at the address last added; there are
/// none exactly where the ring is empty.
pub proof fn members_are_the_silos_added_and_not_removed(
    virtual_nodes: u32,
    changes: Seq<RingChange>,
)
    requires
        virtual_nodes > 0,
        labels_apart(named(changes), virtual_nodes as nat),
    ensures
        ring_after(virtual_nodes, changes).members().no_duplicates(),
        forall|s: SiloAddressView| #[trigger]
            ring_after(virtual_nodes, changes).members().contains(s) <==> standing(
                changes,
            ).dom().contains(s.silo_id) && standing(changes)[s.silo_id] == s,
        forall|i: int, j: int|
            #![trigger ring_after(virtual_nodes, changes).members()[i], ring_after(virtual_nodes, changes).members()[j]]
            0 <= i < ring_after(virtual_nodes, changes).members().len() && 0 <= j < ring_after(
                virtual_nodes,
                changes,
            ).members().len() && ring_after(virtual_nodes, changes).members()[i].silo_id
                == ring_after(virtual_nodes, changes).members()[j].silo_id ==> i == j,
        forall|id: Seq<char>| #[trigger]
            standing(changes).dom().contains(id) ==> standing(changes)[id].silo_id == id
                && ring_after(virtual_nodes, changes).members().contains(standing(changes)[id]),
        ring_after(virtual_nodes, changes).is_empty() <==> ring_after(
            virtual_nodes,
            changes,
        ).members().len() == 0,
{
    lemma_ring_after_holds(virtual_nodes, changes, named(changes));
    members_are_the_silos_held(ring_after(virtual_nodes, changes), standing(changes));
}

/// An identity is on the ring exactly where a silo of that identity holds a position.
proof fn lemma_silo_ids(ring: HashRingView, id: Seq<char>)
    ensures
        ring.silo_ids().contains(id) <==> (exists|p: u64| #[trigger]
            ring.slots.dom().contains(p) && ring.slots[p].silo_id == id),
{
    if ring.silo_ids().contains(id) {
        let s = choose|s: SiloAddressView| #[trigger]
            ring.members().contains(s) && s.silo_id == id;
        members_are_those_on_the_ring(ring, s);
    }
    if exists|p: u64| #[trigger] ring.slots.dom().contains(p) && ring.slots[p].silo_id == id {
        let p = choose|p: u64| #[trigger]
            ring.slots.dom().contains(p) && ring.slots[p].silo_id == id;
        members_are_those_on_the_ring(ring, ring.slots[p]);
        assert(ring.members().contains(ring.slots[p]));
    }
}

/// Adding a silo puts its identity on the ring and removing it takes it off; the identities of
/// the others stay.
pub proof fn only_the_named_identity_changes(
    ring: HashRingView,
    silo: SiloAddressView,
    ids: Set<Seq<char>>,
)
    requires
        ring.virtual_nodes > 0,
        ring.placed(),
        labels_apart(ids, ring.virtual_nodes as nat),
        ring.silo_ids().subset_of(ids),
        ids.contains(silo.silo_id),
    ensures
        ring.with(silo).silo_ids() == ring.silo_ids().insert(silo.silo_id),
        ring.without(silo.silo_id).silo_ids() == ring.silo_ids().remove(silo.silo_id),
{
    let n = ring.virtual_nodes as nat;
    let (added, left) = (ring.with(silo), ring.without(silo.silo_id));
    assert forall|id: Seq<char>|
        (added.silo_ids().contains(id) <==> ring.silo_ids().insert(silo.silo_id).contains(id)) && (
        left.silo_ids().contains(id) <==> ring.silo_ids().remove(silo.silo_id).contains(id)) by {
        lemma_silo_ids(ring, id);
        lemma_silo_ids(added, id);
        lemma_silo_ids(left, id);
        if ring.silo_ids().contains(id) && id != silo.silo_id {
            let p = choose|p: u64| #[trigger]
                ring.slots.dom().contains(p) && ring.slots[p].silo_id == id;
            apart_labels_share_no_position(ids, n, id, silo.silo_id);
            assert(ring.positions(id).contains(p));
            assert(!ring.positions(silo.silo_id).contains(p));
            assert(added.slots.dom().contains(p) && added.slots[p].silo_id == id);
            assert(left.slots.dom().contains(p) && left.slots[p].silo_id == id);
        }
        if id == silo.silo_id {
            let q = node_position(id, 0);
            assert(0nat < n);
            assert(ring.positions(id).contains(q));
            assert(added.slots.dom().contains(q) && added.slots[q].silo_id == id);
        }
        if added.silo_ids().contains(id) && id != silo.silo_id {
            let p = choose|p: u64| #[trigger]
                added.slots.dom().contains(p) && added.slots[p].silo_id == id;
            assert(ring.slots.dom().contains(p));
        }
        if left.silo_ids().contains(id) {
            let p = choose|p: u64| #[trigger]
                left.slots.dom().contains(p) && left.slots[p].silo_id == id;
            assert(ring.slots.dom().contains(p));
        }
    }
    assert(added.silo_ids() =~= ring.silo_ids().insert(silo.silo_id));
    assert(left.silo_ids() =~= ring.silo_ids().remove(silo.silo_id));
}

/// The hash is 64-bit FNV-1a: it starts from the offset basis, and takes in each byte by an
/// exclusive or and a multiplication by the prime, modulo two to the 64. It is taken of a
/// string's UTF-8 bytes, and places are hashes that have taken in one byte more, of all ones.
pub proof fn hashes_are_fnv1a(bytes: Seq<u8>, b: u8, key: Seq<char>)
    ensures
        fnv1a(Seq::empty()) == 0xcbf2_9ce4_8422_2325,
        fnv1a(bytes.push(b)) == ((fnv1a(bytes) ^ (b as u64)) * 0x100_0000_01b3)
            % 0x1_0000_0000_0000_0000,
        hash_of(key) == fnv1a(encode_utf8(key)),
        place_of(key) == fnv1a(encode_utf8(key).push(0xff)),
{
    assert(bytes.push(b).drop_last() =~= bytes);
    assert(encode_utf8(key).push(0xff).drop_last() =~= encode_utf8(key));
}

/// A key belongs to the silo at the lowest taken position that is not below the key's place; or,
/// where all are below it, at the lowest of all. On an empty ring it belongs to nobody.
pub proof fn keys_belong_to_the_next_position(ring: HashRingView, key: Seq<char>, q: u64)
    ensures
        (forall|p: u64| !ring.slots.dom().contains(p)) ==> ring.owner(key) is None,
        ring.slots.dom().contains(q) ==> {
            let p = ring.owner_slot(key);
            let place = fnv1a(encode_utf8(key).push(0xff));
            &&& ring.slots.dom().contains(p)
            &&& ring.owner(key) == Some(ring.slots[p])
            &&& q >= place ==> place <= p <= q
            &&& q < place ==> p >= place || p <= q
        },
{
    hashes_are_fnv1a(Seq::empty(), 0, key);
    if ring.slots.dom().contains(q) {
        owner_is_first_met(ring, key);
        let p = ring.owner_slot(key);
        assert(clockwise(place_of(key), p) <= clockwise(place_of(key), q));
    } else if forall|p: u64| !ring.slots.dom().contains(p) {
        assert(ring.slots.dom() =~= Set::<u64>::empty());
    }
}

/// A silo takes the places of its labels, which are its identity, a colon and a number, for as
/// many numbers from zero as there are virtual nodes, and no others.
pub proof fn silos_take_the_places_of_their_labels(silo_id: Seq<char>, n: nat, i: nat, p: u64)
    ensures
        i < n ==> positions_of(silo_id, n).contains(
            place_of(silo_id + seq![':'] + text::decimal(i)),
        ),
        positions_of(silo_id, n).contains(p) ==> exists|j: nat|
            j < n && p == place_of(#[trigger] node_label(silo_id, j)),
        node_label(silo_id, i) == silo_id + seq![':'] + text::decimal(i),
{
    if i < n {
        assert(node_position(silo_id, i) == place_of(silo_id + seq![':'] + text::decimal(i)));
    }
    if positions_of(silo_id, n).contains(p) {
        let j = choose|j: nat| j < n && p == #[trigger] node_position(silo_id, j);
        assert(p == place_of(node_label(silo_id, j)));
    }
}

/// A silo that is added stands at every position of its own, and one that is removed at none;
/// what stands at other positions stays.
pub proof fn adding_and_removing_touch_only_own_positions(
    ring: HashRingView,
    silo: SiloAddressView,
    p: u64,
)
    ensures
        ({
            let own = positions_of(silo.silo_id, ring.virtual_nodes as nat);
            let (added, left) = (ring.with(silo), ring.without(silo.silo_id));
            &&& added.virtual_nodes == ring.virtual_nodes
            &&& left.virtual_nodes == ring.virtual_nodes
            &&& if own.contains(p) {
                added.slots.dom().contains(p) && added.slots[p] == silo
                    && !left.slots.dom().contains(p)
            } else {
                &&& added.slots.dom().contains(p) == ring.slots.dom().contains(p)
                &&& left.slots.dom().contains(p) == ring.slots.dom().contains(p)
                &&& ring.slots.dom().contains(p) ==> added.slots[p] == ring.slots[p]
                    && left.slots[p] == ring.slots[p]
            }
        }),
{
}

/// An endpoint is a host, a colon and a port in decimal digits.
pub proof fn endpoints_are_host_and_port(silo: SiloAddressView)
    ensures
        silo.endpoint() == silo.host + seq![':'] + text::decimal(silo.port as nat),
{
}

} // verus!
