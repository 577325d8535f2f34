//! Ordered maps over sorted vectors: one keyed by strings, one by 64-bit numbers.

use vstd::prelude::*;

use crate::text;
use crate::text::{order_of, TextOrder};

verus! {

/// Copying a value so that the copy has the same view.
pub trait Duplicate: View + Sized {
    fn duplicate(&self) -> (copy: Self)
        ensures
            copy@ == self@,
    ;
}

impl Duplicate for String {
    fn duplicate(&self) -> (copy: Self) {
        self.clone()
    }
}

impl Duplicate for u64 {
    fn duplicate(&self) -> (copy: Self) {
        *self
    }
}

impl<V: Duplicate> Clone for StrMap<V> {
    fn clone(&self) -> (copy: Self)
        ensures
            copy@ == self@,
    {
        self.duplicate()
    }
}

impl<V: Duplicate> Duplicate for StrMap<V> {
    fn duplicate(&self) -> (copy: Self) {
        proof {
            use_type_invariant(self);
        }
        let mut keys: Vec<String> = Vec::new();
        let mut values: Vec<V> = Vec::new();
        let mut i: usize = 0;
        while i < self.keys.len()
            invariant
                i <= self.keys.len(),
                self.keys.len() == self.values.len(),
                keys.len() == i,
                values.len() == i,
                forall|j: int| 0 <= j < i ==> (#[trigger] keys@[j])@ == self.keys@[j]@,
                forall|j: int| 0 <= j < i ==> (#[trigger] values@[j])@ == self.values@[j]@,
            decreases self.keys.len() - i,
        {
            keys.push(self.keys[i].duplicate());
            values.push(self.values[i].duplicate());
            i += 1;
        }
        proof {
            assert(views(keys@) =~= views(self.keys@));
            assert forall|k: Seq<char>| views(keys@).contains(k) implies #[trigger] values@[views(
                keys@,
            ).index_of(k)]@ == self.values@[views(self.keys@).index_of(k)]@ by {
                let j = views(keys@).index_of(k);
                assert(0 <= j < keys@.len());
            }
            assert(map_of(keys@, values@) =~= map_of(self.keys@, self.values@));
        }
        StrMap { keys, values }
    }
}

/// The views of a sequence of values.
pub open spec fn views<T: View>(s: Seq<T>) -> Seq<T::V> {
    s.map_values(|x: T| x@)
}

/// Whether strings stand in ascending order, each once.
pub open spec fn ascending(s: Seq<Seq<char>>) -> bool {
    forall|i: int, j: int|
        #![trigger s[i], s[j]]
        0 <= i < j < s.len() ==> text::text_before(s[i], s[j])
}

spec fn map_of<V: View>(keys: Seq<String>, values: Seq<V>) -> Map<Seq<char>, V::V> {
    Map::new(
        |k: Seq<char>| views(keys).contains(k),
        |k: Seq<char>| values[views(keys).index_of(k)]@,
    )
}

/// Strings in ascending order are pairwise different.
pub proof fn lemma_ascending_no_duplicates(s: Seq<Seq<char>>)
    requires
        ascending(s),
    ensures
        s.no_duplicates(),
        forall|i: int| 0 <= i < s.len() ==> #[trigger] s.index_of(s[i]) == i,
{
    assert forall|i: int, j: int| 0 <= i < s.len() && 0 <= j < s.len() && i != j implies s[i]
        != s[j] by {
        text::text_order_is_strict_and_total(s[i], s[j], s[i]);
        if i < j {
            assert(text::text_before(s[i], s[j]));
        } else {
            assert(text::text_before(s[j], s[i]));
        }
    }
    assert forall|i: int| 0 <= i < s.len() implies #[trigger] s.index_of(s[i]) == i by {
        let j = s.index_of(s[i]);
        assert(0 <= j < s.len() && s[j] == s[i]);
    }
}

/// Two ascending sequences with the same elements are the same sequence.
pub proof fn lemma_ascending_unique(s: Seq<Seq<char>>, t: Seq<Seq<char>>)
    requires
        ascending(s),
        ascending(t),
        forall|k: Seq<char>| s.contains(k) <==> t.contains(k),
    ensures
        s == t,
    decreases s.len(),
{
    lemma_ascending_no_duplicates(s);
    lemma_ascending_no_duplicates(t);
    if s.len() == 0 {
        if t.len() > 0 {
            assert(t.contains(t[0]));
            assert(s.contains(t[0]));
        }
        assert(s =~= t);
    } else {
        assert(s.contains(s.last()));
        let p = t.index_of(s.last());
        assert(t.contains(s.last()));
        assert(0 <= p < t.len() && t[p] == s.last());
        if p < t.len() - 1 {
            assert(t.contains(t.last()));
            assert(s.contains(t.last()));
            let q = s.index_of(t.last());
            assert(0 <= q < s.len() && s[q] == t.last());
            assert(text::text_before(t[p], t.last()));
            text::text_order_is_strict_and_total(s.last(), t.last(), s.last());
            if q < s.len() - 1 {
                assert(text::text_before(s[q], s.last()));
            }
            assert(false);
        }
        let s1 = s.drop_last();
        let t1 = t.drop_last();
        assert forall|k: Seq<char>| s1.contains(k) <==> t1.contains(k) by {
            if s1.contains(k) {
                let i = s1.index_of(k);
                assert(s[i] == k);
                assert(s.contains(k));
                assert(t.contains(k));
                let j = t.index_of(k);
                assert(t[j] == k);
                if j == t.len() - 1 {
                    assert(s[i] == s.last());
                }
                assert(t1[j] == k);
            }
            if t1.contains(k) {
                let i = t1.index_of(k);
                assert(t[i] == k);
                assert(t.contains(k));
                assert(s.contains(k));
                let j = s.index_of(k);
                assert(s[j] == k);
                if j == s.len() - 1 {
                    assert(t[i] == t.last());
                }
                assert(s1[j] == k);
            }
        }
        lemma_ascending_unique(s1, t1);
        assert(s =~= s1.push(s.last()));
        assert(t =~= t1.push(t.last()));
    }
}

/// The strings of a finite set in ascending order.
pub open spec fn in_text_order(set: Set<Seq<char>>) -> Seq<Seq<char>> {
    choose|s: Seq<Seq<char>>|
        ascending(s) && (forall|k: Seq<char>| set.contains(k) <==> #[trigger] s.contains(k))
}

/// An ascending sequence with the elements of a set is that set in order.
pub proof fn lemma_in_text_order(set: Set<Seq<char>>, s: Seq<Seq<char>>)
    requires
        ascending(s),
        forall|k: Seq<char>| set.contains(k) <==> #[trigger] s.contains(k),
    ensures
        in_text_order(set) == s,
{
    let t = in_text_order(set);
    assert(ascending(t) && (forall|k: Seq<char>| set.contains(k) <==> #[trigger] t.contains(k)));
    assert forall|k: Seq<char>| s.contains(k) <==> t.contains(k) by {
        assert(set.contains(k) <==> t.contains(k));
    }
    lemma_ascending_unique(s, t);
}

/// Any string can be put into its place among ascending ones.
proof fn lemma_placed(s: Seq<Seq<char>>, k: Seq<char>) -> (t: Seq<Seq<char>>)
    requires
        ascending(s),
        !s.contains(k),
    ensures
        ascending(t),
        forall|x: Seq<char>| #[trigger] t.contains(x) <==> s.contains(x) || x == k,
    decreases s.len(),
{
    if s.len() == 0 {
        let t = seq![k];
        assert forall|x: Seq<char>| #[trigger] t.contains(x) <==> s.contains(x) || x == k by {
            assert(t[0] == k);
        }
        t
    } else {
        let last = s.last();
        assert(s.contains(last));
        text::text_order_is_strict_and_total(last, k, last);
        if text::text_before(last, k) {
            let t = s.push(k);
            assert forall|i: int, j: int|
                #![trigger t[i], t[j]]
                0 <= i < j < t.len() implies text::text_before(t[i], t[j]) by {
                if j == s.len() {
                    if i < s.len() - 1 {
                        assert(text::text_before(s[i], last));
                        text::text_order_is_strict_and_total(s[i], last, k);
                    }
                }
            }
            assert forall|x: Seq<char>| #[trigger] t.contains(x) <==> s.contains(x) || x == k by {
                if s.contains(x) {
                    assert(t[s.index_of(x)] == x);
                }
                assert(t[s.len() as int] == k);
            }
            t
        } else {
            let rest = s.drop_last();
            assert(!rest.contains(k)) by {
                if rest.contains(k) {
                    assert(s[rest.index_of(k)] == k);
                }
            }
            let front = lemma_placed(rest, k);
            let t = front.push(last);
            assert forall|i: int, j: int|
                #![trigger t[i], t[j]]
                0 <= i < j < t.len() implies text::text_before(t[i], t[j]) by {
                if j == front.len() {
                    assert(front.contains(front[i]));
                    if t[i] != k {
                        let p = rest.index_of(t[i]);
                        assert(text::text_before(s[p], s[s.len() - 1]));
                    }
                }
            }
            assert forall|x: Seq<char>| #[trigger] t.contains(x) <==> s.contains(x) || x == k by {
                if s.contains(x) {
                    let i = s.index_of(x);
                    if i < rest.len() {
                        assert(rest[i] == x);
                        assert(front.contains(x));
                        assert(t[front.index_of(x)] == x);
                    } else {
                        assert(t[t.len() - 1] == x);
                    }
                }
                if x == k {
                    assert(front.contains(k));
                    assert(t[front.index_of(k)] == k);
                }
                if t.contains(x) {
                    let i = t.index_of(x);
                    if i < front.len() {
                        assert(front[i] == x);
                        assert(front.contains(x));
                        if x != k {
                            assert(s[rest.index_of(x)] == x);
                        }
                    } else {
                        assert(s[s.len() - 1] == x);
                    }
                }
            }
            t
        }
    }
}

proof fn lemma_listable(set: Set<Seq<char>>) -> (s: Seq<Seq<char>>)
    requires
        set.finite(),
    ensures
        ascending(s),
        forall|k: Seq<char>| set.contains(k) <==> #[trigger] s.contains(k),
    decreases set.len(),
{
    if set.len() == 0 {
        assert(set =~= Set::<Seq<char>>::empty());
        Seq::empty()
    } else {
        let k0 = set.choose();
        let t = lemma_listable(set.remove(k0));
        assert(!t.contains(k0)) by {
            assert(!set.remove(k0).contains(k0));
        }
        let s = lemma_placed(t, k0);
        assert forall|k: Seq<char>| set.contains(k) <==> #[trigger] s.contains(k) by {
            assert(set.remove(k0).contains(k) <==> t.contains(k));
        }
        s
    }
}

/// A finite set in order has exactly the elements of the set.
pub proof fn lemma_text_order_is_complete(set: Set<Seq<char>>)
    requires
        set.finite(),
    ensures
        ascending(in_text_order(set)),
        forall|k: Seq<char>|
            #![trigger set.contains(k)]
            #![trigger in_text_order(set).contains(k)]
            set.contains(k) <==> in_text_order(set).contains(k),
{
    let s = lemma_listable(set);
    lemma_in_text_order(set, s);
}

/// The values of a map in ascending order of their keys.
pub open spec fn values_in_order<V>(m: Map<Seq<char>, V>) -> Seq<V> {
    in_text_order(m.dom()).map_values(|k: Seq<char>| m[k])
}

/// The entries of a map in ascending order of their keys.
pub open spec fn pairs_in_order<V>(m: Map<Seq<char>, V>) -> Seq<(Seq<char>, V)> {
    in_text_order(m.dom()).map_values(|k: Seq<char>| (k, m[k]))
}

/// One step of filtering a sequence from its start.
pub proof fn lemma_take_filter<A>(s: Seq<A>, keep: spec_fn(A) -> bool, i: int)
    requires
        0 <= i < s.len(),
    ensures
        s.take(i + 1).filter(keep) == if keep(s[i]) {
            s.take(i).filter(keep).push(s[i])
        } else {
            s.take(i).filter(keep)
        },
{
    assert(s.take(i + 1) =~= s.take(i).push(s[i]));
    s.take(i).lemma_filter_push(s[i], keep);
}

/// Filtering keeps elements of the sequence only, and repeats none.
pub proof fn lemma_filter_distinct<A>(s: Seq<A>, keep: spec_fn(A) -> bool)
    ensures
        forall|a: A| #[trigger] s.filter(keep).contains(a) ==> s.contains(a) && keep(a),
        s.no_duplicates() ==> s.filter(keep).no_duplicates(),
    decreases s.len(),
{
    reveal(Seq::filter);
    if s.len() > 0 {
        let t = s.drop_last();
        lemma_filter_distinct(t, keep);
        assert forall|a: A| #[trigger] s.filter(keep).contains(a) implies s.contains(a) && keep(
            a,
        ) by {
            let i = s.filter(keep).index_of(a);
            assert(s.filter(keep)[i] == a);
            if i < t.filter(keep).len() {
                assert(t.filter(keep)[i] == a);
                assert(t.filter(keep).contains(a));
                let j = t.index_of(a);
                assert(s[j] == a);
            } else {
                assert(s[s.len() - 1] == a);
            }
        }
        if s.no_duplicates() {
            assert(t.no_duplicates());
            assert(!t.contains(s.last())) by {
                if t.contains(s.last()) {
                    let j = t.index_of(s.last());
                    assert(s[j] == s[s.len() - 1]);
                }
            }
            assert(!t.filter(keep).contains(s.last()));
        }
    }
}

/// Nothing is left of an empty sequence.
pub proof fn lemma_filter_nothing<A>(s: Seq<A>, keep: spec_fn(A) -> bool)
    ensures
        s.take(0).filter(keep) == Seq::<A>::empty(),
{
    reveal(Seq::filter);
    assert(s.take(0) =~= Seq::<A>::empty());
}

/// A map keyed by strings, walked in ascending order of its keys.
#[derive(Debug, PartialEq, Eq)]
pub struct StrMap<V> {
    keys: Vec<String>,
    values: Vec<V>,
}

impl<V: View> View for StrMap<V> {
    type V = Map<Seq<char>, V::V>;

    closed spec fn view(&self) -> Map<Seq<char>, V::V> {
        map_of(self.keys@, self.values@)
    }
}

impl<V> StrMap<V> {
    #[verifier::type_invariant]
    spec fn sorted(self) -> bool {
        &&& self.keys@.len() == self.values@.len()
        &&& ascending(views(self.keys@))
    }
}

impl<V: View> StrMap<V> {
    /// The keys in ascending order.
    pub closed spec fn key_seq(self) -> Seq<Seq<char>> {
        views(self.keys@)
    }

    pub fn new() -> (map: StrMap<V>)
        ensures
            map@ == Map::<Seq<char>, V::V>::empty(),
    {
        let map = StrMap { keys: Vec::new(), values: Vec::new() };
        assert(map@ =~= Map::<Seq<char>, V::V>::empty());
        map
    }

    /// The number of entries.
    pub fn len(&self) -> (n: usize)
        ensures
            n == self.key_seq().len(),
            self.key_seq() == in_text_order(self@.dom()),
            self@.dom().finite(),
            ascending(self.key_seq()),
            self.key_seq().no_duplicates(),
            forall|k: Seq<char>|
                #![trigger self@.dom().contains(k)]
                #![trigger self.key_seq().contains(k)]
                self@.dom().contains(k) <==> self.key_seq().contains(k),
            forall|i: int|
                0 <= i < self.key_seq().len() ==> self@.dom().contains(#[trigger] self.key_seq()[i]),
    {
        proof {
            use_type_invariant(self);
            lemma_ascending_no_duplicates(views(self.keys@));
            lemma_in_text_order(self@.dom(), self.key_seq());
            assert(self@.dom() =~= self.key_seq().to_set());
            vstd::seq_lib::seq_to_set_is_finite(self.key_seq());
        }
        self.keys.len()
    }

    pub fn is_empty(&self) -> (yes: bool)
        ensures
            yes == (self@.dom() == Set::<Seq<char>>::empty()),
    {
        let n: usize = self.len();
        proof {
            if n == 0 {
                assert(self@.dom() =~= Set::<Seq<char>>::empty());
            } else {
                assert(self@.dom().contains(self.key_seq()[0]));
            }
        }
        n == 0
    }

    /// The key at a position in ascending order.
    pub fn key_at(&self, i: usize) -> (key: &String)
        requires
            i < self.key_seq().len(),
        ensures
            key@ == self.key_seq()[i as int],
    {
        &self.keys[i]
    }

    /// The value at a position in ascending order of the keys.
    pub fn value_at(&self, i: usize) -> (value: &V)
        requires
            i < self.key_seq().len(),
        ensures
            value@ == self@[self.key_seq()[i as int]],
    {
        proof {
            use_type_invariant(self);
            lemma_ascending_no_duplicates(views(self.keys@));
            assert(views(self.keys@).index_of(self.key_seq()[i as int]) == i);
            assert(self.key_seq().contains(self.key_seq()[i as int]));
        }
        &self.values[i]
    }

    /// The first position whose key does not come before the given one.
    fn position(&self, key: &str) -> (p: usize)
        ensures
            p <= self.keys@.len(),
            forall|j: int| 0 <= j < p ==> text::text_before(#[trigger] self.key_seq()[j], key@),
            forall|j: int|
                p <= j < self.keys@.len() ==> !text::text_before(#[trigger] self.key_seq()[j], key@),
    {
        proof {
            use_type_invariant(self);
        }
        let mut low: usize = 0;
        let mut high: usize = self.keys.len();
        while low < high
            invariant
                low <= high <= self.keys@.len(),
                ascending(self.key_seq()),
                self.key_seq() == views(self.keys@),
                forall|j: int|
                    0 <= j < low ==> text::text_before(#[trigger] self.key_seq()[j], key@),
                forall|j: int|
                    high <= j < self.keys@.len() ==> !text::text_before(
                        #[trigger] self.key_seq()[j],
                        key@,
                    ),
            decreases high - low,
        {
            let mid: usize = low + (high - low) / 2;
            match order_of(self.keys[mid].as_str(), key) {
                TextOrder::Before => {
                    proof {
                        assert(text::text_before(self.key_seq()[mid as int], key@));
                        assert forall|j: int| 0 <= j < mid + 1 implies text::text_before(
                            #[trigger] self.key_seq()[j],
                            key@,
                        ) by {
                            if j < mid {
                                text::text_order_is_strict_and_total(
                                    self.key_seq()[j],
                                    self.key_seq()[mid as int],
                                    key@,
                                );
                            }
                        }
                    }
                    low = mid + 1;
                },
                _ => {
                    proof {
                        assert(!text::text_before(self.key_seq()[mid as int], key@));
                        assert forall|j: int| mid <= j < self.keys@.len() implies !text::text_before(
                            #[trigger] self.key_seq()[j],
                            key@,
                        ) by {
                            if j > mid {
                                text::text_order_is_strict_and_total(
                                    self.key_seq()[mid as int],
                                    self.key_seq()[j],
                                    key@,
                                );
                            }
                        }
                    }
                    high = mid;
                },
            }
        }
        low
    }

    /// The position of a key, if it is there.
    pub fn find(&self, key: &str) -> (found: Option<usize>)
        ensures
            match found {
                Some(i) => i < self.key_seq().len() && self.key_seq()[i as int] == key@
                    && self@.dom().contains(key@),
                None => !self@.dom().contains(key@),
            },
    {
        let p: usize = self.position(key);
        if p < self.keys.len() && text::same_text(self.keys[p].as_str(), key) {
            proof {
                assert(self.key_seq()[p as int] == key@);
                assert(self.key_seq().contains(key@));
            }
            Some(p)
        } else {
            proof {
                use_type_invariant(self);
                assert forall|j: int| 0 <= j < self.key_seq().len() implies #[trigger] self.key_seq()[j]
                    != key@ by {
                    text::text_order_is_strict_and_total(key@, self.key_seq()[j], key@);
                    if j > p {
                        assert(text::text_before(self.key_seq()[p as int], self.key_seq()[j]));
                    }
                }
                assert(!self.key_seq().contains(key@));
            }
            None
        }
    }

    pub fn contains_key(&self, key: &str) -> (yes: bool)
        ensures
            yes == self@.dom().contains(key@),
    {
        match self.find(key) {
            Some(_) => true,
            None => false,
        }
    }

    pub fn get(&self, key: &str) -> (value: Option<&V>)
        ensures
            match value {
                Some(v) => self@.dom().contains(key@) && v@ == self@[key@],
                None => !self@.dom().contains(key@),
            },
    {
        match self.find(key) {
            Some(i) => Some(self.value_at(i)),
            None => None,
        }
    }

    /// Adds an entry, in place of one under the same key.
    pub fn insert(&mut self, key: String, value: V)
        ensures
            final(self)@ == old(self)@.insert(key@, value@),
    {
        proof {
            use_type_invariant(&*self);
        }
        let p: usize = self.position(key.as_str());
        let here: bool = p < self.keys.len() && text::same_text(
            self.keys[p].as_str(),
            key.as_str(),
        );
        let ghost (old_keys, old_values) = (self.keys@, self.values@);
        let ghost k = key@;
        let ghost v = value@;
        proof {
            let ks = self.key_seq();
            assert(ks == views(old_keys));
            assert(forall|j: int| 0 <= j < p ==> text::text_before(#[trigger] ks[j], k));
            assert(forall|j: int| p <= j < old_keys.len() ==> !text::text_before(#[trigger] ks[j], k));
        }
        let mut whole: StrMap<V> = StrMap { keys: Vec::new(), values: Vec::new() };
        std::mem::swap(&mut whole, self);
        let StrMap { keys: mut keys, values: mut values } = whole;
        if here {
            values[p] = value;
            proof {
                lemma_ascending_no_duplicates(views(old_keys));
                assert(views(old_keys)[p as int] == k);
                assert(views(old_keys).contains(k));
                assert(map_of(keys@, values@) =~= map_of(old_keys, old_values).insert(k, v)) by {
                    assert forall|x: Seq<char>| views(old_keys).contains(x) implies #[trigger] values@[views(
                        old_keys,
                    ).index_of(x)]@ == map_of(old_keys, old_values).insert(k, v)[x] by {
                        let j = views(old_keys).index_of(x);
                        assert(views(old_keys)[j] == x);
                    }
                }
            }
        } else {
            keys.insert(p, key);
            values.insert(p, value);
            proof {
                lemma_inserted(old_keys, old_values, keys@, values@, p as int, k);
            }
        }
        *self = StrMap { keys, values };
    }

    /// Takes the entry under a key out, if there is one.
    pub fn remove(&mut self, key: &str) -> (removed: Option<V>)
        ensures
            final(self)@ == old(self)@.remove(key@),
            match removed {
                Some(v) => old(self)@.dom().contains(key@) && v@ == old(self)@[key@],
                None => !old(self)@.dom().contains(key@),
            },
    {
        proof {
            use_type_invariant(&*self);
        }
        match self.find(key) {
            None => {
                assert(self@.remove(key@) =~= self@);
                None
            },
            Some(p) => {
                let ghost (old_keys, old_values) = (self.keys@, self.values@);
                let mut whole: StrMap<V> = StrMap { keys: Vec::new(), values: Vec::new() };
                std::mem::swap(&mut whole, self);
                let StrMap { keys: mut keys, values: mut values } = whole;
                keys.remove(p);
                let value = values.remove(p);
                proof {
                    lemma_removed(old_keys, old_values, keys@, values@, p as int);
                    lemma_ascending_no_duplicates(views(old_keys));
                    assert(views(old_keys).index_of(key@) == p);
                }
                *self = StrMap { keys, values };
                Some(value)
            },
        }
    }
}

proof fn lemma_inserted<V: View>(
    keys: Seq<String>,
    values: Seq<V>,
    keys2: Seq<String>,
    values2: Seq<V>,
    p: int,
    k: Seq<char>,
)
    requires
        keys.len() == values.len(),
        ascending(views(keys)),
        0 <= p <= keys.len(),
        keys2 == keys.insert(p, keys2[p]),
        values2 == values.insert(p, values2[p]),
        keys2.len() == keys.len() + 1,
        values2.len() == values.len() + 1,
        keys2[p]@ == k,
        forall|j: int| 0 <= j < p ==> text::text_before(#[trigger] views(keys)[j], k),
        forall|j: int| p <= j < keys.len() ==> !text::text_before(#[trigger] views(keys)[j], k),
        p < keys.len() ==> views(keys)[p] != k,
    ensures
        ascending(views(keys2)),
        map_of(keys2, values2) == map_of(keys, values).insert(k, values2[p]@),
{
    let a = views(keys);
    let b = views(keys2);
    assert(b =~= a.insert(p, k));
    assert forall|i: int, j: int| #![trigger b[i], b[j]] 0 <= i < j < b.len() implies text::text_before(b[i], b[j]) by {
        let oi = if i < p { i } else { i - 1 };
        let oj = if j < p { j } else { j - 1 };
        if i == p {
            text::text_order_is_strict_and_total(k, a[oj], k);
            if oj == p {
            } else {
                assert(text::text_before(a[p], a[oj]));
                text::text_order_is_strict_and_total(k, a[p], a[oj]);
            }
        } else if j == p {
            assert(text::text_before(a[oi], k));
        } else {
            assert(text::text_before(a[oi], a[oj]));
        }
    }
    lemma_ascending_no_duplicates(a);
    lemma_ascending_no_duplicates(b);
    let m = map_of(keys, values).insert(k, values2[p]@);
    let m2 = map_of(keys2, values2);
    assert forall|x: Seq<char>| m2.dom().contains(x) <==> m.dom().contains(x) by {
        if b.contains(x) {
            let i = b.index_of(x);
            assert(b[i] == x);
            if i < p {
                assert(a[i] == x);
            } else if i > p {
                assert(a[i - 1] == x);
            }
        }
        if a.contains(x) {
            let i = a.index_of(x);
            assert(a[i] == x);
            if i < p {
                assert(b[i] == x);
            } else {
                assert(b[i + 1] == x);
            }
        }
        assert(b[p] == k);
    }
    assert forall|x: Seq<char>| m2.dom().contains(x) implies m2[x] == m[x] by {
        let i = b.index_of(x);
        assert(b[i] == x);
        if i < p {
            assert(a[i] == x);
            assert(a.index_of(x) == i);
            assert(b[p] == k);
        } else if i > p {
            assert(a[i - 1] == x);
            assert(a.index_of(x) == i - 1);
            assert(b[p] == k);
        }
    }
    assert(m2 =~= m);
}

proof fn lemma_removed<V: View>(
    keys: Seq<String>,
    values: Seq<V>,
    keys2: Seq<String>,
    values2: Seq<V>,
    p: int,
)
    requires
        keys.len() == values.len(),
        ascending(views(keys)),
        0 <= p < keys.len(),
        keys2 == keys.remove(p),
        values2 == values.remove(p),
    ensures
        ascending(views(keys2)),
        map_of(keys2, values2) == map_of(keys, values).remove(views(keys)[p]),
{
    let a = views(keys);
    let b = views(keys2);
    let k = a[p];
    assert(b =~= a.remove(p));
    assert forall|i: int, j: int| #![trigger b[i], b[j]] 0 <= i < j < b.len() implies text::text_before(b[i], b[j]) by {
        let oi = if i < p { i } else { i + 1 };
        let oj = if j < p { j } else { j + 1 };
        assert(text::text_before(a[oi], a[oj]));
    }
    lemma_ascending_no_duplicates(a);
    lemma_ascending_no_duplicates(b);
    let m = map_of(keys, values).remove(k);
    let m2 = map_of(keys2, values2);
    assert forall|x: Seq<char>| m2.dom().contains(x) <==> m.dom().contains(x) by {
        if b.contains(x) {
            let i = b.index_of(x);
            assert(b[i] == x);
            assert(a[if i < p { i } else { i + 1 }] == x);
        }
        if a.contains(x) && x != k {
            let i = a.index_of(x);
            assert(a[i] == x);
            assert(b[if i < p { i } else { i - 1 }] == x);
        }
    }
    assert forall|x: Seq<char>| m2.dom().contains(x) implies m2[x] == m[x] by {
        let i = b.index_of(x);
        assert(b[i] == x);
        let oi = if i < p { i } else { i + 1 };
        assert(a[oi] == x);
        assert(a.index_of(x) == oi);
    }
    assert(m2 =~= m);
}

/// Whether numbers stand in ascending order, each once.
pub open spec fn increasing(s: Seq<u64>) -> bool {
    forall|i: int, j: int| #![trigger s[i], s[j]] 0 <= i < j < s.len() ==> s[i] < s[j]
}

/// The numbers of a finite set in ascending order.
pub open spec fn in_number_order(set: Set<u64>) -> Seq<u64> {
    choose|s: Seq<u64>|
        increasing(s) && (forall|k: u64| set.contains(k) <==> #[trigger] s.contains(k))
}

proof fn lemma_increasing_unique(s: Seq<u64>, t: Seq<u64>)
    requires
        increasing(s),
        increasing(t),
        forall|k: u64| s.contains(k) <==> t.contains(k),
    ensures
        s == t,
    decreases s.len(),
{
    if s.len() == 0 {
        if t.len() > 0 {
            assert(t.contains(t[0]));
        }
        assert(s =~= t);
    } else {
        assert(s.contains(s.last()));
        assert(t.contains(s.last()));
        assert(t.contains(t.last()));
        assert(s.contains(t.last()));
        let p = t.index_of(s.last());
        let q = s.index_of(t.last());
        assert(s.last() == t.last());
        let s1 = s.drop_last();
        let t1 = t.drop_last();
        assert forall|k: u64| s1.contains(k) <==> t1.contains(k) by {
            if s1.contains(k) {
                let i = s1.index_of(k);
                assert(s[i] == k);
                assert(s.contains(k));
                assert(t.contains(k));
                let j = t.index_of(k);
                assert(t1[j] == k);
            }
            if t1.contains(k) {
                let i = t1.index_of(k);
                assert(t[i] == k);
                assert(t.contains(k));
                assert(s.contains(k));
                let j = s.index_of(k);
                assert(s1[j] == k);
            }
        }
        lemma_increasing_unique(s1, t1);
        assert(s =~= s1.push(s.last()));
        assert(t =~= t1.push(t.last()));
    }
}

/// An ascending sequence with the elements of a set is that set in order.
pub proof fn lemma_in_number_order(set: Set<u64>, s: Seq<u64>)
    requires
        increasing(s),
        forall|k: u64| set.contains(k) <==> #[trigger] s.contains(k),
    ensures
        in_number_order(set) == s,
{
    let t = in_number_order(set);
    assert(increasing(t) && (forall|k: u64| set.contains(k) <==> #[trigger] t.contains(k)));
    assert forall|k: u64| s.contains(k) <==> t.contains(k) by {
        assert(set.contains(k) <==> t.contains(k));
    }
    lemma_increasing_unique(s, t);
}

spec fn num_map_of<V: View>(keys: Seq<u64>, values: Seq<V>) -> Map<u64, V::V> {
    Map::new(|k: u64| keys.contains(k), |k: u64| values[keys.index_of(k)]@)
}

/// A map keyed by numbers, walked in ascending order of its keys.
#[derive(Debug, PartialEq, Eq)]
pub struct NumMap<V> {
    keys: Vec<u64>,
    values: Vec<V>,
}

impl<V: View> View for NumMap<V> {
    type V = Map<u64, V::V>;

    closed spec fn view(&self) -> Map<u64, V::V> {
        num_map_of(self.keys@, self.values@)
    }
}

impl<V> NumMap<V> {
    #[verifier::type_invariant]
    spec fn sorted(self) -> bool {
        &&& self.keys@.len() == self.values@.len()
        &&& increasing(self.keys@)
    }
}

impl<V: View> NumMap<V> {
    /// The keys in ascending order.
    pub closed spec fn key_seq(self) -> Seq<u64> {
        self.keys@
    }

    pub fn new() -> (map: NumMap<V>)
        ensures
            map@ == Map::<u64, V::V>::empty(),
    {
        let map = NumMap { keys: Vec::new(), values: Vec::new() };
        assert(map@ =~= Map::<u64, V::V>::empty());
        map
    }

    /// The number of entries.
    pub fn len(&self) -> (n: usize)
        ensures
            n == self.key_seq().len(),
            self.key_seq() == in_number_order(self@.dom()),
            increasing(self.key_seq()),
            forall|k: u64|
                #![trigger self@.dom().contains(k)]
                #![trigger self.key_seq().contains(k)]
                self@.dom().contains(k) <==> self.key_seq().contains(k),
            forall|i: int|
                0 <= i < self.key_seq().len() ==> self@.dom().contains(#[trigger] self.key_seq()[i]),
    {
        proof {
            use_type_invariant(self);
            lemma_in_number_order(self@.dom(), self.keys@);
        }
        self.keys.len()
    }

    /// The key at a position in ascending order.
    pub fn key_at(&self, i: usize) -> (key: u64)
        requires
            i < self.key_seq().len(),
        ensures
            key == self.key_seq()[i as int],
    {
        self.keys[i]
    }

    /// The value at a position in ascending order of the keys.
    pub fn value_at(&self, i: usize) -> (value: &V)
        requires
            i < self.key_seq().len(),
        ensures
            value@ == self@[self.key_seq()[i as int]],
    {
        proof {
            use_type_invariant(self);
            assert(self.keys@.contains(self.keys@[i as int]));
            assert(self.keys@.index_of(self.keys@[i as int]) == i);
        }
        &self.values[i]
    }

    /// The first position whose key is not below the given one.
    pub fn position(&self, key: u64) -> (p: usize)
        ensures
            p <= self.key_seq().len(),
            forall|j: int| 0 <= j < p ==> #[trigger] self.key_seq()[j] < key,
            forall|j: int| p <= j < self.key_seq().len() ==> #[trigger] self.key_seq()[j] >= key,
    {
        proof {
            use_type_invariant(self);
        }
        let mut low: usize = 0;
        let mut high: usize = self.keys.len();
        while low < high
            invariant
                low <= high <= self.keys@.len(),
                increasing(self.keys@),
                forall|j: int| 0 <= j < low ==> #[trigger] self.keys@[j] < key,
                forall|j: int| high <= j < self.keys@.len() ==> #[trigger] self.keys@[j] >= key,
            decreases high - low,
        {
            let mid: usize = low + (high - low) / 2;
            if self.keys[mid] < key {
                low = mid + 1;
            } else {
                high = mid;
            }
        }
        low
    }

    /// The position of a key, if it is there.
    pub fn find(&self, key: u64) -> (found: Option<usize>)
        ensures
            match found {
                Some(i) => i < self.key_seq().len() && self.key_seq()[i as int] == key
                    && self@.dom().contains(key),
                None => !self@.dom().contains(key),
            },
    {
        let p: usize = self.position(key);
        if p < self.keys.len() && self.keys[p] == key {
            assert(self.keys@.contains(key));
            Some(p)
        } else {
            proof {
                use_type_invariant(self);
                assert(!self.keys@.contains(key)) by {
                    if self.keys@.contains(key) {
                        let j = self.keys@.index_of(key);
                        assert(self.key_seq()[j] == key);
                        if j > p {
                            assert(self.key_seq()[p as int] < self.key_seq()[j]);
                        }
                    }
                }
            }
            None
        }
    }

    pub fn get(&self, key: u64) -> (value: Option<&V>)
        ensures
            match value {
                Some(v) => self@.dom().contains(key) && v@ == self@[key],
                None => !self@.dom().contains(key),
            },
    {
        match self.find(key) {
            Some(i) => Some(self.value_at(i)),
            None => None,
        }
    }

    /// Adds an entry, in place of one under the same key.
    pub fn insert(&mut self, key: u64, value: V)
        ensures
            final(self)@ == old(self)@.insert(key, value@),
    {
        proof {
            use_type_invariant(&*self);
        }
        let p: usize = self.position(key);
        let here: bool = p < self.keys.len() && self.keys[p] == key;
        let ghost (old_keys, old_values) = (self.keys@, self.values@);
        let ghost v = value@;
        proof {
            let ks = self.key_seq();
            assert(ks == old_keys);
            assert(forall|j: int| 0 <= j < p ==> #[trigger] ks[j] < key);
            assert(forall|j: int| p <= j < old_keys.len() ==> #[trigger] ks[j] >= key);
        }
        let mut whole: NumMap<V> = NumMap { keys: Vec::new(), values: Vec::new() };
        std::mem::swap(&mut whole, self);
        let NumMap { keys: mut keys, values: mut values } = whole;
        if here {
            values[p] = value;
            proof {
                assert(old_keys.contains(key));
                assert(num_map_of(keys@, values@) =~= num_map_of(old_keys, old_values).insert(
                    key,
                    v,
                )) by {
                    assert forall|x: u64| old_keys.contains(x) implies #[trigger] values@[old_keys.index_of(
                        x,
                    )]@ == num_map_of(old_keys, old_values).insert(key, v)[x] by {
                        let j = old_keys.index_of(x);
                        assert(old_keys[j] == x);
                    }
                }
            }
        } else {
            keys.insert(p, key);
            values.insert(p, value);
            proof {
                lemma_num_inserted(old_keys, old_values, keys@, values@, p as int, key);
            }
        }
        *self = NumMap { keys, values };
    }

    /// Takes the entry under a key out, if there is one.
    pub fn remove(&mut self, key: u64)
        ensures
            final(self)@ == old(self)@.remove(key),
    {
        proof {
            use_type_invariant(&*self);
        }
        match self.find(key) {
            None => {
                assert(self@.remove(key) =~= self@);
            },
            Some(p) => {
                let ghost (old_keys, old_values) = (self.keys@, self.values@);
                let mut whole: NumMap<V> = NumMap { keys: Vec::new(), values: Vec::new() };
                std::mem::swap(&mut whole, self);
                let NumMap { keys: mut keys, values: mut values } = whole;
                keys.remove(p);
                values.remove(p);
                proof {
                    lemma_num_removed(old_keys, old_values, keys@, values@, p as int);
                }
                *self = NumMap { keys, values };
            },
        }
    }
}

impl<V: Duplicate> Clone for NumMap<V> {
    fn clone(&self) -> (copy: Self)
        ensures
            copy@ == self@,
    {
        self.duplicate()
    }
}

impl<V: Duplicate> Duplicate for NumMap<V> {
    fn duplicate(&self) -> (copy: Self) {
        proof {
            use_type_invariant(self);
        }
        let mut keys: Vec<u64> = Vec::new();
        let mut values: Vec<V> = Vec::new();
        let mut i: usize = 0;
        while i < self.keys.len()
            invariant
                i <= self.keys.len(),
                self.keys.len() == self.values.len(),
                keys.len() == i,
                values.len() == i,
                forall|j: int| 0 <= j < i ==> #[trigger] keys@[j] == self.keys@[j],
                forall|j: int| 0 <= j < i ==> (#[trigger] values@[j])@ == self.values@[j]@,
            decreases self.keys.len() - i,
        {
            keys.push(self.keys[i]);
            values.push(self.values[i].duplicate());
            i += 1;
        }
        proof {
            assert(keys@ =~= self.keys@);
            assert(num_map_of(keys@, values@) =~= num_map_of(self.keys@, self.values@));
        }
        NumMap { keys, values }
    }
}

proof fn lemma_num_inserted<V: View>(
    keys: Seq<u64>,
    values: Seq<V>,
    keys2: Seq<u64>,
    values2: Seq<V>,
    p: int,
    k: u64,
)
    requires
        keys.len() == values.len(),
        increasing(keys),
        0 <= p <= keys.len(),
        keys2 == keys.insert(p, k),
        values2 == values.insert(p, values2[p]),
        values2.len() == values.len() + 1,
        forall|j: int| 0 <= j < p ==> #[trigger] keys[j] < k,
        forall|j: int| p <= j < keys.len() ==> #[trigger] keys[j] >= k,
        p < keys.len() ==> keys[p] != k,
    ensures
        increasing(keys2),
        num_map_of(keys2, values2) == num_map_of(keys, values).insert(k, values2[p]@),
{
    assert forall|i: int, j: int| #![trigger keys2[i], keys2[j]] 0 <= i < j < keys2.len() implies keys2[i]
        < keys2[j] by {
        let oi = if i < p { i } else { i - 1 };
        let oj = if j < p { j } else { j - 1 };
        if i == p {
            if oj != p {
                assert(keys[p] < keys[oj]);
            }
        } else if j == p {
            assert(keys[oi] < k);
        } else {
            assert(keys[oi] < keys[oj]);
        }
    }
    let m = num_map_of(keys, values).insert(k, values2[p]@);
    let m2 = num_map_of(keys2, values2);
    assert(keys2[p] == k);
    assert forall|x: u64| m2.dom().contains(x) <==> m.dom().contains(x) by {
        if keys2.contains(x) {
            let i = keys2.index_of(x);
            assert(keys2[i] == x);
            if i < p {
                assert(keys[i] == x);
            } else if i > p {
                assert(keys[i - 1] == x);
            }
        }
        if keys.contains(x) {
            let i = keys.index_of(x);
            assert(keys[i] == x);
            if i < p {
                assert(keys2[i] == x);
            } else {
                assert(keys2[i + 1] == x);
            }
        }
    }
    assert forall|x: u64| m2.dom().contains(x) implies m2[x] == m[x] by {
        let i = keys2.index_of(x);
        assert(keys2[i] == x);
        if i < p {
            assert(keys[i] == x);
            assert(keys.contains(x));
            assert(keys.index_of(x) == i);
        } else if i > p {
            assert(keys[i - 1] == x);
            assert(keys.contains(x));
            assert(keys.index_of(x) == i - 1);
        }
    }
    assert(m2 =~= m);
}

proof fn lemma_num_removed<V: View>(
    keys: Seq<u64>,
    values: Seq<V>,
    keys2: Seq<u64>,
    values2: Seq<V>,
    p: int,
)
    requires
        keys.len() == values.len(),
        increasing(keys),
        0 <= p < keys.len(),
        keys2 == keys.remove(p),
        values2 == values.remove(p),
    ensures
        increasing(keys2),
        num_map_of(keys2, values2) == num_map_of(keys, values).remove(keys[p]),
{
    let m = num_map_of(keys, values).remove(keys[p]);
    let m2 = num_map_of(keys2, values2);
    assert forall|x: u64| m2.dom().contains(x) <==> m.dom().contains(x) by {
        if keys2.contains(x) {
            let i = keys2.index_of(x);
            assert(keys2[i] == x);
            assert(keys[if i < p { i } else { i + 1 }] == x);
        }
        if keys.contains(x) && x != keys[p] {
            let i = keys.index_of(x);
            assert(keys[i] == x);
            assert(keys2[if i < p { i } else { i - 1 }] == x);
        }
    }
    assert forall|x: u64| m2.dom().contains(x) implies m2[x] == m[x] by {
        let i = keys2.index_of(x);
        assert(keys2[i] == x);
        let oi = if i < p { i } else { i + 1 };
        assert(keys[oi] == x);
        assert(keys.contains(x));
        assert(keys.index_of(x) == oi);
    }
    assert(m2 =~= m);
}

/// The values of a map stand in the order of their keys, each once.
pub proof fn values_stand_in_the_order_of_their_keys<V>(m: Map<Seq<char>, V>, i: int, j: int)
    requires
        m.dom().finite(),
        0 <= i < j < pairs_in_order(m).len(),
    ensures
        ({
            let pairs = pairs_in_order(m);
            &&& values_in_order(m).len() == pairs.len()
            &&& m.dom().contains(pairs[i].0)
            &&& pairs[i].1 == m[pairs[i].0]
            &&& values_in_order(m)[i] == m[pairs[i].0]
            &&& text::text_before(pairs[i].0, pairs[j].0)
        }),
{
    lemma_text_order_is_complete(m.dom());
    assert(in_text_order(m.dom()).contains(in_text_order(m.dom())[i]));
}

} // verus!
