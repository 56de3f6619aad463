//! An ordered map keyed by byte strings, and an ordered set of byte strings.

use vstd::prelude::*;

use crate::text::copy_bytes;

verus! {

/// Whether `a` comes before `b`: at the first place where they differ `a` has ended or holds the
/// smaller byte.
pub open spec fn precedes(a: Seq<u8>, b: Seq<u8>) -> bool {
    exists|k: int| precedes_at(a, b, k)
}

/// Whether `a` and `b` agree up to `k` and `a` has ended there or holds the smaller byte.
pub open spec fn precedes_at(a: Seq<u8>, b: Seq<u8>, k: int) -> bool {
    &&& 0 <= k <= a.len()
    &&& k < b.len()
    &&& forall|j: int| 0 <= j < k ==> a[j] == b[j]
    &&& k == a.len() || a[k] < b[k]
}

/// The order is transitive.
pub proof fn lemma_precedes_transitive(a: Seq<u8>, b: Seq<u8>, c: Seq<u8>)
    requires
        precedes(a, b),
        precedes(b, c),
    ensures
        precedes(a, c),
{
    let p = choose|k: int| precedes_at(a, b, k);
    let q = choose|k: int| precedes_at(b, c, k);
    if p <= q {
        assert(precedes_at(a, c, p));
    } else {
        assert(precedes_at(a, c, q));
    }
}

/// No byte string comes before one that comes before it, nor before itself.
pub proof fn lemma_precedes_asymmetric(a: Seq<u8>, b: Seq<u8>)
    ensures
        !(precedes(a, b) && precedes(b, a)),
        !precedes(a, a),
{
    if precedes(a, b) && precedes(b, a) {
        let p = choose|k: int| precedes_at(a, b, k);
        let q = choose|k: int| precedes_at(b, a, k);
        if p < q {
            assert(b[p] == a[p]);
        } else if q < p {
            assert(a[q] == b[q]);
        }
    }
    if precedes(a, a) {
        let p = choose|k: int| precedes_at(a, a, k);
        assert(false);
    }
}

/// How one byte string lies to another.
#[derive(Clone, Copy)]
pub enum Side {
    Before,
    Same,
    After,
}

/// Says whether `a` comes before `b`, is equal to it or comes after it.
pub fn side_of(a: &[u8], b: &[u8]) -> (side: Side)
    ensures
        match side {
            Side::Before => precedes(a@, b@),
            Side::Same => a@ == b@,
            Side::After => precedes(b@, a@),
        },
{
    let mut i: usize = 0;
    while i < a.len() && i < b.len()
        invariant
            i <= a@.len(),
            i <= b@.len(),
            forall|j: int| 0 <= j < i ==> a@[j] == b@[j],
        decreases a@.len() - i,
    {
        if a[i] < b[i] {
            assert(precedes_at(a@, b@, i as int));
            return Side::Before;
        }
        if b[i] < a[i] {
            assert(precedes_at(b@, a@, i as int));
            return Side::After;
        }
        i += 1;
    }
    if a.len() < b.len() {
        assert(precedes_at(a@, b@, i as int));
        Side::Before
    } else if b.len() < a.len() {
        assert(precedes_at(b@, a@, i as int));
        Side::After
    } else {
        assert(a@ =~= b@);
        Side::Same
    }
}

/// Whether the byte strings stand in strictly ascending order.
pub open spec fn ascending(keys: Seq<Seq<u8>>) -> bool {
    forall|i: int, j: int| 0 <= i < j < keys.len() ==> precedes(#[trigger] keys[i], #[trigger] keys[j])
}

/// A key and what it stands for.
pub struct Entry<V> {
    pub key: Vec<u8>,
    pub value: V,
}

/// A map from byte strings to values that keeps its keys in ascending order.
pub struct ByteMap<V> {
    entries: Vec<Entry<V>>,
}

/// The keys of a list of entries.
pub open spec fn entry_keys<V>(entries: Seq<Entry<V>>) -> Seq<Seq<u8>> {
    entries.map_values(|entry: Entry<V>| entry.key@)
}

/// The map that a list of entries with distinct keys stands for.
pub open spec fn entry_map<V>(entries: Seq<Entry<V>>) -> Map<Seq<u8>, V> {
    Map::new(
        |key: Seq<u8>| entry_keys(entries).contains(key),
        |key: Seq<u8>| entries[entry_keys(entries).index_of(key)].value,
    )
}

proof fn lemma_entry_lookup<V>(entries: Seq<Entry<V>>, i: int)
    requires
        ascending(entry_keys(entries)),
        0 <= i < entries.len(),
    ensures
        entry_map(entries).contains_key(entries[i].key@),
        entry_map(entries)[entries[i].key@] == entries[i].value,
{
    let keys = entry_keys(entries);
    assert(keys[i] == entries[i].key@);
    assert(keys.contains(keys[i]));
    let found = keys.index_of(keys[i]);
    if found != i {
        lemma_precedes_asymmetric(keys[found], keys[i]);
        if found < i {
            assert(precedes(keys[found], keys[i]));
        } else {
            assert(precedes(keys[i], keys[found]));
        }
    }
}

impl<V> View for ByteMap<V> {
    type V = Map<Seq<u8>, V>;

    closed spec fn view(&self) -> Map<Seq<u8>, V> {
        entry_map(self.entries@)
    }
}

impl<V> ByteMap<V> {
    #[verifier::type_invariant]
    spec fn ordered(self) -> bool {
        ascending(entry_keys(self.entries@))
    }

    /// The keys in ascending order.
    pub closed spec fn keys(self) -> Seq<Seq<u8>> {
        entry_keys(self.entries@)
    }

    /// A map without keys.
    pub fn new() -> (map: Self)
        ensures
            map@ == Map::<Seq<u8>, V>::empty(),
            map.keys() == Seq::<Seq<u8>>::empty(),
    {
        let map = ByteMap { entries: Vec::new() };
        assert(map@ =~= Map::<Seq<u8>, V>::empty());
        assert(map.keys() =~= Seq::<Seq<u8>>::empty());
        map
    }

    /// The number of keys. The keys are the domain of the map, each once and in ascending order.
    pub fn len(&self) -> (count: usize)
        ensures
            count == self.keys().len(),
            ascending(self.keys()),
            forall|key: Seq<u8>| self@.contains_key(key) <==> #[trigger] self.keys().contains(key),
    {
        proof {
            use_type_invariant(self);
        }
        self.entries.len()
    }

    /// The entry at a place in key order.
    pub fn entry_at(&self, i: usize) -> (entry: (&Vec<u8>, &V))
        requires
            i < self.keys().len(),
        ensures
            entry.0@ == self.keys()[i as int],
            self@.contains_key(entry.0@),
            *entry.1 == self@[entry.0@],
    {
        proof {
            use_type_invariant(self);
            lemma_entry_lookup(self.entries@, i as int);
        }
        (&self.entries[i].key, &self.entries[i].value)
    }

    /// Finds the first place whose key does not come before `key`.
    fn place_of(entries: &Vec<Entry<V>>, key: &[u8]) -> (place: (usize, bool))
        requires
            ascending(entry_keys(entries@)),
        ensures
            place.0 <= entries@.len(),
            forall|i: int| 0 <= i < place.0 ==> precedes((#[trigger] entries@[i]).key@, key@),
            place.1 ==> place.0 < entries@.len() && entries@[place.0 as int].key@ == key@,
            !place.1 ==> forall|i: int|
                place.0 <= i < entries@.len() ==> precedes(key@, (#[trigger] entries@[i]).key@),
    {
        let ghost keys = entry_keys(entries@);
        let mut low: usize = 0;
        let mut high: usize = entries.len();
        while low < high
            invariant
                keys == entry_keys(entries@),
                ascending(keys),
                low <= high <= entries@.len(),
                forall|i: int| 0 <= i < low ==> precedes((#[trigger] entries@[i]).key@, key@),
                forall|i: int|
                    high <= i < entries@.len() ==> precedes(key@, (#[trigger] entries@[i]).key@),
            decreases high - low,
        {
            let middle: usize = low + (high - low) / 2;
            match side_of(entries[middle].key.as_slice(), key) {
                Side::Before => {
                    assert forall|i: int| 0 <= i < middle + 1 implies precedes(
                        (#[trigger] entries@[i]).key@,
                        key@,
                    ) by {
                        if i < middle {
                            assert(precedes(keys[i], keys[middle as int]));
                            lemma_precedes_transitive(keys[i], keys[middle as int], key@);
                        }
                    }
                    low = middle + 1;
                },
                Side::After => {
                    assert forall|i: int| middle <= i < entries@.len() implies precedes(
                        key@,
                        (#[trigger] entries@[i]).key@,
                    ) by {
                        if middle < i {
                            assert(precedes(keys[middle as int], keys[i]));
                            lemma_precedes_transitive(key@, keys[middle as int], keys[i]);
                        }
                    }
                    high = middle;
                },
                Side::Same => {
                    assert forall|i: int| 0 <= i < middle implies precedes(
                        (#[trigger] entries@[i]).key@,
                        key@,
                    ) by {
                        assert(precedes(keys[i], keys[middle as int]));
                    }
                    return (middle, true);
                },
            }
        }
        (low, false)
    }

    proof fn lemma_absent(entries: Seq<Entry<V>>, key: Seq<u8>, place: int)
        requires
            0 <= place <= entries.len(),
            forall|i: int| 0 <= i < place ==> precedes((#[trigger] entries[i]).key@, key),
            forall|i: int|
                place <= i < entries.len() ==> precedes(key, (#[trigger] entries[i]).key@),
        ensures
            !entry_map(entries).contains_key(key),
    {
        let keys = entry_keys(entries);
        if keys.contains(key) {
            let i = keys.index_of(key);
            assert(keys[i] == key);
            lemma_precedes_asymmetric(key, key);
            assert(entries[i].key@ == key);
        }
    }

    /// Looks a key up.
    pub fn get(&self, key: &[u8]) -> (value: Option<&V>)
        ensures
            match value {
                Some(value) => self@.contains_key(key@) && *value == self@[key@],
                None => !self@.contains_key(key@),
            },
    {
        proof {
            use_type_invariant(self);
        }
        let (place, found) = Self::place_of(&self.entries, key);
        if found {
            proof {
                lemma_entry_lookup(self.entries@, place as int);
            }
            Some(&self.entries[place].value)
        } else {
            proof {
                Self::lemma_absent(self.entries@, key@, place as int);
            }
            None
        }
    }

    /// Whether a key is in the map.
    pub fn contains_key(&self, key: &[u8]) -> (found: bool)
        ensures
            found == self@.contains_key(key@),
    {
        self.get(key).is_some()
    }

    /// Maps `key` to `value` and says whether the key was new.
    pub fn insert(&mut self, key: Vec<u8>, value: V) -> (fresh: bool)
        ensures
            fresh == !old(self)@.contains_key(key@),
            final(self)@ == old(self)@.insert(key@, value),
            fresh ==> final(self).keys().len() == old(self).keys().len() + 1,
            !fresh ==> final(self).keys() == old(self).keys(),
    {
        proof {
            use_type_invariant(&*self);
        }
        let ghost before = self.entries@;
        let mut entries: Vec<Entry<V>> = Vec::new();
        std::mem::swap(&mut entries, &mut self.entries);
        let (place, found) = Self::place_of(&entries, key.as_slice());
        let ghost entry = Entry { key, value };
        if found {
            proof {
                lemma_entry_lookup(before, place as int);
            }
            let ghost old_key = before[place as int].key@;
            entries.set(place, Entry { key, value });
            proof {
                assert(entry_keys(entries@) =~= entry_keys(before));
                Self::lemma_replaced(before, entries@, place as int);
            }
            self.entries = entries;
            false
        } else {
            proof {
                Self::lemma_absent(before, key@, place as int);
            }
            entries.insert(place, Entry { key, value });
            proof {
                assert(entries@ == before.insert(place as int, entry));
                Self::lemma_inserted(before, entries@, place as int);
            }
            self.entries = entries;
            true
        }
    }

    proof fn lemma_replaced(before: Seq<Entry<V>>, after: Seq<Entry<V>>, place: int)
        requires
            ascending(entry_keys(before)),
            0 <= place < before.len(),
            after.len() == before.len(),
            entry_keys(after) == entry_keys(before),
            forall|i: int| 0 <= i < before.len() && i != place ==> after[i] == before[i],
        ensures
            entry_map(after) == entry_map(before).insert(after[place].key@, after[place].value),
    {
        let keys = entry_keys(before);
        let left = entry_map(after);
        let right = entry_map(before).insert(after[place].key@, after[place].value);
        assert(keys[place] == after[place].key@) by {
            assert(entry_keys(after)[place] == after[place].key@);
        }
        assert(keys.contains(keys[place]));
        assert forall|key: Seq<u8>| #[trigger] left.contains_key(key) implies left[key]
            == right[key] by {
            let i = keys.index_of(key);
            assert(keys[i] == key);
            lemma_entry_lookup(after, i);
            lemma_entry_lookup(before, i);
            assert(entry_keys(after)[i] == after[i].key@);
            if i != place {
                if key == after[place].key@ {
                    lemma_precedes_asymmetric(keys[i], keys[place]);
                    assert(precedes(keys[i], keys[place]) || precedes(keys[place], keys[i]));
                }
            }
        }
        assert(left =~= right);
    }

    proof fn lemma_inserted(before: Seq<Entry<V>>, after: Seq<Entry<V>>, place: int)
        requires
            ascending(entry_keys(before)),
            0 <= place <= before.len(),
            after.len() == before.len() + 1,
            after == before.insert(place, after[place]),
            forall|i: int|
                0 <= i < place ==> precedes((#[trigger] before[i]).key@, after[place].key@),
            forall|i: int|
                place <= i < before.len() ==> precedes(
                    after[place].key@,
                    (#[trigger] before[i]).key@,
                ),
        ensures
            ascending(entry_keys(after)),
            entry_map(after) == entry_map(before).insert(after[place].key@, after[place].value),
    {
        let keys = entry_keys(before);
        let next = entry_keys(after);
        assert forall|i: int, j: int| 0 <= i < j < next.len() implies precedes(
            #[trigger] next[i],
            #[trigger] next[j],
        ) by {
            let p = if i < place {
                i
            } else {
                i - 1
            };
            let q = if j < place {
                j
            } else {
                j - 1
            };
            if i == place {
                assert(next[j] == before[q].key@);
            } else if j == place {
                assert(next[i] == before[p].key@);
            } else {
                assert(next[i] == keys[p]);
                assert(next[j] == keys[q]);
            }
        }
        let left = entry_map(after);
        let right = entry_map(before).insert(after[place].key@, after[place].value);
        assert forall|key: Seq<u8>| left.contains_key(key) <==> right.contains_key(key) by {
            if left.contains_key(key) {
                let i = next.index_of(key);
                assert(next[i] == key);
                if i < place {
                    assert(keys[i] == key);
                } else if i > place {
                    assert(keys[i - 1] == key);
                }
            }
            if right.contains_key(key) {
                if key == after[place].key@ {
                    assert(next[place] == key);
                } else {
                    let i = keys.index_of(key);
                    assert(keys[i] == key);
                    if i < place {
                        assert(next[i] == key);
                    } else {
                        assert(next[i + 1] == key);
                    }
                }
            }
        }
        assert forall|key: Seq<u8>| #[trigger] left.contains_key(key) implies left[key]
            == right[key] by {
            let i = next.index_of(key);
            assert(next[i] == key);
            lemma_entry_lookup(after, i);
            if i < place {
                lemma_entry_lookup(before, i);
                assert(precedes(next[i], next[place]));
                lemma_precedes_asymmetric(next[i], next[place]);
            } else if i > place {
                lemma_entry_lookup(before, i - 1);
                assert(precedes(next[place], next[i]));
                lemma_precedes_asymmetric(next[i], next[place]);
            }
        }
        assert(left =~= right);
    }

    /// Takes a key out of the map.
    pub fn remove(&mut self, key: &[u8]) -> (value: Option<V>)
        ensures
            final(self)@ == old(self)@.remove(key@),
            match value {
                Some(value) => old(self)@.contains_key(key@) && value == old(self)@[key@],
                None => !old(self)@.contains_key(key@),
            },
    {
        proof {
            use_type_invariant(&*self);
        }
        let ghost before = self.entries@;
        let mut entries: Vec<Entry<V>> = Vec::new();
        std::mem::swap(&mut entries, &mut self.entries);
        let (place, found) = Self::place_of(&entries, key);
        if found {
            proof {
                lemma_entry_lookup(before, place as int);
            }
            let entry = entries.remove(place);
            proof {
                Self::lemma_removed(before, entries@, place as int);
            }
            self.entries = entries;
            Some(entry.value)
        } else {
            proof {
                Self::lemma_absent(before, key@, place as int);
                assert(entry_map(before).remove(key@) =~= entry_map(before));
            }
            self.entries = entries;
            None
        }
    }

    proof fn lemma_removed(before: Seq<Entry<V>>, after: Seq<Entry<V>>, place: int)
        requires
            ascending(entry_keys(before)),
            0 <= place < before.len(),
            after == before.remove(place),
        ensures
            ascending(entry_keys(after)),
            entry_map(after) == entry_map(before).remove(before[place].key@),
    {
        let keys = entry_keys(before);
        let next = entry_keys(after);
        assert forall|i: int, j: int| 0 <= i < j < next.len() implies precedes(
            #[trigger] next[i],
            #[trigger] next[j],
        ) by {
            let p = if i < place {
                i
            } else {
                i + 1
            };
            let q = if j < place {
                j
            } else {
                j + 1
            };
            assert(next[i] == keys[p]);
            assert(next[j] == keys[q]);
        }
        let left = entry_map(after);
        let right = entry_map(before).remove(before[place].key@);
        assert forall|key: Seq<u8>| left.contains_key(key) <==> right.contains_key(key) by {
            if left.contains_key(key) {
                let i = next.index_of(key);
                assert(next[i] == key);
                let p = if i < place {
                    i
                } else {
                    i + 1
                };
                assert(keys[p] == key);
                assert(keys[place] == before[place].key@);
                lemma_precedes_asymmetric(keys[p], keys[place]);
                assert(precedes(keys[p], keys[place]) || precedes(keys[place], keys[p]));
            }
            if right.contains_key(key) {
                let i = keys.index_of(key);
                assert(keys[i] == key);
                assert(keys[place] == before[place].key@);
                if i < place {
                    assert(next[i] == key);
                } else if i > place {
                    assert(next[i - 1] == key);
                }
            }
        }
        assert forall|key: Seq<u8>| #[trigger] left.contains_key(key) implies left[key]
            == right[key] by {
            let i = next.index_of(key);
            assert(next[i] == key);
            lemma_entry_lookup(after, i);
            let p = if i < place {
                i
            } else {
                i + 1
            };
            assert(before[p] == after[i]);
            lemma_entry_lookup(before, p);
        }
        assert(left =~= right);
    }
}

/// A set of byte strings.
pub struct ByteSet {
    members: ByteMap<()>,
}

impl View for ByteSet {
    type V = Set<Seq<u8>>;

    closed spec fn view(&self) -> Set<Seq<u8>> {
        self.members@.dom()
    }
}

impl ByteSet {
    /// A set without members.
    pub fn new() -> (set: Self)
        ensures
            set@ == Set::<Seq<u8>>::empty(),
            set.ordered() == Seq::<Seq<u8>>::empty(),
    {
        let set = ByteSet { members: ByteMap::new() };
        assert(set@ =~= Set::<Seq<u8>>::empty());
        set
    }

    /// The members in ascending order.
    pub closed spec fn ordered(self) -> Seq<Seq<u8>> {
        self.members.keys()
    }

    /// The number of members. The ordered members are the members, each once and in ascending
    /// order.
    pub fn len(&self) -> (count: usize)
        ensures
            count == self.ordered().len(),
            ascending(self.ordered()),
            forall|member: Seq<u8>|
                self@.contains(member) <==> #[trigger] self.ordered().contains(member),
    {
        self.members.len()
    }

    /// The member at a place in ascending order.
    pub fn member_at(&self, i: usize) -> (member: &Vec<u8>)
        requires
            i < self.ordered().len(),
        ensures
            member@ == self.ordered()[i as int],
            self@.contains(member@),
    {
        self.members.entry_at(i).0
    }

    /// Whether a byte string is a member.
    pub fn contains(&self, member: &[u8]) -> (found: bool)
        ensures
            found == self@.contains(member@),
    {
        self.members.contains_key(member)
    }

    /// Adds a member and says whether it was new.
    pub fn insert(&mut self, member: &[u8]) -> (fresh: bool)
        ensures
            fresh == !old(self)@.contains(member@),
            final(self)@ == old(self)@.insert(member@),
            fresh ==> final(self).ordered().len() == old(self).ordered().len() + 1,
            !fresh ==> final(self).ordered() == old(self).ordered(),
    {
        let fresh = self.members.insert(copy_bytes(member), ());
        assert(self@ =~= old(self)@.insert(member@));
        fresh
    }
}

/// The members of a finite set in ascending order.
pub open spec fn in_order(members: Set<Seq<u8>>) -> Seq<Seq<u8>> {
    choose|keys: Seq<Seq<u8>>| #[trigger] ascending(keys) && keys.to_set() == members
}

proof fn lemma_last_is_greatest(keys: Seq<Seq<u8>>, key: Seq<u8>)
    requires
        ascending(keys),
        keys.contains(key),
    ensures
        key == keys.last() || precedes(key, keys.last()),
{
    let i = keys.index_of(key);
    if i < keys.len() - 1 {
        assert(precedes(keys[i], keys[keys.len() - 1]));
    }
}

proof fn lemma_shorter_members(keys: Seq<Seq<u8>>, key: Seq<u8>)
    requires
        ascending(keys),
        keys.len() > 0,
    ensures
        keys.drop_last().contains(key) <==> keys.contains(key) && key != keys.last(),
{
    let shorter = keys.drop_last();
    if shorter.contains(key) {
        let i = shorter.index_of(key);
        assert(keys[i] == key);
        assert(precedes(keys[i], keys[keys.len() - 1]));
        lemma_precedes_asymmetric(key, key);
    }
    if keys.contains(key) && key != keys.last() {
        let i = keys.index_of(key);
        assert(shorter[i] == key);
    }
}

/// Two ascending lists with the same members are equal.
pub proof fn lemma_ascending_is_unique(a: Seq<Seq<u8>>, b: Seq<Seq<u8>>)
    requires
        ascending(a),
        ascending(b),
        forall|key: Seq<u8>| #[trigger] a.contains(key) <==> b.contains(key),
    ensures
        a == b,
    decreases a.len(),
{
    if a.len() == 0 {
        if b.len() > 0 {
            assert(b.contains(b[0]));
            assert(a.contains(b[0]));
        }
        assert(a =~= b);
    } else {
        assert(a.contains(a.last()));
        assert(b.contains(a.last()));
        assert(b.contains(b.last()));
        assert(a.contains(b.last()));
        lemma_last_is_greatest(a, b.last());
        lemma_last_is_greatest(b, a.last());
        lemma_precedes_asymmetric(a.last(), b.last());
        assert(a.last() == b.last());
        let left = a.drop_last();
        let right = b.drop_last();
        assert forall|key: Seq<u8>| #[trigger] left.contains(key) <==> right.contains(key) by {
            lemma_shorter_members(a, key);
            lemma_shorter_members(b, key);
            assert(a.contains(key) <==> b.contains(key));
        }
        lemma_ascending_is_unique(left, right);
        assert(a =~= left.push(a.last()));
        assert(b =~= right.push(b.last()));
    }
}

/// An ascending list is the ordered form of the set of its members, and as long as the set is
/// large.
pub proof fn lemma_in_order(keys: Seq<Seq<u8>>, members: Set<Seq<u8>>)
    requires
        ascending(keys),
        forall|key: Seq<u8>| members.contains(key) <==> #[trigger] keys.contains(key),
    ensures
        keys == in_order(members),
        members.finite(),
        members.len() == keys.len(),
{
    assert(keys.to_set() =~= members);
    let ordered = in_order(members);
    assert(ascending(ordered) && ordered.to_set() == members);
    assert forall|key: Seq<u8>| #[trigger] keys.contains(key) <==> ordered.contains(key) by {
        assert(ordered.to_set().contains(key) <==> ordered.contains(key));
    }
    lemma_ascending_is_unique(keys, ordered);
    assert forall|i: int, j: int| 0 <= i < j < keys.len() implies keys[i] != keys[j] by {
        assert(precedes(keys[i], keys[j]));
        lemma_precedes_asymmetric(keys[i], keys[j]);
    }
    assert(keys.no_duplicates());
    keys.unique_seq_to_set();
    vstd::seq_lib::seq_to_set_is_finite(keys);
}

/// One of two different byte strings comes before the other.
pub proof fn lemma_precedes_total(a: Seq<u8>, b: Seq<u8>)
    ensures
        a == b || precedes(a, b) || precedes(b, a),
    decreases a.len(),
{
    let shared = if a.len() < b.len() { a.len() } else { b.len() };
    if exists|k: int| 0 <= k < shared && a[k] != b[k] {
        let k = lemma_first_difference(a, b, shared as int);
        assert(precedes_at(a, b, k) || precedes_at(b, a, k));
    } else if a.len() == b.len() {
        assert(a =~= b);
    } else {
        assert(precedes_at(a, b, shared as int) || precedes_at(b, a, shared as int));
    }
}

proof fn lemma_first_difference(a: Seq<u8>, b: Seq<u8>, end: int) -> (k: int)
    requires
        0 <= end <= a.len(),
        end <= b.len(),
        exists|k: int| 0 <= k < end && a[k] != b[k],
    ensures
        0 <= k < end,
        a[k] != b[k],
        forall|i: int| 0 <= i < k ==> a[i] == b[i],
    decreases end,
{
    if exists|k: int| 0 <= k < end - 1 && a[k] != b[k] {
        lemma_first_difference(a, b, end - 1)
    } else {
        end - 1
    }
}

/// Every finite set has an ordered form.
pub proof fn lemma_finite_set_has_order(members: Set<Seq<u8>>)
    requires
        members.finite(),
    ensures
        ascending(in_order(members)),
        in_order(members).to_set() == members,
    decreases members.len(),
{
    if members.len() == 0 {
        let keys = Seq::<Seq<u8>>::empty();
        assert(keys.to_set() =~= members);
        assert(ascending(keys));
    } else {
        let last = lemma_greatest(members);
        let rest = members.remove(last);
        lemma_finite_set_has_order(rest);
        let shorter = in_order(rest);
        let keys = shorter.push(last);
        assert forall|i: int, j: int| 0 <= i < j < keys.len() implies precedes(
            #[trigger] keys[i],
            #[trigger] keys[j],
        ) by {
            if j == shorter.len() {
                assert(shorter.to_set().contains(shorter[i]));
                assert(rest.contains(shorter[i]));
            } else {
                assert(precedes(shorter[i], shorter[j]));
            }
        }
        assert forall|key: Seq<u8>| keys.to_set().contains(key) <==> members.contains(key) by {
            assert(rest.contains(key) <==> shorter.to_set().contains(key));
            if keys.contains(key) {
                let i = keys.index_of(key);
                if i < shorter.len() {
                    assert(shorter[i] == key);
                    assert(shorter.contains(key));
                }
            }
            if members.contains(key) {
                if key == last {
                    assert(keys[shorter.len() as int] == key);
                } else {
                    let i = shorter.index_of(key);
                    assert(keys[i] == key);
                }
            }
        }
        assert(keys.to_set() =~= members);
        assert(ascending(keys));
    }
}

proof fn lemma_greatest(members: Set<Seq<u8>>) -> (greatest: Seq<u8>)
    requires
        members.finite(),
        members.len() > 0,
    ensures
        members.contains(greatest),
        forall|key: Seq<u8>|
            members.contains(key) ==> key == greatest || #[trigger] precedes(key, greatest),
    decreases members.len(),
{
    let one = members.choose();
    let rest = members.remove(one);
    if rest.len() == 0 {
        assert forall|key: Seq<u8>| members.contains(key) implies key == one || #[trigger] precedes(
            key,
            one,
        ) by {
            if key != one {
                assert(rest.contains(key));
                assert(rest =~= Set::empty());
            }
        }
        one
    } else {
        let other = lemma_greatest(rest);
        lemma_precedes_total(one, other);
        if one == other || precedes(one, other) {
            other
        } else {
            assert forall|key: Seq<u8>| members.contains(key) implies key == one
                || #[trigger] precedes(key, one) by {
                if key != one {
                    assert(rest.contains(key));
                    if key != other {
                        assert(precedes(key, other));
                        lemma_precedes_transitive(key, other, one);
                    }
                }
            }
            one
        }
    }
}

impl ByteSet {
    /// The number of members. The ordered members are those of the set in ascending order.
    pub fn count(&self) -> (count: usize)
        ensures
            count == self@.len(),
            self@.finite(),
            self.ordered() == in_order(self@),
            count == self.ordered().len(),
    {
        let count: usize = self.len();
        proof {
            lemma_in_order(self.ordered(), self@);
        }
        count
    }
}

/// Whether two sets have the same members.
#[verifier::loop_isolation(false)]
pub fn same_members(a: &ByteSet, b: &ByteSet) -> (same: bool)
    ensures
        same == (a@ == b@),
{
    let left: usize = a.len();
    let right: usize = b.len();
    let mut i: usize = 0;
    while i < left
        invariant
            i <= left == a.ordered().len(),
            forall|k: int| 0 <= k < i ==> b@.contains(#[trigger] a.ordered()[k]),
        decreases left - i,
    {
        let member = a.member_at(i);
        if !b.contains(member.as_slice()) {
            return false;
        }
        i += 1;
    }
    let mut j: usize = 0;
    while j < right
        invariant
            j <= right == b.ordered().len(),
            forall|k: int| 0 <= k < j ==> a@.contains(#[trigger] b.ordered()[k]),
        decreases right - j,
    {
        let member = b.member_at(j);
        if !a.contains(member.as_slice()) {
            return false;
        }
        j += 1;
    }
    proof {
        assert forall|key: Seq<u8>| a@.contains(key) <==> b@.contains(key) by {
            if a@.contains(key) {
                assert(a.ordered().contains(key));
                assert(b@.contains(a.ordered()[a.ordered().index_of(key)]));
            }
            if b@.contains(key) {
                assert(b.ordered().contains(key));
                assert(a@.contains(b.ordered()[b.ordered().index_of(key)]));
            }
        }
        assert(a@ =~= b@);
    }
    true
}

/// The order of byte strings is that of their bytes: a proper beginning comes first, and otherwise
/// the one with the smaller byte at the first place where they differ.
pub proof fn law_byte_strings_stand_by_their_bytes(
    common: Seq<u8>,
    a: u8,
    b: u8,
    rest: Seq<u8>,
    other: Seq<u8>,
)
    ensures
        precedes(common, common.push(b)),
        !precedes(common.push(b), common),
        !precedes(common, common),
        a < b ==> precedes(common.push(a) + rest, common.push(b) + other),
        a > b ==> !precedes(common.push(a) + rest, common.push(b) + other),
{
    let left = common.push(a) + rest;
    let right = common.push(b) + other;
    let k = common.len() as int;
    assert(left[k] == a && right[k] == b);
    assert(forall|j: int| 0 <= j < k ==> left[j] == right[j]);
    assert(precedes_at(common, common.push(b), k));
    lemma_precedes_asymmetric(common, common.push(b));
    if precedes(common, common) {
        lemma_precedes_asymmetric(common, common);
    }
    if a < b {
        assert(precedes_at(left, right, k));
    }
    if a > b {
        assert(precedes_at(right, left, k));
        lemma_precedes_asymmetric(right, left);
    }
}

} // verus!
