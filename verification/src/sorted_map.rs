//! A map kept as a vector in ascending key order.
use vstd::prelude::*;
use crate::text::{bytes_lt, bytes_lt_irreflexive, bytes_lt_transitive, compare_bytes, Relation};
use crate::ty::Id;
use vstd::utf8::encode_utf8;

verus! {

broadcast use vstd::string::group_string_axioms;

/// A key that is ordered by a byte string.
pub trait ByteKey {
    /// The bytes that order the key.
    spec fn key(&self) -> Seq<u8>;

    /// The bytes that order the key.
    fn key_bytes(&self) -> (b: &[u8])
        ensures
            b@ == self.key(),
    ;
}

impl ByteKey for String {
    open spec fn key(&self) -> Seq<u8> {
        encode_utf8(self@)
    }

    fn key_bytes(&self) -> (b: &[u8]) {
        self.as_str().as_bytes()
    }
}

impl ByteKey for Id {
    open spec fn key(&self) -> Seq<u8> {
        self@
    }

    fn key_bytes(&self) -> (b: &[u8]) {
        self.0.as_slice()
    }
}

impl ByteKey for Vec<u8> {
    open spec fn key(&self) -> Seq<u8> {
        self@
    }

    fn key_bytes(&self) -> (b: &[u8]) {
        self.as_slice()
    }
}

/// Keys that stand in strictly ascending order.
pub open spec fn sorted_keys(keys: Seq<Seq<u8>>) -> bool {
    forall|i: int, j: int| 0 <= i < j < keys.len() ==> bytes_lt(#[trigger] keys[i], #[trigger] keys[j])
}

/// One key with its value.
#[derive(Debug)]
pub struct SortedEntry<K, V> {
    pub key: K,
    pub value: V,
}

spec fn keys_of<K: ByteKey, V>(entries: Seq<SortedEntry<K, V>>) -> Seq<Seq<u8>> {
    entries.map_values(|e: SortedEntry<K, V>| e.key.key())
}

spec fn map_of<K: ByteKey, V>(entries: Seq<SortedEntry<K, V>>) -> Map<Seq<u8>, V> {
    Map::new(
        |n: Seq<u8>| keys_of(entries).contains(n),
        |n: Seq<u8>| entries[keys_of(entries).index_of(n)].value,
    )
}

proof fn lemma_at<K: ByteKey, V>(entries: Seq<SortedEntry<K, V>>, i: int)
    requires
        sorted_keys(keys_of(entries)),
        0 <= i < entries.len(),
    ensures
        map_of(entries).contains_key(entries[i].key.key()),
        map_of(entries)[entries[i].key.key()] == entries[i].value,
{
    let keys = keys_of(entries);
    let n = entries[i].key.key();
    assert(keys[i] == n);
    assert(keys.contains(n));
    let k = keys.index_of(n);
    assert(keys[k] == n);
    bytes_lt_irreflexive(n);
    if k < i {
        assert(bytes_lt(keys[k], keys[i]));
    } else if k > i {
        assert(bytes_lt(keys[i], keys[k]));
    }
}

/// The entries hold exactly what `m` holds.
proof fn lemma_map_is<K: ByteKey, V>(entries: Seq<SortedEntry<K, V>>, m: Map<Seq<u8>, V>)
    requires
        sorted_keys(keys_of(entries)),
        forall|i: int|
            0 <= i < entries.len() ==> m.contains_key((#[trigger] entries[i]).key.key())
                && m[entries[i].key.key()] == entries[i].value,
        forall|n: Seq<u8>| #[trigger]
            m.contains_key(n) ==> exists|i: int|
                0 <= i < entries.len() && (#[trigger] entries[i]).key.key() == n,
    ensures
        map_of(entries) == m,
{
    let keys = keys_of(entries);
    assert forall|n: Seq<u8>| #[trigger] map_of(entries).contains_key(n) == m.contains_key(n) by {
        if keys.contains(n) {
            let i = choose|i: int| 0 <= i < keys.len() && keys[i] == n;
            assert(entries[i].key.key() == n);
        }
        if m.contains_key(n) {
            let i = choose|i: int| 0 <= i < entries.len() && (#[trigger] entries[i]).key.key() == n;
            assert(keys[i] == n);
        }
    }
    assert forall|n: Seq<u8>| #[trigger] map_of(entries).contains_key(n) implies map_of(entries)[n]
        == m[n] by {
        let i = choose|i: int| 0 <= i < keys.len() && keys[i] == n;
        lemma_at(entries, i);
        assert(entries[i].key.key() == n);
    }
    assert(map_of(entries) =~= m);
}

proof fn lemma_keys_distinct<K: ByteKey, V>(entries: Seq<SortedEntry<K, V>>)
    requires
        sorted_keys(keys_of(entries)),
    ensures
        keys_of(entries).no_duplicates(),
        keys_of(entries).to_set() == map_of(entries).dom(),
        map_of(entries).dom().finite(),
        map_of(entries).dom().len() == entries.len(),
{
    let keys = keys_of(entries);
    assert(keys.to_set() =~= map_of(entries).dom());
    assert forall|i: int, j: int|
        0 <= i < keys.len() && 0 <= j < keys.len() && i != j implies keys[i] != keys[j] by {
        bytes_lt_irreflexive(keys[i]);
        if i < j {
            assert(bytes_lt(keys[i], keys[j]));
        } else {
            assert(bytes_lt(keys[j], keys[i]));
        }
    }
    keys.unique_seq_to_set();
}

proof fn lemma_replaced<K: ByteKey, V>(before: Seq<SortedEntry<K, V>>, i: int, e: SortedEntry<K, V>)
    requires
        sorted_keys(keys_of(before)),
        0 <= i < before.len(),
        before[i].key.key() == e.key.key(),
    ensures
        sorted_keys(keys_of(before.update(i, e))),
        map_of(before.update(i, e)) == map_of(before).insert(e.key.key(), e.value),
{
    let after = before.update(i, e);
    assert(keys_of(after) =~= keys_of(before));
    let m = map_of(before).insert(e.key.key(), e.value);
    assert forall|j: int| 0 <= j < after.len() implies m.contains_key((#[trigger] after[j]).key.key())
        && m[after[j].key.key()] == after[j].value by {
        lemma_at(before, j);
        if j != i {
            bytes_lt_irreflexive(e.key.key());
            assert(keys_of(before)[i] == e.key.key());
            assert(keys_of(before)[j] == after[j].key.key());
            if j < i {
                assert(bytes_lt(keys_of(before)[j], keys_of(before)[i]));
            } else {
                assert(bytes_lt(keys_of(before)[i], keys_of(before)[j]));
            }
        }
    }
    assert forall|n: Seq<u8>| #[trigger] m.contains_key(n) implies exists|j: int|
        0 <= j < after.len() && (#[trigger] after[j]).key.key() == n by {
        if n == e.key.key() {
            assert(after[i].key.key() == n);
        } else {
            let j = choose|j: int| 0 <= j < keys_of(before).len() && keys_of(before)[j] == n;
            assert(after[j].key.key() == n);
        }
    }
    lemma_map_is(after, m);
}

proof fn lemma_inserted<K: ByteKey, V>(before: Seq<SortedEntry<K, V>>, i: int, e: SortedEntry<K, V>)
    requires
        sorted_keys(keys_of(before)),
        0 <= i <= before.len(),
        forall|j: int| 0 <= j < i ==> bytes_lt(#[trigger] keys_of(before)[j], e.key.key()),
        forall|j: int| i <= j < before.len() ==> bytes_lt(e.key.key(), #[trigger] keys_of(before)[j]),
    ensures
        sorted_keys(keys_of(before.insert(i, e))),
        map_of(before.insert(i, e)) == map_of(before).insert(e.key.key(), e.value),
{
    let after = before.insert(i, e);
    let old_keys = keys_of(before);
    let keys = keys_of(after);
    assert(keys =~= old_keys.insert(i, e.key.key()));
    assert(sorted_keys(keys)) by {
        assert forall|j: int, k: int| 0 <= j < k < keys.len() implies bytes_lt(
            #[trigger] keys[j],
            #[trigger] keys[k],
        ) by {
            if k < i {
                assert(bytes_lt(old_keys[j], old_keys[k]));
            } else if k == i {
                assert(bytes_lt(old_keys[j], e.key.key()));
            } else if j < i {
                assert(bytes_lt(old_keys[j], old_keys[k - 1]));
            } else if j == i {
                assert(bytes_lt(e.key.key(), old_keys[k - 1]));
            } else {
                assert(bytes_lt(old_keys[j - 1], old_keys[k - 1]));
            }
        }
    }
    let m = map_of(before).insert(e.key.key(), e.value);
    bytes_lt_irreflexive(e.key.key());
    assert forall|j: int| 0 <= j < after.len() implies m.contains_key((#[trigger] after[j]).key.key())
        && m[after[j].key.key()] == after[j].value by {
        if j < i {
            lemma_at(before, j);
            assert(old_keys[j] == after[j].key.key());
        } else if j > i {
            lemma_at(before, j - 1);
            assert(old_keys[j - 1] == after[j].key.key());
        }
    }
    assert forall|n: Seq<u8>| #[trigger] m.contains_key(n) implies exists|j: int|
        0 <= j < after.len() && (#[trigger] after[j]).key.key() == n by {
        if n == e.key.key() {
            assert(after[i].key.key() == n);
        } else {
            let j = choose|j: int| 0 <= j < old_keys.len() && old_keys[j] == n;
            if j < i {
                assert(after[j].key.key() == n);
            } else {
                assert(after[j + 1].key.key() == n);
            }
        }
    }
    lemma_map_is(after, m);
}

proof fn lemma_removed<K: ByteKey, V>(before: Seq<SortedEntry<K, V>>, i: int)
    requires
        sorted_keys(keys_of(before)),
        0 <= i < before.len(),
    ensures
        sorted_keys(keys_of(before.remove(i))),
        map_of(before.remove(i)) == map_of(before).remove(before[i].key.key()),
{
    let after = before.remove(i);
    let old_keys = keys_of(before);
    let keys = keys_of(after);
    let gone = before[i].key.key();
    assert(keys =~= old_keys.remove(i));
    assert(sorted_keys(keys)) by {
        assert forall|j: int, k: int| 0 <= j < k < keys.len() implies bytes_lt(
            #[trigger] keys[j],
            #[trigger] keys[k],
        ) by {
            let oj = if j < i { j } else { j + 1 };
            let ok = if k < i { k } else { k + 1 };
            assert(bytes_lt(old_keys[oj], old_keys[ok]));
        }
    }
    let m = map_of(before).remove(gone);
    bytes_lt_irreflexive(gone);
    assert forall|j: int| 0 <= j < after.len() implies m.contains_key((#[trigger] after[j]).key.key())
        && m[after[j].key.key()] == after[j].value by {
        let oj = if j < i { j } else { j + 1 };
        lemma_at(before, oj);
        assert(old_keys[oj] == after[j].key.key());
        if oj < i {
            assert(bytes_lt(old_keys[oj], old_keys[i]));
        } else {
            assert(bytes_lt(old_keys[i], old_keys[oj]));
        }
    }
    assert forall|n: Seq<u8>| #[trigger] m.contains_key(n) implies exists|j: int|
        0 <= j < after.len() && (#[trigger] after[j]).key.key() == n by {
        let j = choose|j: int| 0 <= j < old_keys.len() && old_keys[j] == n;
        if j < i {
            assert(after[j].key.key() == n);
        } else {
            assert(after[j - 1].key.key() == n);
        }
    }
    lemma_map_is(after, m);
}

/// A map from keys to values, kept in ascending key order.
#[derive(Debug)]
pub struct SortedMap<K: ByteKey, V> {
    entries: Vec<SortedEntry<K, V>>,
}

impl<K: ByteKey, V> View for SortedMap<K, V> {
    type V = Map<Seq<u8>, V>;

    closed spec fn view(&self) -> Map<Seq<u8>, V> {
        map_of(self.entries@)
    }
}

impl<K: ByteKey, V> SortedMap<K, V> {
    #[verifier::type_invariant]
    spec fn inv(self) -> bool {
        sorted_keys(keys_of(self.entries@))
    }

    /// The keys in the order in which they are walked.
    pub closed spec fn keys(&self) -> Seq<K> {
        self.entries@.map_values(|e: SortedEntry<K, V>| e.key)
    }

    /// The values in the order in which they are walked.
    pub closed spec fn values(&self) -> Seq<V> {
        self.entries@.map_values(|e: SortedEntry<K, V>| e.value)
    }

    /// The keys stand in ascending order, and they are the keys of the map.
    pub open spec fn ordered(&self) -> bool {
        &&& self.keys().len() == self.values().len()
        &&& sorted_keys(self.keys().map_values(|k: K| k.key()))
        &&& self.keys().map_values(|k: K| k.key()).to_set() == self@.dom()
        &&& self@.dom().finite()
        &&& self@.dom().len() == self.keys().len()
        &&& forall|i: int|
            0 <= i < self.keys().len() ==> self@.contains_key((#[trigger] self.keys()[i]).key())
                && self@[self.keys()[i].key()] == self.values()[i]
    }

    /// The empty map.
    pub fn new() -> (m: SortedMap<K, V>)
        ensures
            m@ == Map::<Seq<u8>, V>::empty(),
            m.keys().len() == 0,
    {
        let m = SortedMap { entries: Vec::new() };
        assert(m@ =~= Map::<Seq<u8>, V>::empty());
        m
    }

    /// Number of keys.
    pub fn len(&self) -> (n: usize)
        ensures
            n == self.keys().len(),
            self.ordered(),
    {
        proof {
            use_type_invariant(self);
            lemma_keys_distinct(self.entries@);
            assert(self.keys().map_values(|k: K| k.key()) =~= keys_of(self.entries@));
            assert forall|i: int| 0 <= i < self.keys().len() implies self@.contains_key(
                (#[trigger] self.keys()[i]).key(),
            ) && self@[self.keys()[i].key()] == self.values()[i] by {
                lemma_at(self.entries@, i);
            }
        }
        self.entries.len()
    }

    /// The `i`th key in order.
    pub fn key_at(&self, i: usize) -> (k: &K)
        requires
            i < self.keys().len(),
        ensures
            *k == self.keys()[i as int],
    {
        &self.entries[i].key
    }

    /// The value of the `i`th key in order.
    pub fn value_at(&self, i: usize) -> (v: &V)
        requires
            i < self.keys().len(),
        ensures
            *v == self.values()[i as int],
    {
        &self.entries[i].value
    }

    /// Where `key` stands or would stand: every key before the position is
    /// below it, and every key from it on is not.
    fn position(&self, key: &[u8]) -> (r: (usize, bool))
        ensures
            r.0 <= self.entries@.len(),
            forall|i: int| 0 <= i < r.0 ==> bytes_lt(#[trigger] keys_of(self.entries@)[i], key@),
            r.1 ==> r.0 < self.entries@.len() && self.entries@[r.0 as int].key.key() == key@,
            !r.1 ==> forall|i: int|
                r.0 <= i < self.entries@.len() ==> bytes_lt(
                    key@,
                    #[trigger] keys_of(self.entries@)[i],
                ),
            r.1 == self@.contains_key(key@),
            r.1 ==> self@[key@] == self.entries@[r.0 as int].value,
    {
        proof {
            use_type_invariant(self);
        }
        let ghost keys = keys_of(self.entries@);
        let mut lo: usize = 0;
        let mut hi: usize = self.entries.len();
        while lo < hi
            invariant
                lo <= hi <= self.entries@.len(),
                keys == keys_of(self.entries@),
                sorted_keys(keys),
                forall|i: int| 0 <= i < lo ==> bytes_lt(#[trigger] keys[i], key@),
                forall|i: int| hi <= i < self.entries@.len() ==> bytes_lt(key@, #[trigger] keys[i]),
            decreases hi - lo,
        {
            let mid: usize = lo + (hi - lo) / 2;
            assert(keys[mid as int] == self.entries@[mid as int].key.key());
            match compare_bytes(self.entries[mid].key.key_bytes(), key) {
                Relation::Same => {
                    proof {
                        assert forall|i: int| 0 <= i < mid implies bytes_lt(
                            #[trigger] keys[i],
                            key@,
                        ) by {
                            assert(bytes_lt(keys[i], keys[mid as int]));
                        }
                        lemma_at(self.entries@, mid as int);
                    }
                    return (mid, true);
                },
                Relation::Below => {
                    proof {
                        assert forall|i: int| 0 <= i < mid + 1 implies bytes_lt(
                            #[trigger] keys[i],
                            key@,
                        ) by {
                            if i < mid {
                                assert(bytes_lt(keys[i], keys[mid as int]));
                                bytes_lt_transitive(keys[i], keys[mid as int], key@);
                            }
                        }
                    }
                    lo = mid + 1;
                },
                Relation::Above => {
                    proof {
                        assert forall|i: int| mid <= i < self.entries@.len() implies bytes_lt(
                            key@,
                            #[trigger] keys[i],
                        ) by {
                            if i > mid {
                                assert(bytes_lt(keys[mid as int], keys[i]));
                                bytes_lt_transitive(key@, keys[mid as int], keys[i]);
                            }
                        }
                    }
                    hi = mid;
                },
            }
        }
        proof {
            bytes_lt_irreflexive(key@);
            if keys.contains(key@) {
                let k = choose|k: int| 0 <= k < keys.len() && keys[k] == key@;
                assert(bytes_lt(keys[k], key@) || bytes_lt(key@, keys[k]));
            }
        }
        (lo, false)
    }

    /// The value of `key`.
    pub fn get(&self, key: &[u8]) -> (r: Option<&V>)
        ensures
            match r {
                Some(v) => self@.contains_key(key@) && *v == self@[key@],
                None => !self@.contains_key(key@),
            },
    {
        let (i, found) = self.position(key);
        if found {
            Some(&self.entries[i].value)
        } else {
            None
        }
    }

    /// Give `key` a value, in place of what it had before.
    pub fn insert(&mut self, key: K, value: V)
        ensures
            final(self)@ == old(self)@.insert(key.key(), value),
    {
        proof {
            use_type_invariant(&*self);
        }
        let (i, found) = self.position(key.key_bytes());
        let ghost before = self.entries@;
        let mut entries: Vec<SortedEntry<K, V>> = Vec::new();
        std::mem::swap(&mut entries, &mut self.entries);
        let e = SortedEntry { key, value };
        proof {
            if found {
                lemma_replaced(before, i as int, e);
            } else {
                lemma_inserted(before, i as int, e);
            }
        }
        if found {
            entries[i] = e;
        } else {
            entries.insert(i, e);
        }
        self.entries = entries;
    }

    /// Forget `key`, and hand out its value.
    pub fn remove(&mut self, key: &[u8]) -> (r: Option<V>)
        ensures
            match r {
                Some(v) => old(self)@.contains_key(key@) && v == old(self)@[key@],
                None => !old(self)@.contains_key(key@),
            },
            final(self)@ == old(self)@.remove(key@),
    {
        proof {
            use_type_invariant(&*self);
        }
        let (i, found) = self.position(key);
        if !found {
            assert(self@ =~= self@.remove(key@));
            return None;
        }
        let ghost before = self.entries@;
        let mut entries: Vec<SortedEntry<K, V>> = Vec::new();
        std::mem::swap(&mut entries, &mut self.entries);
        let e = entries.remove(i);
        proof {
            lemma_removed(before, i as int);
        }
        self.entries = entries;
        Some(e.value)
    }
}

} // verus!
