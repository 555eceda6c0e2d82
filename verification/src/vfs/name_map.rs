//! A map from names that is walked in name order.
use vstd::prelude::*;
use vstd::utf8::encode_utf8;
use crate::sorted_map::{ByteKey, SortedMap};
use crate::text::{name_lt, name_lt_irreflexive, name_lt_total, name_lt_transitive, utf8_injective};

verus! {

broadcast use vstd::string::group_string_axioms;

/// Names that stand in strictly ascending order.
pub open spec fn ascending(names: Seq<Seq<char>>) -> bool {
    forall|i: int, j: int| 0 <= i < j < names.len() ==> name_lt(#[trigger] names[i], #[trigger] names[j])
}

/// The names of a map, in ascending order.
pub open spec fn in_order<V>(m: Map<Seq<char>, V>) -> Seq<Seq<char>> {
    choose|s: Seq<Seq<char>>| ascending(s) && #[trigger] s.to_set() == m.dom()
}

/// Two ascending sequences of the same names are the same sequence.
pub proof fn ascending_unique(a: Seq<Seq<char>>, b: Seq<Seq<char>>)
    requires
        ascending(a),
        ascending(b),
        a.to_set() == b.to_set(),
    ensures
        a == b,
    decreases a.len(),
{
    if a.len() == 0 {
        if b.len() > 0 {
            assert(b.to_set().contains(b[0]));
            assert(a.to_set().contains(b[0]));
        }
        assert(a =~= b);
    } else {
        assert(a.to_set().contains(a.last()));
        assert(b.to_set().contains(a.last()));
        let k = choose|k: int| 0 <= k < b.len() && b[k] == a.last();
        assert(b.to_set().contains(b.last()));
        assert(a.to_set().contains(b.last()));
        let m = choose|m: int| 0 <= m < a.len() && a[m] == b.last();
        name_lt_irreflexive(a.last());
        if k < b.len() - 1 {
            assert(name_lt(b[k], b[b.len() - 1]));
            if m < a.len() - 1 {
                assert(name_lt(a[m], a[a.len() - 1]));
                name_lt_transitive(a.last(), b.last(), a.last());
            }
        }
        assert(a.last() == b.last());
        let a1 = a.drop_last();
        let b1 = b.drop_last();
        assert(a1.to_set() =~= b1.to_set()) by {
            assert forall|n: Seq<char>| a1.to_set().contains(n) == b1.to_set().contains(n) by {
                lemma_drop_last_set(a, n);
                lemma_drop_last_set(b, n);
            }
        }
        ascending_unique(a1, b1);
        assert(a =~= a1.push(a.last()));
        assert(b =~= b1.push(b.last()));
    }
}

proof fn lemma_drop_last_set(a: Seq<Seq<char>>, n: Seq<char>)
    requires
        ascending(a),
        a.len() > 0,
    ensures
        a.drop_last().to_set().contains(n) == (a.to_set().contains(n) && n != a.last()),
{
    let d = a.drop_last();
    if d.to_set().contains(n) {
        let i = choose|i: int| 0 <= i < d.len() && d[i] == n;
        assert(a[i] == n);
        assert(name_lt(a[i], a[a.len() - 1]));
        name_lt_irreflexive(n);
    }
    if a.to_set().contains(n) && n != a.last() {
        let i = choose|i: int| 0 <= i < a.len() && a[i] == n;
        assert(d[i] == n);
    }
}

/// An ascending sequence of a map's names is its sequence of names in order.
pub proof fn in_order_is<V>(m: Map<Seq<char>, V>, s: Seq<Seq<char>>)
    requires
        ascending(s),
        s.to_set() == m.dom(),
    ensures
        in_order(m) == s,
{
    ascending_unique(in_order(m), s);
}

proof fn lemma_insert_ascending(s: Seq<Seq<char>>, x: Seq<char>) -> (r: Seq<Seq<char>>)
    requires
        ascending(s),
        !s.contains(x),
    ensures
        ascending(r),
        r.to_set() == s.to_set().insert(x),
    decreases s.len(),
{
    if s.len() == 0 {
        let r = seq![x];
        assert(r[0] == x);
        assert(r.to_set() =~= s.to_set().insert(x));
        r
    } else if name_lt(s.last(), x) {
        let r = s.push(x);
        assert forall|i: int, j: int| 0 <= i < j < r.len() implies name_lt(
            #[trigger] r[i],
            #[trigger] r[j],
        ) by {
            if j < s.len() {
                assert(name_lt(s[i], s[j]));
            } else if i < s.len() - 1 {
                assert(name_lt(s[i], s[s.len() - 1]));
                name_lt_transitive(s[i], s.last(), x);
            }
        }
        lemma_push_set(s, x);
        r
    } else {
        let last = s.last();
        let front = s.drop_last();
        assert(s[s.len() - 1] == last);
        name_lt_total(last, x);
        assert(!front.contains(x)) by {
            if front.contains(x) {
                let i = choose|i: int| 0 <= i < front.len() && front[i] == x;
                assert(s[i] == x);
            }
        }
        let inner = lemma_insert_ascending(front, x);
        let r = inner.push(last);
        assert forall|i: int, j: int| 0 <= i < j < r.len() implies name_lt(
            #[trigger] r[i],
            #[trigger] r[j],
        ) by {
            if j < inner.len() {
                assert(name_lt(inner[i], inner[j]));
            } else {
                assert(inner.to_set().contains(inner[i]));
                if inner[i] != x {
                    assert(front.to_set().contains(inner[i]));
                    let k = choose|k: int| 0 <= k < front.len() && front[k] == inner[i];
                    assert(name_lt(s[k], s[s.len() - 1]));
                }
            }
        }
        lemma_push_set(inner, last);
        lemma_push_set(front, last);
        assert(s =~= front.push(last));
        assert(r.to_set() =~= s.to_set().insert(x));
        r
    }
}

proof fn lemma_push_set(s: Seq<Seq<char>>, x: Seq<char>)
    ensures
        s.push(x).to_set() == s.to_set().insert(x),
{
    let r = s.push(x);
    assert forall|n: Seq<char>| #[trigger] r.to_set().contains(n) == s.to_set().insert(x).contains(n) by {
        if s.contains(n) {
            let i = choose|i: int| 0 <= i < s.len() && s[i] == n;
            assert(r[i] == n);
        }
        assert(r[s.len() as int] == x);
    }
    assert(r.to_set() =~= s.to_set().insert(x));
}

proof fn lemma_orderable(names: Set<Seq<char>>) -> (s: Seq<Seq<char>>)
    requires
        names.finite(),
    ensures
        ascending(s),
        s.to_set() == names,
    decreases names.len(),
{
    if names.len() == 0 {
        let s: Seq<Seq<char>> = seq![];
        assert(s.to_set() =~= names);
        s
    } else {
        let x = names.choose();
        let inner = lemma_orderable(names.remove(x));
        assert(!inner.contains(x)) by {
            if inner.contains(x) {
                assert(inner.to_set().contains(x));
            }
        }
        let s = lemma_insert_ascending(inner, x);
        assert(s.to_set() =~= names);
        s
    }
}

/// The names of a finite map in order are ascending, and they are the names of
/// the map.
pub proof fn in_order_of_finite<V>(m: Map<Seq<char>, V>)
    requires
        m.dom().finite(),
    ensures
        ascending(in_order(m)),
        in_order(m).to_set() == m.dom(),
{
    let s = lemma_orderable(m.dom());
    in_order_is(m, s);
}

/// A map from names to values, kept in ascending name order.
#[derive(Debug)]
pub struct NameMap<V> {
    map: SortedMap<String, V>,
}

impl<V> View for NameMap<V> {
    type V = Map<Seq<char>, V>;

    closed spec fn view(&self) -> Map<Seq<char>, V> {
        Map::new(
            |n: Seq<char>| self.map@.contains_key(encode_utf8(n)),
            |n: Seq<char>| self.map@[encode_utf8(n)],
        )
    }
}

impl<V> NameMap<V> {
    /// The empty map.
    pub fn new() -> (m: NameMap<V>)
        ensures
            m@ == Map::<Seq<char>, V>::empty(),
    {
        let m = NameMap { map: SortedMap::new() };
        assert(m@ =~= Map::<Seq<char>, V>::empty());
        m
    }

    spec fn names(&self) -> Seq<Seq<char>> {
        self.map.keys().map_values(|k: String| k@)
    }

    proof fn lemma_order(&self)
        requires
            self.map.ordered(),
        ensures
            self.names() == in_order(self@),
            ascending(self.names()),
            self.names().to_set() == self@.dom(),
            self@.dom().finite(),
            self@.dom().len() == self.names().len(),
    {
        let names = self.names();
        let keys = self.map.keys().map_values(|k: String| k.key());
        assert(ascending(names)) by {
            assert forall|i: int, j: int| 0 <= i < j < names.len() implies name_lt(
                #[trigger] names[i],
                #[trigger] names[j],
            ) by {
                assert(crate::text::bytes_lt(keys[i], keys[j]));
            }
        }
        assert forall|n: Seq<char>| #[trigger] names.to_set().contains(n) == self@.dom().contains(n) by {
            if names.to_set().contains(n) {
                let i = choose|i: int| 0 <= i < names.len() && names[i] == n;
                assert(self.map@.contains_key(self.map.keys()[i].key()));
            }
            if self@.dom().contains(n) {
                assert(keys.to_set().contains(encode_utf8(n)));
                let i = choose|i: int| 0 <= i < keys.len() && keys[i] == encode_utf8(n);
                utf8_injective(names[i], n);
            }
        }
        assert(names.to_set() =~= self@.dom());
        in_order_is(self@, names);
        assert forall|i: int, j: int|
            0 <= i < names.len() && 0 <= j < names.len() && i != j implies names[i] != names[j] by {
            name_lt_irreflexive(names[i]);
            if i < j {
                assert(name_lt(names[i], names[j]));
            } else {
                assert(name_lt(names[j], names[i]));
            }
        }
        names.unique_seq_to_set();
    }

    /// Number of names.
    pub fn len(&self) -> (n: usize)
        ensures
            n == self@.dom().len(),
            n == in_order(self@).len(),
            self@.dom().finite(),
            ascending(in_order(self@)),
            in_order(self@).to_set() == self@.dom(),
    {
        let n = self.map.len();
        proof {
            self.lemma_order();
        }
        n
    }

    /// Whether the map holds no name.
    pub fn is_empty(&self) -> (r: bool)
        ensures
            r == (self@ == Map::<Seq<char>, V>::empty()),
    {
        let n = self.map.len();
        proof {
            self.lemma_order();
            if n == 0 {
                assert(self@ =~= Map::<Seq<char>, V>::empty());
            } else {
                assert(self.names().to_set().contains(self.names()[0]));
            }
        }
        n == 0
    }

    /// The `i`th name in order, with its value.
    pub fn at(&self, i: usize) -> (r: (&str, &V))
        requires
            i < in_order(self@).len(),
        ensures
            r.0@ == in_order(self@)[i as int],
            self@.contains_key(r.0@),
            self@[r.0@] == *r.1,
    {
        let _ = self.map.len();
        proof {
            self.lemma_order();
            assert(self.map.ordered());
            assert(self.map@.contains_key(self.map.keys()[i as int].key()));
        }
        (self.map.key_at(i).as_str(), self.map.value_at(i))
    }

    /// The value of `name`.
    pub fn get(&self, name: &str) -> (r: Option<&V>)
        ensures
            match r {
                Some(v) => self@.contains_key(name@) && *v == self@[name@],
                None => !self@.contains_key(name@),
            },
    {
        self.map.get(name.as_bytes())
    }

    /// Whether the map holds `name`.
    pub fn contains_key(&self, name: &str) -> (r: bool)
        ensures
            r == self@.contains_key(name@),
    {
        self.get(name).is_some()
    }

    /// Give `name` a value, in place of what it had before.
    pub fn insert(&mut self, name: String, value: V)
        ensures
            final(self)@ == old(self)@.insert(name@, value),
    {
        let ghost before = self@;
        let ghost inner = self.map@;
        let ghost key = name@;
        self.map.insert(name, value);
        proof {
            assert forall|n: Seq<char>| #[trigger] encode_utf8(n) == encode_utf8(key)
                implies n == key by {
                utf8_injective(n, key);
            }
            assert(self@ =~= before.insert(key, value));
        }
    }

    /// Forget `name`, and hand out its value.
    pub fn remove(&mut self, name: &str) -> (r: Option<V>)
        ensures
            match r {
                Some(v) => old(self)@.contains_key(name@) && v == old(self)@[name@],
                None => !old(self)@.contains_key(name@),
            },
            final(self)@ == old(self)@.remove(name@),
    {
        let ghost before = self@;
        let r = self.map.remove(name.as_bytes());
        proof {
            assert forall|n: Seq<char>| #[trigger] encode_utf8(n) == encode_utf8(name@)
                implies n == name@ by {
                utf8_injective(n, name@);
            }
            assert(self@ =~= before.remove(name@));
        }
        r
    }
}

impl NameMap<u64> {
    /// A copy of the map.
    pub fn copy(&self) -> (m: NameMap<u64>)
        ensures
            m@ == self@,
    {
        let mut m: NameMap<u64> = NameMap::new();
        let n = self.len();
        let ghost order = in_order(self@);
        let mut i: usize = 0;
        while i < n
            invariant
                i <= n,
                order == in_order(self@),
                n == order.len(),
                order.to_set() == self@.dom(),
                forall|name: Seq<char>| #[trigger]
                    m@.contains_key(name) <==> order.take(i as int).contains(name),
                forall|name: Seq<char>| #[trigger]
                    m@.contains_key(name) ==> self@.contains_key(name) && m@[name] == self@[name],
            decreases n - i,
        {
            let (name, id) = self.at(i);
            m.insert(name.to_owned(), *id);
            proof {
                let longer = order.take(i + 1);
                assert(longer =~= order.take(i as int).push(name@));
                assert forall|x: Seq<char>| #[trigger] m@.contains_key(x) <==> longer.contains(x) by {
                    if order.take(i as int).contains(x) {
                        let k = choose|k: int| 0 <= k < i && order.take(i as int)[k] == x;
                        assert(longer[k] == x);
                    }
                    if x == name@ {
                        assert(longer[i as int] == x);
                    }
                }
            }
            i = i + 1;
        }
        proof {
            assert(order.take(i as int) =~= order);
            assert forall|x: Seq<char>| #[trigger] m@.contains_key(x) == self@.contains_key(x) by {
                assert(order.to_set().contains(x) == order.contains(x));
            }
            assert(m@ =~= self@);
        }
        m
    }
}

} // verus!
