//! A map keyed by version string that keeps its entries in ascending order of
//! version.  Its view is a `Map` from the version's characters to the value;
//! `keys()` and `values()` give the entries in the order in which they are
//! stored and reported.

use vstd::prelude::*;
use crate::text::{
    compare, lemma_order_equal, lemma_order_flip, lemma_precedes_total, lemma_precedes_transitive,
    precedes, Order,
};

verus! {

/// Every key sorts strictly before the keys behind it.
pub open spec fn ascending(keys: Seq<Seq<char>>) -> bool {
    forall|i: int, j: int| 0 <= i < j < keys.len() ==> precedes(keys[i], keys[j])
}

/// The map that pairs each key with the value at the same position.
pub open spec fn assoc<V>(keys: Seq<Seq<char>>, values: Seq<V>) -> Map<Seq<char>, V> {
    Map::new(|k: Seq<char>| keys.contains(k), |k: Seq<char>| values[keys.index_of(k)])
}

/// An ascending sequence holds no key twice.
pub proof fn lemma_ascending_distinct(keys: Seq<Seq<char>>, i: int, j: int)
    requires
        ascending(keys),
        0 <= i < keys.len(),
        0 <= j < keys.len(),
        keys[i] == keys[j],
    ensures
        i == j,
{
    lemma_precedes_total(keys[i], keys[j]);
}

/// In the map of an ascending sequence each key leads to the value at its own
/// position.
pub proof fn lemma_assoc_entry<V>(keys: Seq<Seq<char>>, values: Seq<V>, i: int)
    requires
        ascending(keys),
        0 <= i < keys.len(),
    ensures
        assoc(keys, values).contains_key(keys[i]),
        assoc(keys, values)[keys[i]] == values[i],
{
    assert(keys.contains(keys[i]));
    lemma_ascending_distinct(keys, i, keys.index_of(keys[i]));
}

/// Putting a new key where the order wants it keeps the sequence ascending and
/// adds one pair to the map.
pub proof fn lemma_assoc_insert<V>(keys: Seq<Seq<char>>, values: Seq<V>, i: int, k: Seq<char>, v: V)
    requires
        ascending(keys),
        keys.len() == values.len(),
        0 <= i <= keys.len(),
        forall|a: int| 0 <= a < i ==> precedes(keys[a], k),
        forall|b: int| i <= b < keys.len() ==> precedes(k, keys[b]),
    ensures
        ascending(keys.insert(i, k)),
        assoc(keys.insert(i, k), values.insert(i, v)) == assoc(keys, values).insert(k, v),
{
    let keys2 = keys.insert(i, k);
    let values2 = values.insert(i, v);
    assert forall|a: int, b: int| 0 <= a < b < keys2.len() implies precedes(keys2[a], keys2[b]) by {
        if b < i {
        } else if b == i {
        } else if a < i {
            assert(keys2[b] == keys[b - 1]);
        } else if a == i {
            assert(keys2[b] == keys[b - 1]);
        } else {
            assert(keys2[a] == keys[a - 1]);
            assert(keys2[b] == keys[b - 1]);
        }
    }
    let m1 = assoc(keys2, values2);
    let m2 = assoc(keys, values).insert(k, v);
    assert forall|x: Seq<char>| m1.contains_key(x) <==> m2.contains_key(x) by {
        if m1.contains_key(x) {
            let a = keys2.index_of(x);
            if a < i {
                assert(keys[a] == x);
            } else if a > i {
                assert(keys[a - 1] == x);
            }
        }
        if m2.contains_key(x) {
            if x == k {
                assert(keys2[i] == x);
            } else {
                let a = keys.index_of(x);
                if a < i {
                    assert(keys2[a] == x);
                } else {
                    assert(keys2[a + 1] == x);
                }
            }
        }
    }
    assert forall|x: Seq<char>| m1.contains_key(x) implies m1[x] == m2[x] by {
        let a = keys2.index_of(x);
        lemma_assoc_entry(keys2, values2, a);
        if a < i {
            lemma_assoc_entry(keys, values, a);
            lemma_precedes_total(keys[a], k);
        } else if a > i {
            lemma_assoc_entry(keys, values, a - 1);
            lemma_precedes_total(keys[a - 1], k);
        }
    }
    assert(m1 =~= m2);
}

/// Replacing the value at a position rebinds that position's key.
pub proof fn lemma_assoc_update<V>(keys: Seq<Seq<char>>, values: Seq<V>, i: int, v: V)
    requires
        ascending(keys),
        keys.len() == values.len(),
        0 <= i < keys.len(),
    ensures
        assoc(keys, values.update(i, v)) == assoc(keys, values).insert(keys[i], v),
{
    let m1 = assoc(keys, values.update(i, v));
    let m2 = assoc(keys, values).insert(keys[i], v);
    assert(keys.contains(keys[i]));
    assert forall|x: Seq<char>| m1.contains_key(x) implies m1[x] == m2[x] by {
        let a = keys.index_of(x);
        lemma_assoc_entry(keys, values.update(i, v), a);
        lemma_assoc_entry(keys, values, a);
        if keys[a] == keys[i] {
            lemma_ascending_distinct(keys, a, i);
        }
    }
    assert(m1 =~= m2);
}

/// Two ascending sequences that hold the same keys are the same sequence: the
/// order of an ascending sequence is decided by what it holds.
pub proof fn lemma_ascending_unique(s: Seq<Seq<char>>, t: Seq<Seq<char>>)
    requires
        ascending(s),
        ascending(t),
        forall|k: Seq<char>| s.contains(k) <==> t.contains(k),
    ensures
        s == t,
    decreases s.len(),
{
    if s.len() == 0 {
        if t.len() > 0 {
            assert(t.contains(t[0]));
        }
        assert(s =~= t);
    } else {
        assert(s.contains(s[0]));
        let j = t.index_of(s[0]);
        assert(t.contains(t[0]));
        let i = s.index_of(t[0]);
        if i > 0 && j > 0 {
            lemma_precedes_transitive(s[0], s[i], t[j]);
        }
        lemma_precedes_total(s[0], t[0]);
        assert(s[0] == t[0]);
        let s1 = s.drop_first();
        let t1 = t.drop_first();
        assert forall|k: Seq<char>| s1.contains(k) <==> t1.contains(k) by {
            if s1.contains(k) {
                let a = s1.index_of(k);
                assert(s[a + 1] == k);
                assert(s.contains(k));
                let b = t.index_of(k);
                lemma_precedes_total(s[0], k);
                assert(t1[b - 1] == k);
            }
            if t1.contains(k) {
                let b = t1.index_of(k);
                assert(t[b + 1] == k);
                assert(t.contains(k));
                let a = s.index_of(k);
                lemma_precedes_total(t[0], k);
                assert(s1[a - 1] == k);
            }
        }
        assert(ascending(s1)) by {
            assert forall|a: int, b: int| 0 <= a < b < s1.len() implies precedes(s1[a], s1[b]) by {
                assert(s1[a] == s[a + 1] && s1[b] == s[b + 1]);
            }
        }
        assert(ascending(t1)) by {
            assert forall|a: int, b: int| 0 <= a < b < t1.len() implies precedes(t1[a], t1[b]) by {
                assert(t1[a] == t[a + 1] && t1[b] == t[b + 1]);
            }
        }
        lemma_ascending_unique(s1, t1);
        assert(s =~= seq![s[0]] + s1);
        assert(t =~= seq![t[0]] + t1);
    }
}

/// The members of a finite set of versions in ascending order.
pub open spec fn in_order(versions: Set<Seq<char>>) -> Seq<Seq<char>> {
    choose|s: Seq<Seq<char>>| ascending(s) && forall|k: Seq<char>| s.contains(k) <==> versions.contains(k)
}

/// An ascending sequence is the ascending order of the set of its members.
pub proof fn lemma_in_order(s: Seq<Seq<char>>, versions: Set<Seq<char>>)
    requires
        ascending(s),
        forall|k: Seq<char>| s.contains(k) <==> versions.contains(k),
    ensures
        in_order(versions) == s,
{
    lemma_ascending_unique(in_order(versions), s);
}

/// The map that a run of bindings leaves behind: each `Some((k, v))` binds `k`
/// to `v`, a later binding of a key replaces an earlier one, and `None` binds
/// nothing.
pub open spec fn gathered<V>(bindings: Seq<Option<(Seq<char>, V)>>) -> Map<Seq<char>, V>
    decreases bindings.len(),
{
    if bindings.len() == 0 {
        Map::empty()
    } else {
        match bindings.last() {
            Some((k, v)) => gathered(bindings.drop_last()).insert(k, v),
            None => gathered(bindings.drop_last()),
        }
    }
}

/// A `None` anywhere in a run of bindings changes nothing.
pub proof fn lemma_gathered_skip<V>(
    before: Seq<Option<(Seq<char>, V)>>,
    after: Seq<Option<(Seq<char>, V)>>,
)
    ensures
        gathered(before.push(None) + after) == gathered(before + after),
    decreases after.len(),
{
    if after.len() == 0 {
        assert(before.push(None) + after =~= before.push(None));
        assert(before + after =~= before);
        assert(before.push(None).drop_last() =~= before);
    } else {
        assert((before.push(None) + after).drop_last() =~= before.push(None) + after.drop_last());
        assert((before + after).drop_last() =~= before + after.drop_last());
        lemma_gathered_skip(before, after.drop_last());
    }
}

/// The keys of stored entries, in storage order.
spec fn keys_of<V>(entries: Seq<(String, V)>) -> Seq<Seq<char>> {
    Seq::new(entries.len(), |i: int| entries[i].0@)
}

/// The values of stored entries, in storage order.
spec fn values_of<V: View>(entries: Seq<(String, V)>) -> Seq<V::V> {
    Seq::new(entries.len(), |i: int| entries[i].1@)
}

/// A map from version to `V`, stored in ascending order of version.  Its view
/// maps the characters of each version to the view of its value.
#[derive(Debug)]
pub struct VersionMap<V> {
    entries: Vec<(String, V)>,
}

impl<V: View> View for VersionMap<V> {
    type V = Map<Seq<char>, V::V>;

    open spec fn view(&self) -> Map<Seq<char>, V::V> {
        assoc(self.keys(), self.values())
    }
}

impl<V> VersionMap<V> {
    /// The versions held, in the order in which they are stored.
    pub closed spec fn keys(&self) -> Seq<Seq<char>> {
        keys_of(self.entries@)
    }

    /// The versions ascend, so none is held twice.  This holds of every map
    /// that a program has in hand.
    #[verifier::type_invariant]
    pub open spec fn wf(&self) -> bool {
        ascending(self.keys())
    }
}

impl<V: View> VersionMap<V> {
    /// The values held, each at the position of its version in `keys()`.
    pub closed spec fn values(&self) -> Seq<V::V> {
        values_of(self.entries@)
    }

    /// The empty map.
    pub fn new() -> (m: Self)
        ensures
            m.wf(),
            m.keys() == Seq::<Seq<char>>::empty(),
            m@ == Map::<Seq<char>, V::V>::empty(),
    {
        let m = VersionMap { entries: Vec::new() };
        assert(m.keys() =~= Seq::<Seq<char>>::empty());
        assert(m@ =~= Map::<Seq<char>, V::V>::empty());
        m
    }

    /// The number of versions held.
    pub fn len(&self) -> (n: usize)
        ensures
            n == self.keys().len(),
            n == self.values().len(),
    {
        self.entries.len()
    }

    /// The version at position `i` of the ascending order.
    pub fn key_at(&self, i: usize) -> (k: &String)
        requires
            i < self.keys().len(),
        ensures
            k@ == self.keys()[i as int],
    {
        &self.entries[i].0
    }

    /// The value at position `i` of the ascending order.
    pub fn value_at(&self, i: usize) -> (v: &V)
        requires
            i < self.keys().len(),
        ensures
            v@ == self.values()[i as int],
            self@.contains_key(self.keys()[i as int]),
            v@ == self@[self.keys()[i as int]],
    {
        proof {
            use_type_invariant(self);
            lemma_assoc_entry(self.keys(), self.values(), i as int);
        }
        &self.entries[i].1
    }

    /// Where `key` stands or would stand: the first position whose key does
    /// not sort before `key`, and whether that key is `key` itself.
    fn position(&self, key: &str) -> (r: (usize, bool))
        ensures
            self.wf(),
            r.0 <= self.keys().len(),
            forall|a: int| 0 <= a < r.0 ==> precedes(self.keys()[a], key@),
            r.1 ==> r.0 < self.keys().len() && self.keys()[r.0 as int] == key@,
            !r.1 ==> forall|b: int| r.0 <= b < self.keys().len() ==> precedes(key@, self.keys()[b]),
            r.1 == self@.contains_key(key@),
    {
        proof {
            use_type_invariant(self);
        }
        let mut i: usize = 0;
        let mut found = false;
        while i < self.entries.len()
            invariant_except_break
                !found,
            invariant
                self.wf(),
                i <= self.entries.len(),
                forall|a: int| 0 <= a < i ==> precedes(self.keys()[a], key@),
            ensures
                i <= self.keys().len(),
                found ==> i < self.keys().len() && self.keys()[i as int] == key@,
                !found ==> forall|b: int|
                    i <= b < self.keys().len() ==> precedes(key@, self.keys()[b]),
            decreases self.entries.len() - i,
        {
            let o = compare(self.entries[i].0.as_str(), key);
            proof {
                lemma_order_equal(self.keys()[i as int], key@);
                lemma_order_flip(self.keys()[i as int], key@);
            }
            match o {
                Order::Less => {
                    i += 1;
                },
                Order::Equal => {
                    found = true;
                    break ;
                },
                Order::Greater => {
                    assert forall|b: int| i <= b < self.keys().len() implies precedes(
                        key@,
                        self.keys()[b],
                    ) by {
                        if b > i {
                            lemma_precedes_transitive(key@, self.keys()[i as int], self.keys()[b]);
                        }
                    }
                    break ;
                },
            }
        }
        proof {
            if found {
                assert(self.keys().contains(key@));
            } else if self.keys().contains(key@) {
                let a = self.keys().index_of(key@);
                lemma_precedes_total(key@, key@);
            }
        }
        (i, found)
    }

    /// Whether `key` is held.
    pub fn contains_key(&self, key: &str) -> (r: bool)
        ensures
            r == self@.contains_key(key@),
    {
        self.position(key).1
    }

    /// The value bound to `key`.
    pub fn get(&self, key: &str) -> (r: Option<&V>)
        ensures
            r is Some <==> self@.contains_key(key@),
            r matches Some(v) ==> v@ == self@[key@],
    {
        let (i, found) = self.position(key);
        if found {
            proof {
                lemma_assoc_entry(self.keys(), self.values(), i as int);
            }
            Some(&self.entries[i].1)
        } else {
            None
        }
    }

    /// Binds `key` to `value`.  A value that `key` was bound to before is
    /// replaced: the last write wins.
    pub fn insert(&mut self, key: String, value: V)
        ensures
            final(self).wf(),
            final(self)@ == old(self)@.insert(key@, value@),
    {
        let (i, found) = self.position(key.as_str());
        let ghost keys = self.keys();
        let ghost values = self.values();
        let mut entries: Vec<(String, V)> = Vec::new();
        std::mem::swap(&mut entries, &mut self.entries);
        if found {
            proof {
                lemma_assoc_update(keys, values, i as int, value@);
            }
            entries.set(i, (key, value));
            assert(keys_of(entries@) =~= keys);
            assert(values_of(entries@) =~= values.update(i as int, value@));
        } else {
            proof {
                lemma_assoc_insert(keys, values, i as int, key@, value@);
            }
            entries.insert(i, (key, value));
            assert(keys_of(entries@) =~= keys.insert(i as int, key@));
            assert(values_of(entries@) =~= values.insert(i as int, value@));
        }
        self.entries = entries;
    }
}

/// A well-formed map stores its versions in ascending order, each with the
/// value that the view binds it to.
pub proof fn lemma_stored_in_order<V: View>(m: VersionMap<V>)
    requires
        m.wf(),
    ensures
        m.keys() == in_order(m@.dom()),
        m.values() == Seq::new(m.keys().len(), |i: int| m@[m.keys()[i]]),
{
    assert forall|k: Seq<char>| m.keys().contains(k) <==> m@.dom().contains(k) by {
        assert(m@.dom().contains(k) == m.keys().contains(k));
    }
    lemma_in_order(m.keys(), m@.dom());
    assert forall|i: int| 0 <= i < m.values().len() implies m.values()[i] == m@[m.keys()[i]] by {
        lemma_assoc_entry(m.keys(), m.values(), i);
    }
    assert(m.values() =~= Seq::new(m.keys().len(), |i: int| m@[m.keys()[i]]));
}

/// Two well-formed maps with the same view hold the same entries in the same
/// order.
pub proof fn lemma_same_view_same_order<V: View>(a: VersionMap<V>, b: VersionMap<V>)
    requires
        a.wf(),
        b.wf(),
        a@ == b@,
    ensures
        a.keys() == b.keys(),
        a.values() == b.values(),
{
    assert forall|k: Seq<char>| a.keys().contains(k) <==> b.keys().contains(k) by {
        assert(a@.dom().contains(k) == a.keys().contains(k));
        assert(b@.dom().contains(k) == b.keys().contains(k));
    }
    lemma_ascending_unique(a.keys(), b.keys());
    assert forall|i: int| 0 <= i < a.values().len() implies a.values()[i] == b.values()[i] by {
        lemma_assoc_entry(a.keys(), a.values(), i);
        lemma_assoc_entry(b.keys(), b.values(), i);
    }
    assert(a.values() =~= b.values());
}

} // verus!
