//! Sets of package names and maps keyed by package name, kept in the order
//! of their names: character by character, by code point, as `String`'s
//! ordering sorts them (UTF-8 preserves code point order).

use vstd::prelude::*;
use crate::text::{chars_of, string_of, suffix_from};

verus! {

/// `a` sorts before `b`: at the first position where they differ, `a` has
/// the smaller character, or `a` is a proper prefix of `b`.
pub open spec fn name_lt(a: Seq<char>, b: Seq<char>) -> bool
    decreases a.len(),
{
    if a.len() == 0 {
        b.len() > 0
    } else if b.len() == 0 {
        false
    } else if a[0] != b[0] {
        a[0] < b[0]
    } else {
        name_lt(a.drop_first(), b.drop_first())
    }
}

/// The names are strictly increasing.
pub open spec fn sorted_names(ks: Seq<Seq<char>>) -> bool {
    forall|i: int, j: int| 0 <= i < j < ks.len() ==> name_lt(#[trigger] ks[i], #[trigger] ks[j])
}

/// No name sorts before itself.
pub proof fn lemma_name_lt_irreflexive(a: Seq<char>)
    ensures
        !name_lt(a, a),
    decreases a.len(),
{
    if a.len() > 0 {
        lemma_name_lt_irreflexive(a.drop_first());
    }
}

/// The order of names is transitive.
pub proof fn lemma_name_lt_transitive(a: Seq<char>, b: Seq<char>, c: Seq<char>)
    requires
        name_lt(a, b),
        name_lt(b, c),
    ensures
        name_lt(a, c),
    decreases a.len(),
{
    if a.len() > 0 && b.len() > 0 && c.len() > 0 && a[0] == b[0] && b[0] == c[0] {
        lemma_name_lt_transitive(a.drop_first(), b.drop_first(), c.drop_first());
    }
}

/// Two different names are ordered one way or the other.
pub proof fn lemma_name_lt_total(a: Seq<char>, b: Seq<char>)
    requires
        a != b,
    ensures
        name_lt(a, b) || name_lt(b, a),
    decreases a.len(),
{
    if a.len() == 0 {
        if b.len() == 0 {
            assert(a =~= b);
        }
    } else if b.len() > 0 && a[0] == b[0] {
        if a.drop_first() == b.drop_first() {
            assert(a =~= seq![a[0]] + a.drop_first());
            assert(b =~= seq![b[0]] + b.drop_first());
        }
        lemma_name_lt_total(a.drop_first(), b.drop_first());
    }
}

/// A name never sorts both before and after another.
pub proof fn lemma_name_lt_asymmetric(a: Seq<char>, b: Seq<char>)
    requires
        name_lt(a, b),
    ensures
        !name_lt(b, a),
{
    if name_lt(b, a) {
        lemma_name_lt_transitive(a, b, a);
        lemma_name_lt_irreflexive(a);
    }
}

/// Whether `a` sorts before `b`.
pub fn chars_lt(a: &[char], b: &[char]) -> (r: bool)
    ensures
        r == name_lt(a@, b@),
{
    let mut i: usize = 0;
    assert(a@.skip(0) =~= a@);
    assert(b@.skip(0) =~= b@);
    while i < a.len() && i < b.len() && a[i] == b[i]
        invariant
            i <= a@.len(),
            i <= b@.len(),
            name_lt(a@, b@) == name_lt(a@.skip(i as int), b@.skip(i as int)),
        decreases a.len() - i,
    {
        assert(a@.skip(i as int).drop_first() =~= a@.skip(i + 1));
        assert(b@.skip(i as int).drop_first() =~= b@.skip(i + 1));
        i = i + 1;
    }
    if i == a.len() {
        i < b.len()
    } else if i == b.len() {
        false
    } else {
        a[i] < b[i]
    }
}

/// The characters of each key.
pub open spec fn key_views(keys: Seq<Vec<char>>) -> Seq<Seq<char>> {
    Seq::new(keys.len(), |i: int| keys[i]@)
}

/// A map keyed by package name, kept in the order of its keys.
pub struct PackageMap<V> {
    keys: Vec<Vec<char>>,
    values: Vec<V>,
    contents: Ghost<Map<Seq<char>, V>>,
}

impl<V> View for PackageMap<V> {
    type V = Map<Seq<char>, V>;

    closed spec fn view(&self) -> Map<Seq<char>, V> {
        self.contents@
    }
}

impl<V: Copy> PackageMap<V> {
    /// The keys, in increasing order.
    pub closed spec fn key_order(&self) -> Seq<Seq<char>> {
        key_views(self.keys@)
    }

    /// The values, in the order of their keys.
    pub closed spec fn value_order(&self) -> Seq<V> {
        self.values@
    }

    /// The keys are increasing, and hold exactly the map's keys with their
    /// values.
    pub closed spec fn wf(&self) -> bool {
        &&& self.keys@.len() == self.values@.len()
        &&& sorted_names(key_views(self.keys@))
        &&& forall|i: int|
            0 <= i < self.keys@.len() ==> self.contents@.contains_key(#[trigger] self.keys@[i]@)
                && self.contents@[self.keys@[i]@] == self.values@[i]
        &&& forall|k: Seq<char>|
            #[trigger] self.contents@.contains_key(k) ==> exists|i: int|
                0 <= i < self.keys@.len() && self.keys@[i]@ == k
    }

    /// What a well-formed map's order of keys and values says of its view.
    pub proof fn lemma_order(&self)
        requires
            self.wf(),
        ensures
            sorted_names(self.key_order()),
            self.key_order().len() == self.value_order().len(),
            forall|i: int|
                0 <= i < self.key_order().len() ==> self@.contains_key(#[trigger] self.key_order()[i])
                    && self@[self.key_order()[i]] == self.value_order()[i],
            forall|k: Seq<char>|
                #[trigger] self@.contains_key(k) ==> self.key_order().contains(k),
    {
        assert forall|k: Seq<char>| #[trigger] self@.contains_key(k) implies self.key_order().contains(
            k,
        ) by {
            let i = choose|i: int| 0 <= i < self.keys@.len() && self.keys@[i]@ == k;
            assert(self.key_order()[i] == k);
        }
    }

    /// An empty map.
    pub fn new() -> (m: Self)
        ensures
            m.wf(),
            m@ == Map::<Seq<char>, V>::empty(),
            m.key_order() == Seq::<Seq<char>>::empty(),
    {
        let m = PackageMap { keys: Vec::new(), values: Vec::new(), contents: Ghost(Map::empty()) };
        assert(key_views(m.keys@) =~= Seq::<Seq<char>>::empty());
        m
    }

    /// The number of keys.
    pub fn len(&self) -> (n: usize)
        requires
            self.wf(),
        ensures
            n == self.key_order().len(),
    {
        self.keys.len()
    }

    /// The position of the first key that does not sort before `k`, and
    /// whether that key is `k`.
    fn position(&self, k: &[char]) -> (r: (usize, bool))
        requires
            self.wf(),
        ensures
            r.0 <= self.keys@.len(),
            forall|i: int| 0 <= i < r.0 ==> name_lt(#[trigger] self.keys@[i]@, k@),
            r.0 < self.keys@.len() ==> !name_lt(self.keys@[r.0 as int]@, k@),
            r.1 == (r.0 < self.keys@.len() && self.keys@[r.0 as int]@ == k@),
    {
        let mut i: usize = 0;
        while i < self.keys.len() && chars_lt(self.keys[i].as_slice(), k)
            invariant
                i <= self.keys@.len(),
                forall|j: int| 0 <= j < i ==> name_lt(#[trigger] self.keys@[j]@, k@),
            decreases self.keys.len() - i,
        {
            i = i + 1;
        }
        if i < self.keys.len() {
            let found = crate::text::chars_eq(self.keys[i].as_slice(), k);
            (i, found)
        } else {
            (i, false)
        }
    }

    /// The value of key `k`, if the map has it.
    pub fn get(&self, k: &str) -> (r: Option<V>)
        requires
            self.wf(),
        ensures
            r == (if self@.contains_key(k@) {
                Some(self@[k@])
            } else {
                None
            }),
    {
        let chars = chars_of(k);
        let (i, found) = self.position(chars.as_slice());
        if found {
            Some(self.values[i])
        } else {
            proof {
                if self@.contains_key(k@) {
                    let j = choose|j: int| 0 <= j < self.keys@.len() && self.keys@[j]@ == k@;
                    if j < i {
                        lemma_name_lt_irreflexive(k@);
                    } else if j > i {
                        assert(name_lt(key_views(self.keys@)[i as int], key_views(self.keys@)[j]));
                        lemma_name_lt_total(self.keys@[i as int]@, k@);
                    }
                }
            }
            None
        }
    }

    /// Sets the value of key `k`, replacing any value it had.
    pub fn insert(&mut self, k: &str, v: V)
        requires
            old(self).wf(),
        ensures
            final(self).wf(),
            final(self)@ == old(self)@.insert(k@, v),
    {
        let chars = chars_of(k);
        let (i, found) = self.position(chars.as_slice());
        let ghost old_keys = self.keys@;
        let ghost old_values = self.values@;
        if found {
            self.values.set(i, v);
            proof {
                self.contents@ = self.contents@.insert(k@, v);
                assert forall|j: int| 0 <= j < self.keys@.len() implies self.contents@.contains_key(
                    #[trigger] self.keys@[j]@,
                ) && self.contents@[self.keys@[j]@] == self.values@[j] by {
                    if j != i {
                        if self.keys@[j]@ == k@ {
                            if j < i {
                                assert(name_lt(key_views(old_keys)[j], key_views(old_keys)[i as int]));
                            } else {
                                assert(name_lt(key_views(old_keys)[i as int], key_views(old_keys)[j]));
                            }
                            lemma_name_lt_irreflexive(k@);
                        }
                    }
                }
                assert forall|key: Seq<char>| #[trigger] self.contents@.contains_key(key) implies exists|
                    j: int,
                | 0 <= j < self.keys@.len() && self.keys@[j]@ == key by {
                    if key == k@ {
                        assert(self.keys@[i as int]@ == key);
                    }
                }
            }
        } else {
            let stored = suffix_from(chars.as_slice(), 0);
            assert(chars@.subrange(0, chars@.len() as int) =~= chars@);
            self.keys.insert(i, stored);
            self.values.insert(i, v);
            proof {
                self.contents@ = self.contents@.insert(k@, v);
                let nk = key_views(self.keys@);
                let ok = key_views(old_keys);
                assert forall|a: int, b: int| 0 <= a < b < nk.len() implies name_lt(
                    #[trigger] nk[a],
                    #[trigger] nk[b],
                ) by {
                    if b < i {
                        assert(nk[a] == ok[a] && nk[b] == ok[b]);
                    } else if b == i {
                        assert(nk[a] == ok[a]);
                    } else if a < i {
                        assert(nk[a] == ok[a] && nk[b] == ok[b - 1]);
                        assert(name_lt(ok[a], k@));
                        if b - 1 > i {
                            assert(name_lt(ok[i as int], ok[b - 1]));
                        }
                        lemma_name_lt_total(ok[i as int], k@);
                        if b - 1 > i {
                            lemma_name_lt_transitive(k@, ok[i as int], ok[b - 1]);
                        }
                        lemma_name_lt_transitive(ok[a], k@, ok[b - 1]);
                    } else if a == i {
                        assert(nk[b] == ok[b - 1]);
                        lemma_name_lt_total(ok[i as int], k@);
                        if b - 1 > i {
                            assert(name_lt(ok[i as int], ok[b - 1]));
                            lemma_name_lt_transitive(k@, ok[i as int], ok[b - 1]);
                        }
                    } else {
                        assert(nk[a] == ok[a - 1] && nk[b] == ok[b - 1]);
                    }
                }
                assert forall|j: int| 0 <= j < self.keys@.len() implies self.contents@.contains_key(
                    #[trigger] self.keys@[j]@,
                ) && self.contents@[self.keys@[j]@] == self.values@[j] by {
                    if j < i {
                        assert(self.keys@[j] == old_keys[j]);
                        assert(name_lt(old_keys[j]@, k@));
                        if old_keys[j]@ == k@ {
                            lemma_name_lt_irreflexive(k@);
                        }
                    } else if j > i {
                        assert(self.keys@[j] == old_keys[j - 1]);
                        if old_keys[j - 1]@ == k@ {
                            lemma_name_lt_total(ok[i as int], k@);
                            if j - 1 > i {
                                assert(name_lt(ok[i as int], ok[j - 1]));
                                lemma_name_lt_asymmetric(ok[i as int], k@);
                            }
                        }
                    }
                }
                assert forall|key: Seq<char>| #[trigger] self.contents@.contains_key(key) implies exists|
                    j: int,
                | 0 <= j < self.keys@.len() && self.keys@[j]@ == key by {
                    if key == k@ {
                        assert(self.keys@[i as int]@ == key);
                    } else {
                        let j = choose|j: int| 0 <= j < old_keys.len() && old_keys[j]@ == key;
                        if j < i {
                            assert(self.keys@[j]@ == key);
                        } else {
                            assert(self.keys@[j + 1]@ == key);
                        }
                    }
                }
            }
        }
    }

    /// Removes key `k`; returns whether the map had it.
    pub fn remove(&mut self, k: &str) -> (had: bool)
        requires
            old(self).wf(),
        ensures
            final(self).wf(),
            final(self)@ == old(self)@.remove(k@),
            had == old(self)@.contains_key(k@),
    {
        let chars = chars_of(k);
        let (i, found) = self.position(chars.as_slice());
        let ghost old_keys = self.keys@;
        let ghost ok = key_views(old_keys);
        proof {
            if !found && self@.contains_key(k@) {
                let j = choose|j: int| 0 <= j < self.keys@.len() && self.keys@[j]@ == k@;
                if j < i {
                    lemma_name_lt_irreflexive(k@);
                } else if j > i {
                    assert(name_lt(ok[i as int], ok[j]));
                    lemma_name_lt_total(self.keys@[i as int]@, k@);
                }
            }
        }
        if !found {
            assert(self@.remove(k@) =~= self@);
            return false;
        }
        self.keys.remove(i);
        self.values.remove(i);
        proof {
            self.contents@ = self.contents@.remove(k@);
            let nk = key_views(self.keys@);
            assert forall|a: int, b: int| 0 <= a < b < nk.len() implies name_lt(
                #[trigger] nk[a],
                #[trigger] nk[b],
            ) by {
                if b < i {
                    assert(nk[a] == ok[a] && nk[b] == ok[b]);
                } else if a < i {
                    assert(nk[a] == ok[a] && nk[b] == ok[b + 1]);
                } else {
                    assert(nk[a] == ok[a + 1] && nk[b] == ok[b + 1]);
                }
            }
            assert forall|j: int| 0 <= j < self.keys@.len() implies self.contents@.contains_key(
                #[trigger] self.keys@[j]@,
            ) && self.contents@[self.keys@[j]@] == self.values@[j] by {
                let oj = if j < i { j } else { j + 1 };
                assert(self.keys@[j] == old_keys[oj]);
                if old_keys[oj]@ == k@ {
                    if oj < i {
                        assert(name_lt(ok[oj], ok[i as int]));
                    } else {
                        assert(name_lt(ok[i as int], ok[oj]));
                    }
                    lemma_name_lt_irreflexive(k@);
                }
            }
            assert forall|key: Seq<char>| #[trigger] self.contents@.contains_key(key) implies exists|
                j: int,
            | 0 <= j < self.keys@.len() && self.keys@[j]@ == key by {
                let j = choose|j: int| 0 <= j < old_keys.len() && old_keys[j]@ == key;
                if j < i {
                    assert(self.keys@[j]@ == key);
                } else {
                    assert(j != i);
                    assert(self.keys@[j - 1]@ == key);
                }
            }
        }
        true
    }

    /// The keys as strings, in increasing order.
    pub fn keys(&self) -> (r: Vec<String>)
        requires
            self.wf(),
        ensures
            r@.len() == self.key_order().len(),
            forall|i: int| 0 <= i < r@.len() ==> #[trigger] r@[i]@ == self.key_order()[i],
    {
        let mut out: Vec<String> = Vec::new();
        let mut i: usize = 0;
        while i < self.keys.len()
            invariant
                i <= self.keys@.len(),
                out@.len() == i,
                forall|j: int| 0 <= j < i ==> #[trigger] out@[j]@ == self.keys@[j]@,
            decreases self.keys.len() - i,
        {
            out.push(string_of(self.keys[i].as_slice()));
            i = i + 1;
        }
        out
    }

    /// The values, in the order of their keys.
    pub fn values(&self) -> (r: Vec<V>)
        requires
            self.wf(),
        ensures
            r@ == self.value_order(),
    {
        let mut out: Vec<V> = Vec::new();
        let mut i: usize = 0;
        while i < self.values.len()
            invariant
                i <= self.values@.len(),
                out@ == self.values@.take(i as int),
            decreases self.values.len() - i,
        {
            out.push(self.values[i]);
            i = i + 1;
            assert(out@ =~= self.values@.take(i as int));
        }
        assert(self.values@.take(self.values@.len() as int) =~= self.values@);
        out
    }
}

/// The names listed in `a`, which lists the names of `s` in order, are the
/// members of `s`.
proof fn lemma_listed_names(a: Seq<String>, s: &PackageSet)
    requires
        s.wf(),
        a.len() == s.name_order().len(),
        forall|j: int| 0 <= j < a.len() ==> #[trigger] a[j]@ == s.name_order()[j],
    ensures
        Set::new(|k: Seq<char>| exists|j: int| 0 <= j < a.len() && #[trigger] a[j]@ == k) == s@,
{
    s.lemma_order();
    assert forall|k: Seq<char>| s@.contains(k) implies exists|j: int|
        0 <= j < a.len() && #[trigger] a[j]@ == k by {
        assert(s.name_order().contains(k));
        let j = choose|j: int| 0 <= j < s.name_order().len() && s.name_order()[j] == k;
        assert(a[j]@ == k);
    }
    assert forall|k: Seq<char>| (exists|j: int| 0 <= j < a.len() && #[trigger] a[j]@ == k) implies s@.contains(k) by {
        let j = choose|j: int| 0 <= j < a.len() && #[trigger] a[j]@ == k;
        assert(s.name_order()[j] == k);
        assert(s.name_order().contains(k));
    }
    assert(Set::new(|k: Seq<char>| exists|j: int| 0 <= j < a.len() && #[trigger] a[j]@ == k) =~= s@);
}

/// A set of package names, kept in the order of the names.
pub struct PackageSet {
    names: PackageMap<()>,
}

impl View for PackageSet {
    type V = Set<Seq<char>>;

    closed spec fn view(&self) -> Set<Seq<char>> {
        self.names@.dom()
    }
}

impl PackageSet {
    /// The names, in increasing order.
    pub closed spec fn name_order(&self) -> Seq<Seq<char>> {
        self.names.key_order()
    }

    /// The set is well formed.
    pub closed spec fn wf(&self) -> bool {
        self.names.wf()
    }

    /// The names in order are the set's members, each once, increasing.
    pub proof fn lemma_order(&self)
        requires
            self.wf(),
        ensures
            sorted_names(self.name_order()),
            forall|k: Seq<char>| self@.contains(k) <==> #[trigger] self.name_order().contains(k),
    {
        self.names.lemma_order();
        assert forall|k: Seq<char>| #[trigger] self.name_order().contains(k) implies self@.contains(
            k,
        ) by {
            let i = choose|i: int| 0 <= i < self.name_order().len() && self.name_order()[i] == k;
        }
    }

    /// An empty set.
    pub fn new() -> (s: Self)
        ensures
            s.wf(),
            s@ == Set::<Seq<char>>::empty(),
    {
        let s = PackageSet { names: PackageMap::new() };
        assert(s@ =~= Set::<Seq<char>>::empty());
        s
    }

    /// Adds `name`; returns whether it was new.
    pub fn insert(&mut self, name: &str) -> (added: bool)
        requires
            old(self).wf(),
        ensures
            final(self).wf(),
            final(self)@ == old(self)@.insert(name@),
            added == !old(self)@.contains(name@),
    {
        let had = self.names.get(name).is_some();
        self.names.insert(name, ());
        assert(self@ =~= old(self)@.insert(name@));
        !had
    }

    /// Removes `name`; returns whether it was there.
    pub fn remove(&mut self, name: &str) -> (removed: bool)
        requires
            old(self).wf(),
        ensures
            final(self).wf(),
            final(self)@ == old(self)@.remove(name@),
            removed == old(self)@.contains(name@),
    {
        let r = self.names.remove(name);
        assert(self@ =~= old(self)@.remove(name@));
        r
    }

    /// Whether `name` is in the set.
    pub fn contains(&self, name: &str) -> (r: bool)
        requires
            self.wf(),
        ensures
            r == self@.contains(name@),
    {
        self.names.get(name).is_some()
    }

    /// The number of names.
    pub fn len(&self) -> (n: usize)
        requires
            self.wf(),
        ensures
            n == self.name_order().len(),
    {
        self.names.len()
    }

    /// Whether the set is empty.
    pub fn is_empty(&self) -> (r: bool)
        requires
            self.wf(),
        ensures
            r == (self@ == Set::<Seq<char>>::empty()),
    {
        proof {
            self.lemma_order();
            if self.name_order().len() > 0 {
                assert(self@.contains(self.name_order()[0]));
            } else {
                assert(self@ =~= Set::<Seq<char>>::empty());
            }
        }
        self.names.len() == 0
    }

    /// The names, in increasing order.
    pub fn to_vec(&self) -> (r: Vec<String>)
        requires
            self.wf(),
        ensures
            r@.len() == self.name_order().len(),
            forall|i: int| 0 <= i < r@.len() ==> #[trigger] r@[i]@ == self.name_order()[i],
    {
        self.names.keys()
    }

    /// The set of the given names.
    pub fn from_names(names: &[String]) -> (s: Self)
        ensures
            s.wf(),
            forall|k: Seq<char>| s@.contains(k) <==> exists|i: int| 0 <= i < names@.len() && #[trigger] names@[i]@ == k,
    {
        let mut s = PackageSet::new();
        let mut i: usize = 0;
        while i < names.len()
            invariant
                i <= names@.len(),
                s.wf(),
                forall|k: Seq<char>| s@.contains(k) <==> exists|j: int| 0 <= j < i && #[trigger] names@[j]@ == k,
            decreases names.len() - i,
        {
            s.insert(names[i].as_str());
            proof {
                assert forall|k: Seq<char>| s@.contains(k) implies exists|j: int| 0 <= j < i + 1 && #[trigger] names@[j]@ == k by {
                    if k != names@[i as int]@ {
                        let j = choose|j: int| 0 <= j < i && #[trigger] names@[j]@ == k;
                    }
                }
            }
            i = i + 1;
        }
        s
    }

    /// A set with the same names.
    pub fn clone(&self) -> (r: PackageSet)
        requires
            self.wf(),
        ensures
            r.wf(),
            r@ == self@,
    {
        let r = self.union(&PackageSet::new());
        assert(r@ =~= self@);
        r
    }

    /// The names in `self` or in `other`.
    pub fn union(&self, other: &PackageSet) -> (r: PackageSet)
        requires
            self.wf(),
            other.wf(),
        ensures
            r.wf(),
            r@ == self@.union(other@),
    {
        let mut r = PackageSet::new();
        let a = self.to_vec();
        let b = other.to_vec();
        proof {
            self.lemma_order();
            other.lemma_order();
        }
        let mut i: usize = 0;
        while i < a.len()
            invariant
                r.wf(),
                i <= a@.len(),
                a@.len() == self.name_order().len(),
                forall|j: int| 0 <= j < a@.len() ==> #[trigger] a@[j]@ == self.name_order()[j],
                r@ == Set::new(|k: Seq<char>| exists|j: int| 0 <= j < i && #[trigger] a@[j]@ == k),
            decreases a.len() - i,
        {
            r.insert(a[i].as_str());
            assert(r@ =~= Set::new(|k: Seq<char>| exists|j: int| 0 <= j < i + 1 && #[trigger] a@[j]@ == k));
            i = i + 1;
        }
        proof {
            lemma_listed_names(a@, self);
            assert(Set::new(|k: Seq<char>| exists|t: int| 0 <= t < 0 && #[trigger] b@[t]@ == k)
                =~= Set::<Seq<char>>::empty());
            assert(r@ =~= self@ + Set::new(
                |k: Seq<char>| exists|t: int| 0 <= t < 0 && #[trigger] b@[t]@ == k,
            ));
        }
        let mut j: usize = 0;
        while j < b.len()
            invariant
                r.wf(),
                j <= b@.len(),
                b@.len() == other.name_order().len(),
                forall|t: int| 0 <= t < b@.len() ==> #[trigger] b@[t]@ == other.name_order()[t],
                r@ == self@ + Set::new(|k: Seq<char>| exists|t: int| 0 <= t < j && #[trigger] b@[t]@ == k),
            decreases b.len() - j,
        {
            r.insert(b[j].as_str());
            assert(r@ =~= self@ + Set::new(|k: Seq<char>| exists|t: int| 0 <= t < j + 1 && #[trigger] b@[t]@ == k));
            j = j + 1;
        }
        proof {
            lemma_listed_names(b@, other);
            assert(r@ =~= self@.union(other@));
        }
        r
    }
    /// The names of `self` for which `other` holds or lacks membership, as
    /// `keep_common` says.
    fn filter_by(&self, other: &PackageSet, keep_common: bool) -> (r: PackageSet)
        requires
            self.wf(),
            other.wf(),
        ensures
            r.wf(),
            r@ == self@.filter(|k: Seq<char>| other@.contains(k) == keep_common),
    {
        let mut r = PackageSet::new();
        let a = self.to_vec();
        let ghost keep = |k: Seq<char>| other@.contains(k) == keep_common;
        let mut i: usize = 0;
        #[verifier::loop_isolation(false)]
        while i < a.len()
            invariant
                r.wf(),
                i <= a@.len(),
                a@.len() == self.name_order().len(),
                forall|j: int| 0 <= j < a@.len() ==> #[trigger] a@[j]@ == self.name_order()[j],
                r@ == Set::new(|k: Seq<char>| exists|j: int| 0 <= j < i && #[trigger] a@[j]@ == k).filter(keep),
            decreases a.len() - i,
        {
            if other.contains(a[i].as_str()) == keep_common {
                r.insert(a[i].as_str());
            }
            assert(r@ =~= Set::new(|k: Seq<char>| exists|j: int| 0 <= j < i + 1 && #[trigger] a@[j]@ == k).filter(keep));
            i = i + 1;
        }
        proof {
            lemma_listed_names(a@, self);
        }
        r
    }

    /// The names in both `self` and `other`.
    pub fn intersection(&self, other: &PackageSet) -> (r: PackageSet)
        requires
            self.wf(),
            other.wf(),
        ensures
            r.wf(),
            r@ == self@.intersect(other@),
    {
        let r = self.filter_by(other, true);
        assert(r@ =~= self@.intersect(other@));
        r
    }

    /// The names in `self` and not in `other`.
    pub fn difference(&self, other: &PackageSet) -> (r: PackageSet)
        requires
            self.wf(),
            other.wf(),
        ensures
            r.wf(),
            r@ == self@.difference(other@),
    {
        let r = self.filter_by(other, false);
        assert(r@ =~= self@.difference(other@));
        r
    }
}

} // verus!