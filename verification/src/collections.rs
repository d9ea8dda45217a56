//! Sets of names and maps from names to names, kept as lists without repetition.
use vstd::prelude::*;

use crate::pattern::{has_prefix, starts_with};
use crate::text::{copy_strings, has_string, same, strs, strs_push};

verus! {

// ---------------------------------------------------------------------------
// Lists of pairs as maps
// ---------------------------------------------------------------------------

/// Whether no key occurs twice.
pub open spec fn keys_distinct<K, V>(s: Seq<(K, V)>) -> bool {
    forall|i: int, j: int| 0 <= i < j < s.len() ==> (#[trigger] s[i]).0 != (#[trigger] s[j]).0
}

/// Whether a key occurs.
pub open spec fn has_key<K, V>(s: Seq<(K, V)>, k: K) -> bool {
    exists|i: int| 0 <= i < s.len() && (#[trigger] s[i]).0 == k
}

/// A position at which a key occurs.
pub open spec fn key_index<K, V>(s: Seq<(K, V)>, k: K) -> int {
    choose|i: int| 0 <= i < s.len() && (#[trigger] s[i]).0 == k
}

/// The map that a list of pairs stands for.
pub open spec fn pairs_map<K, V>(s: Seq<(K, V)>) -> Map<K, V> {
    Map::new(|k: K| has_key(s, k), |k: K| s[key_index(s, k)].1)
}

/// A pair of the list is an entry of the map.
pub proof fn pairs_map_at<K, V>(s: Seq<(K, V)>, i: int)
    requires
        keys_distinct(s),
        0 <= i < s.len(),
    ensures
        pairs_map(s).dom().contains(s[i].0),
        pairs_map(s)[s[i].0] == s[i].1,
        key_index(s, s[i].0) == i,
{
    let k = s[i].0;
    let j = key_index(s, k);
    assert(0 <= j < s.len() && s[j].0 == k);
    if i < j {
        assert(s[i].0 != s[j].0);
    } else if j < i {
        assert(s[j].0 != s[i].0);
    }
}

/// A new key at the end is a new entry.
pub proof fn pairs_map_push<K, V>(s: Seq<(K, V)>, p: (K, V))
    requires
        keys_distinct(s),
        !has_key(s, p.0),
    ensures
        keys_distinct(s.push(p)),
        pairs_map(s.push(p)) == pairs_map(s).insert(p.0, p.1),
{
    let t = s.push(p);
    assert forall|i: int, j: int| 0 <= i < j < t.len() implies (#[trigger] t[i]).0 != (
    #[trigger] t[j]).0 by {
        if j == s.len() {
            assert(s[i].0 != p.0);
        }
    }
    let a = pairs_map(t);
    let b = pairs_map(s).insert(p.0, p.1);
    assert forall|k: K| a.dom().contains(k) == b.dom().contains(k) by {
        if has_key(t, k) {
            let i = key_index(t, k);
            if i < s.len() {
                assert(s[i].0 == k);
            }
        }
        if has_key(s, k) {
            let i = key_index(s, k);
            assert(t[i].0 == k);
        }
        assert(t[s.len() as int].0 == p.0);
    }
    assert forall|k: K| a.dom().contains(k) implies a[k] == b[k] by {
        let i = key_index(t, k);
        pairs_map_at(t, i);
        if i < s.len() {
            pairs_map_at(s, i);
            assert(s[i].0 != p.0);
        }
    }
    assert(a =~= b);
}

/// Taking a pair out of the list takes its entry out of the map.
pub proof fn pairs_map_remove<K, V>(s: Seq<(K, V)>, i: int)
    requires
        keys_distinct(s),
        0 <= i < s.len(),
    ensures
        keys_distinct(s.remove(i)),
        pairs_map(s.remove(i)) == pairs_map(s).remove(s[i].0),
{
    let t = s.remove(i);
    assert forall|a: int, b: int| 0 <= a < b < t.len() implies (#[trigger] t[a]).0 != (
    #[trigger] t[b]).0 by {
        let a2 = if a < i { a } else { a + 1 };
        let b2 = if b < i { b } else { b + 1 };
        assert(s[a2].0 != s[b2].0);
    }
    let m = pairs_map(t);
    let n = pairs_map(s).remove(s[i].0);
    assert forall|k: K| m.dom().contains(k) == n.dom().contains(k) by {
        if has_key(t, k) {
            let a = key_index(t, k);
            let a2 = if a < i { a } else { a + 1 };
            assert(s[a2].0 == k);
            if a2 < i {
                assert(s[a2].0 != s[i].0);
            } else {
                assert(s[i].0 != s[a2].0);
            }
        }
        if has_key(s, k) && k != s[i].0 {
            let a = key_index(s, k);
            let a2 = if a < i { a } else { a - 1 };
            assert(t[a2].0 == k);
        }
    }
    assert forall|k: K| m.dom().contains(k) implies m[k] == n[k] by {
        let a = key_index(t, k);
        pairs_map_at(t, a);
        let a2 = if a < i { a } else { a + 1 };
        pairs_map_at(s, a2);
    }
    assert(m =~= n);
}

/// Lists with the same keys in the same places stand for maps with the same keys.
pub proof fn pairs_map_same_keys<K, V>(s: Seq<(K, V)>, t: Seq<(K, V)>)
    requires
        keys_distinct(s),
        s.len() == t.len(),
        forall|i: int| 0 <= i < s.len() ==> (#[trigger] s[i]).0 == t[i].0,
    ensures
        keys_distinct(t),
        pairs_map(t).dom() == pairs_map(s).dom(),
        forall|i: int| 0 <= i < s.len() ==> pairs_map(t)[(#[trigger] s[i]).0] == t[i].1,
{
    assert forall|i: int, j: int| 0 <= i < j < t.len() implies (#[trigger] t[i]).0 != (
    #[trigger] t[j]).0 by {
        assert(s[i].0 != s[j].0);
    }
    assert forall|k: K| pairs_map(t).dom().contains(k) == pairs_map(s).dom().contains(k) by {
        if has_key(t, k) {
            let i = key_index(t, k);
            assert(s[i].0 == k);
        }
        if has_key(s, k) {
            let i = key_index(s, k);
            assert(t[i].0 == k);
        }
    }
    assert(pairs_map(t).dom() =~= pairs_map(s).dom());
    assert forall|i: int| 0 <= i < s.len() implies pairs_map(t)[(#[trigger] s[i]).0] == t[i].1 by {
        pairs_map_at(t, i);
    }
}

/// Another value under the key of a pair is that entry's new value.
pub proof fn pairs_map_update<K, V>(s: Seq<(K, V)>, i: int, v: V)
    requires
        keys_distinct(s),
        0 <= i < s.len(),
    ensures
        keys_distinct(s.update(i, (s[i].0, v))),
        pairs_map(s.update(i, (s[i].0, v))) == pairs_map(s).insert(s[i].0, v),
{
    let t = s.update(i, (s[i].0, v));
    pairs_map_same_keys(s, t);
    let m = pairs_map(t);
    let n = pairs_map(s).insert(s[i].0, v);
    pairs_map_at(s, i);
    assert(m.dom() =~= n.dom());
    assert forall|k: K| m.dom().contains(k) implies m[k] == n[k] by {
        let a = key_index(s, k);
        assert(has_key(s, k));
        pairs_map_at(s, a);
        assert(m[s[a].0] == t[a].1);
    }
    assert(m =~= n);
}

// ---------------------------------------------------------------------------
// Sets of names
// ---------------------------------------------------------------------------

/// A set of names, in the order in which they were put in.
#[derive(Debug)]
pub struct NameSet {
    items: Vec<String>,
}

impl View for NameSet {
    type V = Set<Seq<char>>;

    open spec fn view(&self) -> Set<Seq<char>> {
        self.texts().to_set()
    }
}

impl NameSet {
    /// The names in the order in which they were put in.
    pub closed spec fn texts(&self) -> Seq<Seq<char>> {
        strs(self.items@)
    }

    /// No name occurs twice.
    pub open spec fn wf(&self) -> bool {
        self.texts().no_duplicates()
    }

    /// The empty set.
    pub fn new() -> (r: NameSet)
        ensures
            r.wf(),
            r.texts() == Seq::<Seq<char>>::empty(),
            r@ == Set::<Seq<char>>::empty(),
    {
        let r = NameSet { items: Vec::new() };
        assert(r.texts() =~= Seq::<Seq<char>>::empty());
        assert(r@ =~= Set::<Seq<char>>::empty());
        r
    }

    /// The number of names.
    pub fn len(&self) -> (r: usize)
        ensures
            r == self.texts().len(),
    {
        self.items.len()
    }

    /// Whether there is no name.
    pub fn is_empty(&self) -> (r: bool)
        ensures
            r == (self@ == Set::<Seq<char>>::empty()),
            r == (self.texts().len() == 0),
    {
        proof {
            if self.texts().len() > 0 {
                assert(self.texts().contains(self.texts()[0]));
                assert(self@.contains(self.texts()[0]));
            } else {
                assert(self@ =~= Set::<Seq<char>>::empty());
            }
        }
        self.items.len() == 0
    }

    /// The `i`-th name.
    pub fn at(&self, i: usize) -> (r: &String)
        requires
            i < self.texts().len(),
        ensures
            r@ == self.texts()[i as int],
    {
        &self.items[i]
    }

    /// Whether a name is in the set.
    pub fn contains(&self, name: &str) -> (r: bool)
        ensures
            r == self@.contains(name@),
    {
        has_string(&self.items, name)
    }

    /// Puts a name in.
    pub fn insert(&mut self, name: &str)
        requires
            old(self).wf(),
        ensures
            final(self).wf(),
            final(self)@ == old(self)@.insert(name@),
            final(self).texts() == (if old(self)@.contains(name@) {
                old(self).texts()
            } else {
                old(self).texts().push(name@)
            }),
    {
        if self.contains(name) {
            assert(self@ =~= self@.insert(name@));
            return ;
        }
        let s = name.to_owned();
        let ghost before = self.texts();
        proof {
            strs_push(self.items@, s);
        }
        self.items.push(s);
        proof {
            let after = self.texts();
            assert(after == before.push(name@));
            assert forall|x: Seq<char>| after.to_set().contains(x) == before.to_set().insert(
                name@,
            ).contains(x) by {
                if before.contains(x) {
                    let i = choose|i: int| 0 <= i < before.len() && before[i] == x;
                    assert(after[i] == x);
                }
                assert(after[before.len() as int] == name@);
                if after.contains(x) {
                    let i = choose|i: int| 0 <= i < after.len() && after[i] == x;
                    if i < before.len() {
                        assert(before[i] == x);
                    }
                }
            }
            assert(after.to_set() =~= before.to_set().insert(name@));
        }
    }

    /// Takes a name out.
    pub fn remove(&mut self, name: &str)
        requires
            old(self).wf(),
        ensures
            final(self).wf(),
            final(self)@ == old(self)@.remove(name@),
    {
        let mut i: usize = 0;
        while i < self.items.len()
            invariant
                i <= self.items@.len(),
                self.wf(),
                self.texts() == old(self).texts(),
                forall|j: int| 0 <= j < i ==> self.texts()[j] != name@,
            decreases self.items@.len() - i,
        {
            if same(self.items[i].as_str(), name) {
                let ghost before = self.texts();
                self.items.remove(i);
                proof {
                    let after = self.texts();
                    assert(after =~= before.remove(i as int));
                    assert forall|x: Seq<char>| after.to_set().contains(x)
                        == before.to_set().remove(name@).contains(x) by {
                        if after.contains(x) {
                            let a = choose|a: int| 0 <= a < after.len() && after[a] == x;
                            let b = if a < i { a } else { a + 1 };
                            assert(before[b] == x);
                            assert(before[i as int] == name@);
                        }
                        if before.contains(x) && x != name@ {
                            let b = choose|b: int| 0 <= b < before.len() && before[b] == x;
                            let a = if b < i { b } else { b - 1 };
                            assert(after[a] == x);
                        }
                    }
                    assert(after.to_set() =~= before.to_set().remove(name@));
                    assert forall|a: int, b: int|
                        0 <= a < after.len() && 0 <= b < after.len() && a != b implies after[a]
                        != after[b] by {
                        let a2 = if a < i { a } else { a + 1 };
                        let b2 = if b < i { b } else { b + 1 };
                        assert(before[a2] != before[b2]);
                    }
                }
                return ;
            }
            i = i + 1;
        }
        assert(!self.texts().contains(name@));
        assert(self@ =~= self@.remove(name@));
    }

    /// The set of the names of a list.
    pub fn from_names(names: &Vec<String>) -> (r: NameSet)
        ensures
            r.wf(),
            r@ == strs(names@).to_set(),
    {
        let mut r = NameSet::new();
        let mut i: usize = 0;
        assert(strs(names@).take(0).to_set() =~= Set::<Seq<char>>::empty());
        while i < names.len()
            invariant
                i <= names@.len(),
                r.wf(),
                r@ == strs(names@).take(i as int).to_set(),
            decreases names@.len() - i,
        {
            proof {
                let a = strs(names@).take(i as int);
                let b = strs(names@).take(i + 1);
                assert(b =~= a.push(names@[i as int]@));
                assert forall|x: Seq<char>| b.to_set().contains(x) == a.to_set().insert(
                    names@[i as int]@,
                ).contains(x) by {
                    if a.contains(x) {
                        let k = choose|k: int| 0 <= k < a.len() && a[k] == x;
                        assert(b[k] == x);
                    }
                    assert(b[i as int] == names@[i as int]@);
                    if b.contains(x) {
                        let k = choose|k: int| 0 <= k < b.len() && b[k] == x;
                        if k < i {
                            assert(a[k] == x);
                        }
                    }
                }
                assert(b.to_set() =~= a.to_set().insert(names@[i as int]@));
            }
            r.insert(names[i].as_str());
            i = i + 1;
        }
        assert(strs(names@).take(names@.len() as int) =~= strs(names@));
        r
    }

    /// A copy of the set.
    pub fn copy(&self) -> (r: NameSet)
        ensures
            r.texts() == self.texts(),
    {
        NameSet { items: copy_strings(&self.items) }
    }

    /// The names as a list.
    pub fn to_names(&self) -> (r: Vec<String>)
        ensures
            strs(r@) == self.texts(),
    {
        copy_strings(&self.items)
    }
}

// ---------------------------------------------------------------------------
// Maps from names to names
// ---------------------------------------------------------------------------

/// A map from names to names, in the order in which the keys were put in.
#[derive(Debug)]
pub struct NameMap {
    entries: Vec<(String, String)>,
}

/// The texts of a list of pairs of strings.
pub open spec fn pair_texts(v: Seq<(String, String)>) -> Seq<(Seq<char>, Seq<char>)> {
    v.map_values(|p: (String, String)| (p.0@, p.1@))
}

impl View for NameMap {
    type V = Map<Seq<char>, Seq<char>>;

    open spec fn view(&self) -> Map<Seq<char>, Seq<char>> {
        pairs_map(self.pairs())
    }
}

impl NameMap {
    /// The entries in the order in which the keys were put in.
    pub closed spec fn pairs(&self) -> Seq<(Seq<char>, Seq<char>)> {
        pair_texts(self.entries@)
    }

    /// No key occurs twice.
    pub open spec fn wf(&self) -> bool {
        keys_distinct(self.pairs())
    }

    /// The empty map.
    pub fn new() -> (r: NameMap)
        ensures
            r.wf(),
            r@ == Map::<Seq<char>, Seq<char>>::empty(),
    {
        let r = NameMap { entries: Vec::new() };
        assert(r@ =~= Map::<Seq<char>, Seq<char>>::empty());
        r
    }

    /// The number of entries.
    pub fn len(&self) -> (r: usize)
        ensures
            r == self.pairs().len(),
    {
        self.entries.len()
    }

    /// The key of the `i`-th entry.
    pub fn key_at(&self, i: usize) -> (r: &String)
        requires
            i < self.pairs().len(),
        ensures
            r@ == self.pairs()[i as int].0,
    {
        &self.entries[i].0
    }

    /// The value of the `i`-th entry.
    pub fn value_at(&self, i: usize) -> (r: &String)
        requires
            i < self.pairs().len(),
        ensures
            r@ == self.pairs()[i as int].1,
    {
        &self.entries[i].1
    }

    fn index_of(&self, key: &str) -> (r: Option<usize>)
        requires
            self.wf(),
        ensures
            match r {
                Some(i) => i < self.pairs().len() && self.pairs()[i as int].0 == key@,
                None => !has_key(self.pairs(), key@),
            },
    {
        let mut i: usize = 0;
        while i < self.entries.len()
            invariant
                i <= self.entries@.len(),
                forall|j: int| 0 <= j < i ==> (#[trigger] self.pairs()[j]).0 != key@,
            decreases self.entries@.len() - i,
        {
            if same(self.entries[i].0.as_str(), key) {
                return Some(i);
            }
            i = i + 1;
        }
        None
    }

    /// The value under a key.
    pub fn get(&self, key: &str) -> (r: Option<&String>)
        requires
            self.wf(),
        ensures
            match r {
                Some(v) => self@.dom().contains(key@) && self@[key@] == v@,
                None => !self@.dom().contains(key@),
            },
    {
        match self.index_of(key) {
            Some(i) => {
                proof {
                    pairs_map_at(self.pairs(), i as int);
                }
                Some(&self.entries[i].1)
            },
            None => None,
        }
    }

    /// Puts a value under a key, in place of the one that is there.
    pub fn insert(&mut self, key: &str, value: &str)
        requires
            old(self).wf(),
        ensures
            final(self).wf(),
            final(self)@ == old(self)@.insert(key@, value@),
    {
        let ghost before = self.pairs();
        match self.index_of(key) {
            Some(i) => {
                let entry = (key.to_owned(), value.to_owned());
                proof {
                    pairs_map_update(before, i as int, value@);
                }
                self.entries.set(i, entry);
                assert(self.pairs() =~= before.update(i as int, (key@, value@)));
            },
            None => {
                proof {
                    pairs_map_push(before, (key@, value@));
                }
                self.entries.push((key.to_owned(), value.to_owned()));
                assert(self.pairs() =~= before.push((key@, value@)));
            },
        }
    }

    /// Takes out every entry whose key starts with `prefix`.
    pub fn remove_prefix(&mut self, prefix: &str)
        requires
            old(self).wf(),
        ensures
            final(self).wf(),
            final(self)@ == old(self)@.remove_keys(
                Set::new(|k: Seq<char>| has_prefix(k, prefix@)),
            ),
    {
        let ghost start = self@;
        let ghost gone = Set::new(|k: Seq<char>| has_prefix(k, prefix@));
        let mut i: usize = 0;
        while i < self.entries.len()
            invariant
                i <= self.entries@.len(),
                self.wf(),
                gone == Set::new(|k: Seq<char>| has_prefix(k, prefix@)),
                forall|j: int| 0 <= j < i ==> !has_prefix((#[trigger] self.pairs()[j]).0, prefix@),
                self@.remove_keys(gone) == start.remove_keys(gone),
            decreases self.entries@.len() - i,
        {
            if starts_with(self.entries[i].0.as_str(), prefix) {
                let ghost before = self.pairs();
                let ghost key = before[i as int].0;
                proof {
                    pairs_map_remove(before, i as int);
                }
                self.entries.remove(i);
                proof {
                    assert(self.pairs() =~= before.remove(i as int));
                    assert(gone.contains(key));
                    assert(pairs_map(before).remove(key).remove_keys(gone) =~= pairs_map(
                        before,
                    ).remove_keys(gone));
                }
            } else {
                i = i + 1;
            }
        }
        proof {
            assert forall|k: Seq<char>| self@.dom().contains(k) implies !gone.contains(k) by {
                let j = key_index(self.pairs(), k);
                assert(self.pairs()[j].0 == k);
            }
            assert(self@.remove_keys(gone) =~= self@);
        }
    }
}

} // verus!
