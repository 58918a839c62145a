//! A map from strings, which keeps its entries in the order in which their keys
//! came.

use vstd::prelude::*;

use crate::text;

verus! {

/// A map from strings.
pub struct StringMap<V> {
    entries: Vec<(String, V)>,
}

/// Whether no key occurs twice.
pub open spec fn distinct<V>(s: Seq<(String, V)>) -> bool {
    forall|i: int, j: int| 0 <= i < j < s.len() ==> (#[trigger] s[i]).0@ != (#[trigger] s[j]).0@
}

/// Whether a key occurs.
pub open spec fn has_key<V>(s: Seq<(String, V)>, key: Seq<char>) -> bool {
    exists|i: int| 0 <= i < s.len() && (#[trigger] s[i]).0@ == key
}

/// Where a key occurs.
pub open spec fn key_index<V>(s: Seq<(String, V)>, key: Seq<char>) -> int {
    choose|i: int| 0 <= i < s.len() && (#[trigger] s[i]).0@ == key
}

/// The map of a list of entries.
pub open spec fn map_of<V>(s: Seq<(String, V)>) -> Map<Seq<char>, V> {
    Map::new(|k: Seq<char>| has_key(s, k), |k: Seq<char>| s[key_index(s, k)].1)
}

impl<V> View for StringMap<V> {
    type V = Map<Seq<char>, V>;

    closed spec fn view(&self) -> Map<Seq<char>, V> {
        map_of(self.entries@)
    }
}

/// What an entry is in the map.
proof fn entry_in_map<V>(s: Seq<(String, V)>, i: int)
    requires
        distinct(s),
        0 <= i < s.len(),
    ensures
        map_of(s).contains_key(s[i].0@),
        map_of(s)[s[i].0@] == s[i].1,
{
    let k = key_index(s, s[i].0@);
    assert(s[i].0@ == s[i].0@);
    assert(has_key(s, s[i].0@));
    assert(0 <= k < s.len() && s[k].0@ == s[i].0@);
}

proof fn map_after_push<V>(s: Seq<(String, V)>, key: String, value: V)
    requires
        distinct(s),
        !has_key(s, key@),
    ensures
        distinct(s.push((key, value))),
        map_of(s.push((key, value))) == map_of(s).insert(key@, value),
{
    let n = s.push((key, value));
    let m = map_of(s).insert(key@, value);
    assert forall|k: Seq<char>| #[trigger] map_of(n).contains_key(k) <==> m.contains_key(k) by {
        if has_key(n, k) {
            let i = choose|i: int| 0 <= i < n.len() && (#[trigger] n[i]).0@ == k;
            if i < s.len() {
                assert(s[i].0@ == k);
            }
        }
        if has_key(s, k) {
            let i = choose|i: int| 0 <= i < s.len() && (#[trigger] s[i]).0@ == k;
            assert(n[i].0@ == k);
        }
        assert(n[s.len() as int].0@ == key@);
    }
    assert forall|k: Seq<char>| #[trigger] map_of(n).contains_key(k) implies map_of(n)[k] == m[k] by {
        let i = key_index(n, k);
        if i < s.len() {
            assert(s[i].0@ == k);
            entry_in_map(s, i);
        }
    }
    assert(map_of(n) =~= m);
}

proof fn map_after_update<V>(s: Seq<(String, V)>, at: int, key: String, value: V)
    requires
        distinct(s),
        0 <= at < s.len(),
        s[at].0@ == key@,
    ensures
        distinct(s.update(at, (key, value))),
        map_of(s.update(at, (key, value))) == map_of(s).insert(key@, value),
{
    let n = s.update(at, (key, value));
    let m = map_of(s).insert(key@, value);
    assert forall|i: int, j: int| 0 <= i < j < n.len() implies (#[trigger] n[i]).0@ != (#[trigger] n[j]).0@ by {
        assert(s[i].0@ != s[j].0@);
    }
    assert forall|k: Seq<char>| #[trigger] map_of(n).contains_key(k) <==> m.contains_key(k) by {
        if has_key(n, k) {
            let i = choose|i: int| 0 <= i < n.len() && (#[trigger] n[i]).0@ == k;
            assert(s[i].0@ == k);
        }
        if has_key(s, k) {
            let i = choose|i: int| 0 <= i < s.len() && (#[trigger] s[i]).0@ == k;
            assert(n[i].0@ == k);
        }
        assert(n[at].0@ == key@);
    }
    assert forall|k: Seq<char>| #[trigger] map_of(n).contains_key(k) implies map_of(n)[k] == m[k] by {
        let i = key_index(n, k);
        assert(s[i].0@ == k);
        entry_in_map(s, i);
        if i != at && k == key@ {
            if i < at {
                assert(s[i].0@ != s[at].0@);
            } else {
                assert(s[at].0@ != s[i].0@);
            }
        }
    }
    assert(map_of(n) =~= m);
}

proof fn map_after_remove<V>(s: Seq<(String, V)>, at: int)
    requires
        distinct(s),
        0 <= at < s.len(),
    ensures
        distinct(s.remove(at)),
        map_of(s.remove(at)) == map_of(s).remove(s[at].0@),
{
    let n = s.remove(at);
    let key = s[at].0@;
    let m = map_of(s).remove(key);
    assert forall|i: int| 0 <= i < n.len() implies #[trigger] n[i] == s[if i < at { i } else { i + 1 }] by {}
    assert forall|i: int, j: int| 0 <= i < j < n.len() implies (#[trigger] n[i]).0@ != (#[trigger] n[j]).0@ by {
        let a = if i < at { i } else { i + 1 };
        let b = if j < at { j } else { j + 1 };
        assert(s[a].0@ != s[b].0@);
    }
    assert forall|k: Seq<char>| #[trigger] map_of(n).contains_key(k) <==> m.contains_key(k) by {
        if has_key(n, k) {
            let i = choose|i: int| 0 <= i < n.len() && (#[trigger] n[i]).0@ == k;
            let a = if i < at { i } else { i + 1 };
            assert(s[a].0@ == k);
            if a < at {
                assert(s[a].0@ != s[at].0@);
            } else {
                assert(s[at].0@ != s[a].0@);
            }
        }
        if has_key(s, k) && k != key {
            let a = choose|i: int| 0 <= i < s.len() && (#[trigger] s[i]).0@ == k;
            let i = if a < at { a } else { a - 1 };
            assert(n[i].0@ == k);
        }
    }
    assert forall|k: Seq<char>| #[trigger] map_of(n).contains_key(k) implies map_of(n)[k] == m[k] by {
        let i = key_index(n, k);
        let a = if i < at { i } else { i + 1 };
        assert(s[a] == n[i]);
        entry_in_map(s, a);
    }
    assert(map_of(n) =~= m);
}

impl<V> StringMap<V> {
    #[verifier::type_invariant]
    spec fn has_distinct_keys(self) -> bool {
        distinct(self.entries@)
    }

    /// An empty map.
    pub fn new() -> (r: StringMap<V>)
        ensures
            r@ == Map::<Seq<char>, V>::empty(),
    {
        let r = StringMap { entries: Vec::new() };
        assert(r@ =~= Map::<Seq<char>, V>::empty());
        r
    }

    /// Where a key is.
    fn find(&self, key: &str) -> (r: Option<usize>)
        ensures
            match r {
                Some(i) => i < self.entries@.len() && self.entries@[i as int].0@ == key@,
                None => !has_key(self.entries@, key@),
            },
    {
        let mut i: usize = 0;
        while i < self.entries.len()
            invariant
                i <= self.entries@.len(),
                forall|j: int| 0 <= j < i ==> (#[trigger] self.entries@[j]).0@ != key@,
            decreases self.entries@.len() - i,
        {
            if text::same(&self.entries[i].0, key) {
                return Some(i);
            }
            i += 1;
        }
        None
    }

    /// The value of a key.
    pub fn get(&self, key: &str) -> (r: Option<&V>)
        ensures
            match r {
                Some(v) => self@.contains_key(key@) && self@[key@] == *v,
                None => !self@.contains_key(key@),
            },
    {
        proof {
            use_type_invariant(self);
        }
        match self.find(key) {
            Some(i) => {
                proof {
                    entry_in_map(self.entries@, i as int);
                }
                Some(&self.entries[i].1)
            },
            None => None,
        }
    }

    /// Whether a key has a value.
    pub fn contains_key(&self, key: &str) -> (r: bool)
        ensures
            r == self@.contains_key(key@),
    {
        self.get(key).is_some()
    }

    /// Gives a key a value.
    pub fn insert(&mut self, key: &str, value: V)
        ensures
            final(self)@ == old(self)@.insert(key@, value),
    {
        proof {
            use_type_invariant(&*self);
        }
        let found = self.find(key);
        let mut entries: Vec<(String, V)> = Vec::new();
        std::mem::swap(&mut entries, &mut self.entries);
        let ghost before = entries@;
        let owned = key.to_owned();
        match found {
            Some(i) => {
                proof {
                    map_after_update(before, i as int, owned, value);
                }
                entries.set(i, (owned, value));
            },
            None => {
                proof {
                    map_after_push(before, owned, value);
                }
                entries.push((owned, value));
            },
        }
        self.entries = entries;
    }

    /// Takes a key and its value out of the map.
    pub fn remove(&mut self, key: &str) -> (r: Option<V>)
        ensures
            match r {
                Some(v) => old(self)@.contains_key(key@) && old(self)@[key@] == v,
                None => !old(self)@.contains_key(key@),
            },
            final(self)@ == old(self)@.remove(key@),
    {
        proof {
            use_type_invariant(&*self);
        }
        match self.find(key) {
            Some(i) => {
                let mut entries: Vec<(String, V)> = Vec::new();
                std::mem::swap(&mut entries, &mut self.entries);
                proof {
                    entry_in_map(entries@, i as int);
                    map_after_remove(entries@, i as int);
                }
                let (_, v) = entries.remove(i);
                self.entries = entries;
                Some(v)
            },
            None => {
                assert(self@.remove(key@) =~= self@);
                None
            },
        }
    }

    /// Empties the map.
    pub fn clear(&mut self)
        ensures
            final(self)@ == Map::<Seq<char>, V>::empty(),
    {
        self.entries = Vec::new();
        assert(self@ =~= Map::<Seq<char>, V>::empty());
    }

    /// The keys, in the order in which they came.
    pub fn keys(&self) -> (r: Vec<String>)
        ensures
            forall|i: int| 0 <= i < r@.len() ==> self@.contains_key((#[trigger] r@[i])@),
            forall|k: Seq<char>| #[trigger]
                self@.contains_key(k) ==> exists|i: int| 0 <= i < r@.len() && (#[trigger] r@[i])@ == k,
            text::texts(r@).no_duplicates(),
    {
        proof {
            use_type_invariant(self);
        }
        let mut out: Vec<String> = Vec::new();
        let mut i: usize = 0;
        while i < self.entries.len()
            invariant
                i <= self.entries@.len(),
                out@.len() == i,
                distinct(self.entries@),
                forall|j: int| 0 <= j < i ==> (#[trigger] out@[j])@ == self.entries@[j].0@,
            decreases self.entries@.len() - i,
        {
            out.push(self.entries[i].0.clone());
            i += 1;
        }
        proof {
            assert forall|j: int| 0 <= j < out@.len() implies self@.contains_key((#[trigger] out@[j])@) by {
                entry_in_map(self.entries@, j);
            }
            assert forall|k: Seq<char>| #[trigger] self@.contains_key(k) implies exists|j: int|
                0 <= j < out@.len() && (#[trigger] out@[j])@ == k by {
                let j = key_index(self.entries@, k);
                assert(out@[j]@ == k);
            }
            assert forall|a: int, b: int|
                0 <= a < out@.len() && 0 <= b < out@.len() && a != b implies text::texts(out@)[a]
                != text::texts(out@)[b] by {
                let x = if a < b { a } else { b };
                let y = if a < b { b } else { a };
                assert(self.entries@[x].0@ != self.entries@[y].0@);
                assert(out@[x]@ == self.entries@[x].0@);
                assert(out@[y]@ == self.entries@[y].0@);
            }
        }
        out
    }
}

impl StringMap<u16> {
    /// Whether some key has a value.
    pub fn has_value(&self, value: u16) -> (r: bool)
        ensures
            r == self@.contains_value(value),
    {
        proof {
            use_type_invariant(self);
        }
        let mut i: usize = 0;
        while i < self.entries.len()
            invariant
                i <= self.entries@.len(),
                distinct(self.entries@),
                forall|j: int| 0 <= j < i ==> (#[trigger] self.entries@[j]).1 != value,
            decreases self.entries@.len() - i,
        {
            if self.entries[i].1 == value {
                proof {
                    entry_in_map(self.entries@, i as int);
                    let k = self.entries@[i as int].0@;
                    assert(self@.contains_key(k) && self@[k] == value);
                }
                return true;
            }
            i += 1;
        }
        proof {
            assert forall|k: Seq<char>| #[trigger] self@.contains_key(k) implies self@[k] != value by {
                let j = key_index(self.entries@, k);
                assert(self.entries@[j].1 != value);
            }
        }
        false
    }
}

/// A value that expires at a time, in nanoseconds.
pub trait Expiring: Sized {
    spec fn expiry(self) -> u64;

    fn expires_at(&self) -> (r: u64)
        ensures
            r == self.expiry(),
    ;
}

/// The entries of a map that have not expired.
pub open spec fn unexpired<V: Expiring>(m: Map<Seq<char>, V>, now: u64) -> Map<Seq<char>, V> {
    Map::new(|k: Seq<char>| m.contains_key(k) && m[k].expiry() > now, |k: Seq<char>| m[k])
}

impl<V: Expiring> StringMap<V> {
    /// Takes what has expired out of the map.
    pub fn drop_expired(&mut self, now: u64)
        ensures
            final(self)@ == unexpired(old(self)@, now),
    {
        proof {
            use_type_invariant(&*self);
        }
        let mut entries: Vec<(String, V)> = Vec::new();
        std::mem::swap(&mut entries, &mut self.entries);
        let ghost given = entries@;
        let mut kept: StringMap<V> = StringMap::new();
        assert(unexpired(map_of(given.take(0)), now) =~= Map::<Seq<char>, V>::empty());
        for e in it: entries
            invariant
                it.seq() == given,
                distinct(given),
                kept@ == unexpired(map_of(given.take(it.index() as int)), now),
        {
            proof {
                let n = it.index() as int;
                let s = given.take(n);
                assert(given.take(n + 1) =~= s.push(e));
                assert forall|i: int| 0 <= i < s.len() implies (#[trigger] s[i]).0@ != e.0@ by {
                    assert(given[i].0@ != given[n].0@);
                }
                map_after_push(s, e.0, e.1);
                let m = map_of(s);
                assert(e.1.expiry() > now ==> unexpired(m.insert(e.0@, e.1), now) =~= unexpired(m, now).insert(
                    e.0@,
                    e.1,
                ));
                assert(e.1.expiry() <= now ==> unexpired(m.insert(e.0@, e.1), now) =~= unexpired(m, now));
            }
            if e.1.expires_at() > now {
                kept.insert(&e.0, e.1);
            }
        }
        assert(given.take(given.len() as int) =~= given);
        *self = kept;
    }
}

} // verus!
