//! The cache of ticker data kept between quote requests, keyed by ticker name.
use vstd::prelude::*;

verus! {

/// The data cached for one ticker.
struct CacheEntry<V> {
    name: String,
    data: Vec<V>,
}

/// A cache from ticker names to the results last fetched for them.
pub struct WatchListMap<V> {
    entries: Vec<CacheEntry<V>>,
}

/// Some entry of `s` is named `name`.
spec fn names_entry<V>(s: Seq<CacheEntry<V>>, name: Seq<char>) -> bool {
    exists|i: int| 0 <= i < s.len() && (#[trigger] s[i]).name@ == name
}

/// No two entries of `s` share a name.
spec fn unique_names<V>(s: Seq<CacheEntry<V>>) -> bool {
    forall|i: int, j: int|
        0 <= i < s.len() && 0 <= j < s.len() && i != j ==> (#[trigger] s[i]).name@ != (
        #[trigger] s[j]).name@
}

/// The map a list of entries stands for.
spec fn entry_map<V>(s: Seq<CacheEntry<V>>) -> Map<Seq<char>, Seq<V>> {
    Map::new(
        |name: Seq<char>| names_entry(s, name),
        |name: Seq<char>|
            s[choose|i: int| 0 <= i < s.len() && (#[trigger] s[i]).name@ == name].data@,
    )
}

proof fn lemma_entry_map_at<V>(s: Seq<CacheEntry<V>>, i: int)
    requires
        unique_names(s),
        0 <= i < s.len(),
    ensures
        entry_map(s).contains_key(s[i].name@),
        entry_map(s)[s[i].name@] == s[i].data@,
{
    let name = s[i].name@;
    assert(names_entry(s, name));
    let j = choose|j: int| 0 <= j < s.len() && (#[trigger] s[j]).name@ == name;
    if j != i {
        assert(s[i].name@ != s[j].name@);
    }
}

impl<V> View for WatchListMap<V> {
    type V = Map<Seq<char>, Seq<V>>;

    closed spec fn view(&self) -> Map<Seq<char>, Seq<V>> {
        entry_map(self.entries@)
    }
}

impl<V> WatchListMap<V> {
    /// No name is cached twice.
    pub closed spec fn wf(&self) -> bool {
        unique_names(self.entries@)
    }

    /// An empty cache.
    pub fn new() -> (m: Self)
        ensures
            m.wf(),
            m@ == Map::<Seq<char>, Seq<V>>::empty(),
    {
        let m = WatchListMap { entries: Vec::new() };
        assert(m@ =~= Map::<Seq<char>, Seq<V>>::empty());
        m
    }

    fn find(&self, name: &str) -> (r: Option<usize>)
        requires
            self.wf(),
        ensures
            match r {
                Some(i) => i < self.entries@.len() && self.entries@[i as int].name@ == name@,
                None => !names_entry(self.entries@, name@),
            },
    {
        let key = String::from_str(name);
        let mut i: usize = 0;
        while i < self.entries.len()
            invariant
                i <= self.entries.len(),
                key@ == name@,
                forall|k: int| 0 <= k < i ==> self.entries@[k].name@ != name@,
            decreases self.entries.len() - i,
        {
            if self.entries[i].name == key {
                return Some(i);
            }
            i = i + 1;
        }
        None
    }

    /// Whether results are cached for `name`.
    pub fn contains_key(&self, name: &str) -> (r: bool)
        requires
            self.wf(),
        ensures
            r == self@.contains_key(name@),
    {
        self.find(name).is_some()
    }

    /// The results cached for `name`, if any.
    pub fn get_cache(&self, name: &str) -> (r: Option<&Vec<V>>)
        requires
            self.wf(),
        ensures
            match r {
                Some(v) => self@.contains_key(name@) && v@ == self@[name@],
                None => !self@.contains_key(name@),
            },
    {
        match self.find(name) {
            Some(i) => {
                proof {
                    lemma_entry_map_at(self.entries@, i as int);
                }
                Some(&self.entries[i].data)
            },
            None => None,
        }
    }

    fn remove_at(&mut self, i: usize)
        requires
            old(self).wf(),
            i < old(self).entries@.len(),
        ensures
            final(self).wf(),
            final(self)@ == old(self)@.remove(old(self).entries@[i as int].name@),
    {
        let ghost s = self.entries@;
        let ghost name = s[i as int].name@;
        let _ = self.entries.remove(i);
        let ghost t = self.entries@;
        proof {
            assert(t =~= s.subrange(0, i as int) + s.subrange(i + 1, s.len() as int));
            assert forall|a: int| 0 <= a < t.len() implies #[trigger] t[a] == s[if a < i {
                a
            } else {
                a + 1
            }] by {}
            assert forall|a: int, b: int|
                0 <= a < t.len() && 0 <= b < t.len() && a != b implies (#[trigger] t[a]).name@
                != (#[trigger] t[b]).name@ by {
                let a2 = if a < i {
                    a
                } else {
                    a + 1
                };
                let b2 = if b < i {
                    b
                } else {
                    b + 1
                };
                assert(t[a] == s[a2] && t[b] == s[b2]);
            }
            assert forall|k: Seq<char>| #[trigger]
                entry_map(t).contains_key(k) == entry_map(s).remove(name).contains_key(k) by {
                if names_entry(t, k) {
                    let a = choose|a: int| 0 <= a < t.len() && (#[trigger] t[a]).name@ == k;
                    let a2 = if a < i {
                        a
                    } else {
                        a + 1
                    };
                    assert(t[a] == s[a2]);
                    assert(s[a2].name@ != s[i as int].name@);
                }
                if names_entry(s, k) && k != name {
                    let a = choose|a: int| 0 <= a < s.len() && (#[trigger] s[a]).name@ == k;
                    assert(a != i);
                    let a1 = if a < i {
                        a
                    } else {
                        a - 1
                    };
                    assert(t[a1] == s[a]);
                }
            }
            assert forall|k: Seq<char>| #[trigger]
                entry_map(t).contains_key(k) implies entry_map(t)[k] == entry_map(s)[k] by {
                let a = choose|a: int| 0 <= a < t.len() && (#[trigger] t[a]).name@ == k;
                let a2 = if a < i {
                    a
                } else {
                    a + 1
                };
                assert(t[a] == s[a2]);
                lemma_entry_map_at(t, a);
                lemma_entry_map_at(s, a2);
            }
            assert(entry_map(t) =~= entry_map(s).remove(name));
        }
    }

    /// Caches `data` for `name`, replacing what was cached for it.
    pub fn cache_val(&mut self, name: String, data: Vec<V>)
        requires
            old(self).wf(),
        ensures
            final(self).wf(),
            final(self)@ == old(self)@.insert(name@, data@),
    {
        let ghost k = name@;
        let ghost d = data@;
        let ghost start = self@;
        match self.find(name.as_str()) {
            Some(i) => {
                self.remove_at(i);
            },
            None => {
                assert(entry_map(self.entries@).remove(k) =~= entry_map(self.entries@));
            },
        }
        assert(!entry_map(self.entries@).contains_key(k));
        assert(!names_entry(self.entries@, k));
        let ghost s = self.entries@;
        self.entries.push(CacheEntry { name, data });
        proof {
            let t = self.entries@;
            assert forall|a: int, b: int|
                0 <= a < t.len() && 0 <= b < t.len() && a != b implies (#[trigger] t[a]).name@
                != (#[trigger] t[b]).name@ by {
                if a < s.len() && b < s.len() {
                    assert(t[a] == s[a] && t[b] == s[b]);
                } else if a < s.len() {
                    assert(t[a] == s[a]);
                    assert(names_entry(s, t[a].name@));
                } else {
                    assert(t[b] == s[b]);
                    assert(names_entry(s, t[b].name@));
                }
            }
            assert forall|key: Seq<char>| #[trigger]
                entry_map(t).contains_key(key) == start.remove(k).insert(k, d).contains_key(
                    key,
                ) by {
                if names_entry(t, key) {
                    let a = choose|a: int| 0 <= a < t.len() && (#[trigger] t[a]).name@ == key;
                    if a < s.len() {
                        assert(t[a] == s[a]);
                    }
                }
                if names_entry(s, key) {
                    let a = choose|a: int| 0 <= a < s.len() && (#[trigger] s[a]).name@ == key;
                    assert(t[a] == s[a]);
                }
                if key == k {
                    assert(t[s.len() as int].name@ == k);
                }
            }
            assert forall|key: Seq<char>| #[trigger]
                entry_map(t).contains_key(key) implies entry_map(t)[key] == start.remove(
                k,
            ).insert(k, d)[key] by {
                let a = choose|a: int| 0 <= a < t.len() && (#[trigger] t[a]).name@ == key;
                lemma_entry_map_at(t, a);
                if a < s.len() {
                    assert(t[a] == s[a]);
                    lemma_entry_map_at(s, a);
                }
            }
            assert(entry_map(t) =~= start.remove(k).insert(k, d));
            assert(start.remove(k).insert(k, d) =~= start.insert(k, d));
        }
    }

    /// Forgets what is cached for `name`.
    pub fn clear_cache_value(&mut self, name: &str)
        requires
            old(self).wf(),
        ensures
            final(self).wf(),
            final(self)@ == old(self)@.remove(name@),
    {
        match self.find(name) {
            Some(i) => {
                self.remove_at(i);
            },
            None => {
                assert(entry_map(self.entries@).remove(name@) =~= entry_map(self.entries@));
            },
        }
    }
}

/// What is read back for `name` right after caching `data` under it is `data`, and every
/// other name reads back as before.
pub proof fn lemma_cache_read_after_write<V>(
    before: Map<Seq<char>, Seq<V>>,
    after: Map<Seq<char>, Seq<V>>,
    name: Seq<char>,
    data: Seq<V>,
)
    requires
        after == before.insert(name, data),
    ensures
        after.contains_key(name) && after[name] == data,
        forall|other: Seq<char>|
            other != name ==> (#[trigger] after.contains_key(other) == before.contains_key(other)
                && (before.contains_key(other) ==> after[other] == before[other])),
{
}

/// After forgetting `name` nothing is cached for it, and every other name reads back as
/// before.
pub proof fn lemma_cache_cleared<V>(
    before: Map<Seq<char>, Seq<V>>,
    after: Map<Seq<char>, Seq<V>>,
    name: Seq<char>,
)
    requires
        after == before.remove(name),
    ensures
        !after.contains_key(name),
        forall|other: Seq<char>|
            other != name ==> (#[trigger] after.contains_key(other) == before.contains_key(other)
                && (before.contains_key(other) ==> after[other] == before[other])),
{
}

} // verus!
