//! A string-to-string environment map, as used for variable
//! interpolation and `.env` files.
use vstd::prelude::*;

verus! {

/// Environment variables: each name bound to one value.
pub struct EnvMap {
    entries: Vec<(String, String)>,
}

/// No name is bound twice.
pub open spec fn keys_unique(s: Seq<(String, String)>) -> bool {
    forall|i: int, j: int| 0 <= i < j < s.len() ==> s[i].0@ != s[j].0@
}

/// The map that a list of bindings denotes.
pub open spec fn entries_map(s: Seq<(String, String)>) -> Map<Seq<char>, Seq<char>>
    decreases s.len(),
{
    if s.len() == 0 {
        Map::empty()
    } else {
        entries_map(s.drop_last()).insert(s.last().0@, s.last().1@)
    }
}

proof fn lemma_entries_map_lookup(s: Seq<(String, String)>, k: Seq<char>)
    requires
        keys_unique(s),
    ensures
        entries_map(s).contains_key(k) <==> exists|i: int| 0 <= i < s.len() && s[i].0@ == k,
        forall|i: int| 0 <= i < s.len() && s[i].0@ == k ==> entries_map(s)[k] == s[i].1@,
    decreases s.len(),
{
    if s.len() > 0 {
        let t = s.drop_last();
        assert(keys_unique(t));
        lemma_entries_map_lookup(t, k);
        if entries_map(s).contains_key(k) && s.last().0@ != k {
            let i = choose|i: int| 0 <= i < t.len() && t[i].0@ == k;
            assert(s[i] == t[i]);
        }
        if exists|i: int| 0 <= i < s.len() && s[i].0@ == k {
            let i = choose|i: int| 0 <= i < s.len() && s[i].0@ == k;
            if i < s.len() - 1 {
                assert(t[i] == s[i]);
            }
        }
        assert forall|i: int| 0 <= i < s.len() && s[i].0@ == k implies entries_map(s)[k]
            == s[i].1@ by {
            if i < s.len() - 1 {
                assert(t[i] == s[i]);
                assert(s.last().0@ != k);
            }
        }
    }
}

proof fn lemma_entries_map_update(s: Seq<(String, String)>, i: int, e: (String, String))
    requires
        keys_unique(s),
        0 <= i < s.len(),
        s[i].0@ == e.0@,
    ensures
        keys_unique(s.update(i, e)),
        entries_map(s.update(i, e)) == entries_map(s).insert(e.0@, e.1@),
    decreases s.len(),
{
    let u = s.update(i, e);
    assert forall|a: int, b: int| 0 <= a < b < u.len() implies u[a].0@ != u[b].0@ by {
        assert(s[a].0@ != s[b].0@);
    }
    if i == s.len() - 1 {
        assert(u.drop_last() =~= s.drop_last());
        assert(entries_map(u) =~= entries_map(s).insert(e.0@, e.1@));
    } else {
        let t = s.drop_last();
        assert(keys_unique(t));
        lemma_entries_map_update(t, i, e);
        assert(u.drop_last() =~= t.update(i, e));
        assert(s.last().0@ != e.0@);
        assert(entries_map(u) =~= entries_map(s).insert(e.0@, e.1@));
    }
}

impl View for EnvMap {
    type V = Map<Seq<char>, Seq<char>>;

    closed spec fn view(&self) -> Map<Seq<char>, Seq<char>> {
        entries_map(self.entries@)
    }
}

impl EnvMap {
    /// Bindings are unique by name.
    pub closed spec fn wf(&self) -> bool {
        keys_unique(self.entries@)
    }

    /// The empty environment.
    pub fn new() -> (r: EnvMap)
        ensures
            r.wf(),
            r@ == Map::<Seq<char>, Seq<char>>::empty(),
    {
        EnvMap { entries: Vec::new() }
    }

    /// Binds `key` to `value`, replacing an earlier binding of `key`.
    pub fn insert(&mut self, key: String, value: String)
        requires
            old(self).wf(),
        ensures
            final(self).wf(),
            final(self)@ == old(self)@.insert(key@, value@),
    {
        let mut i: usize = 0;
        while i < self.entries.len()
            invariant
                i <= self.entries.len(),
                keys_unique(self.entries@),
                self.entries@ == old(self).entries@,
                forall|j: int| 0 <= j < i ==> self.entries@[j].0@ != key@,
            decreases self.entries.len() - i,
        {
            if self.entries[i].0 == key {
                proof {
                    lemma_entries_map_update(self.entries@, i as int, (key, value));
                }
                self.entries.set(i, (key, value));
                return;
            }
            i = i + 1;
        }
        let ghost before = self.entries@;
        let ghost kv = key@;
        let ghost vv = value@;
        self.entries.push((key, value));
        proof {
            assert(self.entries@.drop_last() =~= before);
            assert(self.entries@.last().0@ == kv);
            assert(self.entries@.last().1@ == vv);
            assert(entries_map(self.entries@) =~= entries_map(before).insert(kv, vv));
            assert forall|a: int, b: int| 0 <= a < b < self.entries@.len() implies self.entries@[a].0@
                != self.entries@[b].0@ by {
                if b < before.len() {
                    assert(before[a].0@ != before[b].0@);
                }
            }
        }
    }

    /// The value bound to `key`, if any.
    pub fn get(&self, key: &str) -> (r: Option<String>)
        requires
            self.wf(),
        ensures
            match r {
                Some(v) => self@.contains_key(key@) && self@[key@] == v@,
                None => !self@.contains_key(key@),
            },
    {
        let k = key.to_owned();
        let mut i: usize = 0;
        while i < self.entries.len()
            invariant
                i <= self.entries.len(),
                k@ == key@,
                keys_unique(self.entries@),
                forall|j: int| 0 <= j < i ==> self.entries@[j].0@ != key@,
            decreases self.entries.len() - i,
        {
            if self.entries[i].0 == k {
                proof {
                    lemma_entries_map_lookup(self.entries@, key@);
                }
                return Some(self.entries[i].1.clone());
            }
            i = i + 1;
        }
        proof {
            lemma_entries_map_lookup(self.entries@, key@);
        }
        None
    }

    /// Binds every name of `other` that is not bound here yet
    /// (`entry(k).or_insert(v)` for each binding of `other`).
    pub fn merge_missing(&mut self, other: &EnvMap)
        requires
            old(self).wf(),
            other.wf(),
        ensures
            final(self).wf(),
            final(self)@ == other@.union_prefer_right(old(self)@),
    {
        self.merge(other, false);
    }

    /// Binds every name of `other` to its value there, replacing what was
    /// bound here (`insert` for each binding of `other`).
    pub fn merge_over(&mut self, other: &EnvMap)
        requires
            old(self).wf(),
            other.wf(),
        ensures
            final(self).wf(),
            final(self)@ == old(self)@.union_prefer_right(other@),
    {
        self.merge(other, true);
    }

    fn merge(&mut self, other: &EnvMap, replace: bool)
        requires
            old(self).wf(),
            other.wf(),
        ensures
            final(self).wf(),
            final(self)@ == if replace {
                old(self)@.union_prefer_right(other@)
            } else {
                other@.union_prefer_right(old(self)@)
            },
    {
        let ghost base = self@;
        let mut i: usize = 0;
        while i < other.entries.len()
            invariant
                i <= other.entries.len(),
                self.wf(),
                keys_unique(other.entries@),
                self@ == if replace {
                    base.union_prefer_right(entries_map(other.entries@.take(i as int)))
                } else {
                    entries_map(other.entries@.take(i as int)).union_prefer_right(base)
                },
            decreases other.entries.len() - i,
        {
            let ghost e0 = entries_map(other.entries@.take(i as int));
            let k = other.entries[i].0.clone();
            let v = other.entries[i].1.clone();
            proof {
                let t = other.entries@.take(i + 1);
                assert(t.drop_last() =~= other.entries@.take(i as int));
                assert(t.last() == other.entries@[i as int]);
                assert(keys_unique(other.entries@.take(i as int)));
                lemma_entries_map_lookup(other.entries@.take(i as int), k@);
                assert forall|j: int| 0 <= j < i implies other.entries@.take(i as int)[j].0@ != k@ by {
                    assert(other.entries@[j].0@ != other.entries@[i as int].0@);
                }
                assert(!e0.contains_key(k@));
            }
            if replace {
                self.insert(k, v);
                proof {
                    assert(self@ =~= base.union_prefer_right(entries_map(other.entries@.take(i + 1))));
                }
            } else {
                let present = self.get(k.as_str()).is_some();
                if !present {
                    self.insert(k, v);
                }
                proof {
                    assert(self@ =~= entries_map(other.entries@.take(i + 1)).union_prefer_right(base));
                }
            }
            i = i + 1;
        }
        assert(other.entries@.take(i as int) =~= other.entries@);
    }

    /// The number of bound names.
    pub fn len(&self) -> (r: usize)
        requires
            self.wf(),
        ensures
            r == self@.len(),
    {
        proof {
            lemma_entries_map_len(self.entries@);
        }
        self.entries.len()
    }
}

proof fn lemma_entries_map_len(s: Seq<(String, String)>)
    requires
        keys_unique(s),
    ensures
        entries_map(s).dom().finite(),
        entries_map(s).len() == s.len(),
    decreases s.len(),
{
    if s.len() > 0 {
        let t = s.drop_last();
        assert(keys_unique(t));
        lemma_entries_map_len(t);
        lemma_entries_map_lookup(t, s.last().0@);
        if entries_map(t).contains_key(s.last().0@) {
            let i = choose|i: int| 0 <= i < t.len() && t[i].0@ == s.last().0@;
            assert(s[i] == t[i]);
        }
    }
}

} // verus!
