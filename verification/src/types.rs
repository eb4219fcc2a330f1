//! The compose-spec data model, as plain values.
//!
//! A compose document arrives as YAML or JSON; the values that the
//! orchestration logic reads are held here. Maps keep the order in which
//! their keys were first written, as the document lists them.
use vstd::prelude::*;
use indexmap::IndexMap;
use crate::env::EnvMap;
use crate::text::{chars_of, find, matches_at, string_from_chars, sub_chars};

verus! {

// ============ Copies of strings ============

/// A copy of `o`.
pub fn copy_opt_string(o: &Option<String>) -> (r: Option<String>)
    ensures
        opt_view(r) == opt_view(*o),
{
    match o {
        Some(s) => Some(s.clone()),
        None => None,
    }
}

/// A copy of `v`.
pub fn copy_strings(v: &Vec<String>) -> (r: Vec<String>)
    ensures
        views(r@) == views(v@),
{
    let mut out: Vec<String> = Vec::new();
    let mut i: usize = 0;
    while i < v.len()
        invariant
            i <= v.len(),
            out.len() == i,
            forall|j: int| 0 <= j < i ==> out@[j]@ == v@[j]@,
        decreases v.len() - i,
    {
        out.push(v[i].clone());
        i = i + 1;
    }
    assert(views(out@) =~= views(v@));
    out
}

/// The character sequences of a list of strings.
pub open spec fn views(v: Seq<String>) -> Seq<Seq<char>> {
    v.map_values(|s: String| s@)
}

/// The character sequence of an optional string.
pub open spec fn opt_view(o: Option<String>) -> Option<Seq<char>> {
    match o {
        Some(s) => Some(s@),
        None => None,
    }
}

// ============ Name indexes ============

#[verifier::external_type_specification]
#[verifier::external_body]
#[verifier::reject_recursive_types(K)]
#[verifier::reject_recursive_types(V)]
#[verifier::reject_recursive_types(S)]
pub struct ExIndexMap<K, V, S>(IndexMap<K, V, S>);

/// The entries of an `IndexMap` from names to positions, in the map's
/// order.
pub uninterp spec fn index_entries(m: IndexMap<String, usize>) -> Seq<(Seq<char>, usize)>;

/// The position of the entry named `k` among index entries.
pub open spec fn index_position(e: Seq<(Seq<char>, usize)>, k: Seq<char>) -> Option<int>
    decreases e.len(),
{
    if e.len() == 0 {
        None
    } else if e.last().0 == k {
        Some(e.len() - 1)
    } else {
        index_position(e.drop_last(), k)
    }
}

proof fn lemma_index_position_none(e: Seq<(Seq<char>, usize)>, k: Seq<char>)
    requires
        forall|i: int| 0 <= i < e.len() ==> (#[trigger] e[i]).0 != k,
    ensures
        index_position(e, k) is None,
    decreases e.len(),
{
    if e.len() > 0 {
        assert(e.drop_last().len() < e.len());
        assert forall|i: int| 0 <= i < e.drop_last().len() implies (#[trigger] e.drop_last()[i]).0 != k by {
            assert(e.drop_last()[i] == e[i]);
        }
        lemma_index_position_none(e.drop_last(), k);
    }
}

/// An empty index (`IndexMap::new`).
#[verifier::external_body]
fn index_new() -> (r: IndexMap<String, usize>)
    ensures
        index_entries(r) == Seq::<(Seq<char>, usize)>::empty(),
{
    IndexMap::new()
}

/// The position stored under `k` (`IndexMap::get`): the value of the
/// entry named `k`, if there is one.
#[verifier::external_body]
fn index_get(m: &IndexMap<String, usize>, k: &String) -> (r: Option<usize>)
    ensures
        match r {
            Some(v) => exists|i: int|
                0 <= i < index_entries(*m).len() && #[trigger] index_entries(*m)[i] == (k@, v),
            None => forall|i: int| 0 <= i < index_entries(*m).len() ==> (#[trigger] index_entries(*m)[i]).0 != k@,
        },
{
    m.get(k).copied()
}

/// Stores `v` under `k` (`IndexMap::insert`): an entry named `k` keeps its
/// place and takes the new value; otherwise the entry goes last.
#[verifier::external_body]
fn index_insert(m: &mut IndexMap<String, usize>, k: String, v: usize)
    ensures
        index_entries(*final(m)) == match index_position(index_entries(*old(m)), k@) {
            Some(i) => index_entries(*old(m)).update(i, (k@, v)),
            None => index_entries(*old(m)).push((k@, v)),
        },
{
    m.insert(k, v);
}

// ============ Ordered maps ============

/// A map from names to values that remembers the order in which names were
/// first written (the order of a compose document's keys), with an index
/// from each name to its position.
pub struct OrderedMap<V> {
    /// Each name's position in `entries`.
    pub index: IndexMap<String, usize>,
    pub entries: Vec<(String, V)>,
}

/// The names of a list of entries, in order.
pub open spec fn entry_keys<V>(e: Seq<(String, V)>) -> Seq<Seq<char>> {
    e.map_values(|p: (String, V)| p.0@)
}

/// No name occurs twice.
pub open spec fn unique_keys<V>(e: Seq<(String, V)>) -> bool {
    forall|i: int, j: int| 0 <= i < j < e.len() ==> e[i].0@ != e[j].0@
}

/// The position of the entry named `k`.
pub open spec fn key_index<V>(e: Seq<(String, V)>, k: Seq<char>) -> Option<int>
    decreases e.len(),
{
    if e.len() == 0 {
        None
    } else if e.last().0@ == k {
        Some(e.len() - 1)
    } else {
        key_index(e.drop_last(), k)
    }
}

/// The entries after writing `v` under `k`: an existing entry keeps its
/// place and takes the new value; otherwise the entry goes last.
pub open spec fn inserted<V>(e: Seq<(String, V)>, k: String, v: V) -> Seq<(String, V)> {
    match key_index(e, k@) {
        Some(i) => e.update(i, (e[i].0, v)),
        None => e.push((k, v)),
    }
}

/// The entries after writing each entry of `o` in turn.
pub open spec fn inserted_all<V>(e: Seq<(String, V)>, o: Seq<(String, V)>) -> Seq<(String, V)>
    decreases o.len(),
{
    if o.len() == 0 {
        e
    } else {
        inserted_all(inserted(e, o[0].0, o[0].1), o.drop_first())
    }
}

/// The value stored under `k`.
pub open spec fn lookup_entry<V>(e: Seq<(String, V)>, k: Seq<char>) -> Option<V> {
    match key_index(e, k) {
        Some(i) => Some(e[i].1),
        None => None,
    }
}

pub proof fn lemma_key_index<V>(e: Seq<(String, V)>, k: Seq<char>)
    ensures
        match key_index(e, k) {
            Some(i) => 0 <= i < e.len() && e[i].0@ == k && forall|j: int|
                i < j < e.len() ==> e[j].0@ != k,
            None => forall|j: int| 0 <= j < e.len() ==> e[j].0@ != k,
        },
    decreases e.len(),
{
    if e.len() > 0 && e.last().0@ != k {
        lemma_key_index(e.drop_last(), k);
        if let Some(i) = key_index(e.drop_last(), k) {
            assert(e[i] == e.drop_last()[i]);
        }
        assert forall|j: int| 0 <= j < e.len() - 1 implies e[j] == e.drop_last()[j] by {}
    }
}

/// In a list without repeated names, the entry named `k` is the one at
/// any position holding that name.
pub proof fn lemma_key_index_unique<V>(e: Seq<(String, V)>, k: Seq<char>, i: int)
    requires
        unique_keys(e),
        0 <= i < e.len(),
        e[i].0@ == k,
    ensures
        key_index(e, k) == Some(i),
{
    lemma_key_index(e, k);
    if let Some(j) = key_index(e, k) {
        if j < i {
            assert(e[j].0@ != e[i].0@);
        }
    }
}

pub proof fn lemma_inserted<V>(e: Seq<(String, V)>, k: String, v: V)
    requires
        unique_keys(e),
    ensures
        unique_keys(inserted(e, k, v)),
        lookup_entry(inserted(e, k, v), k@) == Some(v),
        forall|q: Seq<char>| q != k@ ==> lookup_entry(inserted(e, k, v), q) == lookup_entry(e, q),
        key_index(e, k@) is Some ==> entry_keys(inserted(e, k, v)) == entry_keys(e),
        key_index(e, k@) is None ==> entry_keys(inserted(e, k, v)) == entry_keys(e).push(k@),
{
    lemma_key_index(e, k@);
    let r = inserted(e, k, v);
    match key_index(e, k@) {
        Some(i) => {
            assert forall|a: int, b: int| 0 <= a < b < r.len() implies r[a].0@ != r[b].0@ by {
                assert(e[a].0@ != e[b].0@);
            }
            lemma_key_index_unique(r, k@, i);
            assert forall|q: Seq<char>| q != k@ implies lookup_entry(r, q) == lookup_entry(e, q) by {
                lemma_key_index(e, q);
                lemma_key_index(r, q);
                if let Some(j) = key_index(e, q) {
                    lemma_key_index_unique(r, q, j);
                }
                if let Some(j) = key_index(r, q) {
                    lemma_key_index_unique(e, q, j);
                }
            }
            assert(entry_keys(r) =~= entry_keys(e));
        },
        None => {
            assert forall|a: int, b: int| 0 <= a < b < r.len() implies r[a].0@ != r[b].0@ by {
                if b < e.len() {
                    assert(e[a].0@ != e[b].0@);
                }
            }
            lemma_key_index_unique(r, k@, e.len() as int);
            assert forall|q: Seq<char>| q != k@ implies lookup_entry(r, q) == lookup_entry(e, q) by {
                lemma_key_index(e, q);
                lemma_key_index(r, q);
                if let Some(j) = key_index(e, q) {
                    lemma_key_index_unique(r, q, j);
                }
                if let Some(j) = key_index(r, q) {
                    assert(j < e.len());
                    lemma_key_index_unique(e, q, j);
                }
            }
            assert(entry_keys(r) =~= entry_keys(e).push(k@));
        },
    }
}

impl<V> OrderedMap<V> {
    /// Names are not repeated, and the index gives each name's position.
    pub open spec fn wf(&self) -> bool {
        &&& unique_keys(self.entries@)
        &&& self.indexed()
    }

    /// The index holds each entry's name with its position, in order.
    pub open spec fn indexed(&self) -> bool {
        &&& index_entries(self.index).len() == self.entries@.len()
        &&& forall|i: int|
            0 <= i < self.entries@.len() ==> #[trigger] index_entries(self.index)[i] == (
                self.entries@[i].0@,
                i as usize,
            )
    }

    /// The names, in order.
    pub open spec fn keys(&self) -> Seq<Seq<char>> {
        entry_keys(self.entries@)
    }

    /// The value stored under `k`.
    pub open spec fn lookup(&self, k: Seq<char>) -> Option<V> {
        lookup_entry(self.entries@, k)
    }

    /// The empty map.
    pub fn new() -> (r: Self)
        ensures
            r.wf(),
            r.entries@.len() == 0,
    {
        OrderedMap { index: index_new(), entries: Vec::new() }
    }

    /// The position of the entry named `k`.
    pub fn index_of(&self, k: &String) -> (r: Option<usize>)
        requires
            self.wf(),
        ensures
            match r {
                Some(i) => key_index(self.entries@, k@) == Some(i as int),
                None => key_index(self.entries@, k@) is None,
            },
    {
        proof {
            lemma_key_index(self.entries@, k@);
        }
        let found = index_get(&self.index, k);
        proof {
            let e = index_entries(self.index);
            match found {
                Some(v) => {
                    let i = choose|i: int| 0 <= i < e.len() && #[trigger] e[i] == (k@, v);
                    assert(e[i] == (self.entries@[i].0@, i as usize));
                    assert(i < self.entries.len());
                    assert(v as int == i);
                    lemma_key_index_unique(self.entries@, k@, i);
                },
                None => {
                    assert forall|j: int| 0 <= j < self.entries@.len() implies self.entries@[j].0@ != k@ by {
                        assert(e[j] == (self.entries@[j].0@, j as usize));
                    }
                },
            }
        }
        found
    }

    /// Whether an entry is named `k`.
    pub fn contains_key(&self, k: &String) -> (r: bool)
        requires
            self.wf(),
        ensures
            r == (key_index(self.entries@, k@) is Some),
    {
        self.index_of(k).is_some()
    }

    /// Writes `v` under `k` (`IndexMap::insert`): an existing entry keeps
    /// its place and takes the new value; otherwise the entry goes last.
    pub fn insert(&mut self, k: String, v: V)
        requires
            old(self).wf(),
        ensures
            final(self).wf(),
            final(self).entries@ == inserted(old(self).entries@, k, v),
    {
        proof {
            lemma_key_index(self.entries@, k@);
            lemma_inserted(self.entries@, k, v);
        }
        match self.index_of(&k) {
            Some(i) => {
                let mut tmp: Vec<(String, V)> = Vec::new();
                std::mem::swap(&mut tmp, &mut self.entries);
                let ghost before = tmp@;
                let (old_key, _old_val) = tmp.remove(i);
                tmp.insert(i, (old_key, v));
                assert(tmp@ =~= before.update(i as int, (before[i as int].0, v)));
                self.entries = tmp;
                proof {
                    assert forall|j: int| 0 <= j < self.entries@.len() implies #[trigger] index_entries(
                        self.index,
                    )[j] == (self.entries@[j].0@, j as usize) by {
                        assert(index_entries(self.index)[j] == (before[j].0@, j as usize));
                    }
                }
            },
            None => {
                let ghost e0 = index_entries(self.index);
                let ghost before = self.entries@;
                let n = self.entries.len();
                proof {
                    lemma_index_position_none(e0, k@);
                }
                index_insert(&mut self.index, k.clone(), n);
                self.entries.push((k, v));
                proof {
                    assert(index_entries(self.index) == e0.push((k@, n)));
                    assert forall|j: int| 0 <= j < self.entries@.len() implies #[trigger] index_entries(
                        self.index,
                    )[j] == (self.entries@[j].0@, j as usize) by {
                        if j < n {
                            assert(e0[j] == (before[j].0@, j as usize));
                        }
                    }
                }
            },
        }
    }

    /// Writes every entry of `other`, in its order (last writer wins).
    pub fn insert_all(&mut self, other: OrderedMap<V>)
        requires
            old(self).wf(),
        ensures
            final(self).wf(),
            final(self).entries@ == inserted_all(old(self).entries@, other.entries@),
    {
        let mut rest = other.entries;
        let ghost o = other.entries@;
        assert(rest@ =~= o.skip(0));
        let ghost mut done: int = 0;
        while rest.len() > 0
            invariant
                0 <= done <= o.len(),
                self.wf(),
                rest@ =~= o.skip(done),
                inserted_all(self.entries@, o.skip(done)) == inserted_all(
                    old(self).entries@,
                    o,
                ),
            decreases rest.len(),
        {
            let ghost pre = self.entries@;
            let (k, v) = rest.remove(0);
            proof {
                assert(o.skip(done)[0] == o[done]);
                assert(o.skip(done).drop_first() =~= o.skip(done + 1));
            }
            self.insert(k, v);
            proof {
                done = done + 1;
                assert(rest@ =~= o.skip(done));
            }
        }
        assert(o.skip(done) =~= Seq::<(String, V)>::empty());
    }
}

// ============ YAML values ============

/// The shape of a YAML scalar or collection.
pub enum YamlKind {
    Null,
    Bool(bool),
    /// A number, held as the text it prints as.
    Number(String),
    String(String),
    Sequence(Vec<YamlValue>),
    Mapping,
    Tagged,
}

/// A YAML value, with the two renderings of it that the logic reads:
/// `text`, its YAML form with surrounding whitespace trimmed, and `debug`,
/// its `{:?}` form.
pub struct YamlValue {
    pub kind: YamlKind,
    pub text: String,
    pub debug: String,
}

/// The string form of a YAML value: a string as itself, a number or bool as
/// it prints, null as empty, anything else as its YAML text.
pub open spec fn yaml_str(v: YamlValue) -> Seq<char> {
    match v.kind {
        YamlKind::String(s) => s@,
        YamlKind::Number(n) => n@,
        YamlKind::Bool(b) => if b {
            "true"@
        } else {
            "false"@
        },
        YamlKind::Null => Seq::empty(),
        _ => v.text@,
    }
}

/// The string form of a YAML value (`yaml_value_to_str`).
pub fn yaml_value_to_str(v: &YamlValue) -> (r: String)
    ensures
        r@ == yaml_str(*v),
{
    match &v.kind {
        YamlKind::String(s) => s.clone(),
        YamlKind::Number(n) => n.clone(),
        YamlKind::Bool(b) => if *b {
            String::from_str("true")
        } else {
            String::from_str("false")
        },
        YamlKind::Null => String::new(),
        _ => v.text.clone(),
    }
}

/// A value together with its `{:?}` rendering.
pub struct Described<T> {
    pub value: T,
    pub debug: String,
}

// ============ ListOrDict ============

/// The compose-spec `list_or_dict` pattern (environment, labels, ...).
pub enum ListOrDict {
    Dict(OrderedMap<Option<YamlValue>>),
    List(Vec<String>),
}

/// The string a dict value stands for (`None` reads as empty).
pub open spec fn dict_value_str(v: Option<YamlValue>) -> Seq<char> {
    match v {
        Some(y) => yaml_str(y),
        None => Seq::empty(),
    }
}

/// The name part of a `KEY=VALUE` list entry.
pub open spec fn entry_key(s: Seq<char>) -> Seq<char> {
    match find(s, seq!['=']) {
        Some(p) => s.take(p),
        None => s,
    }
}

/// The value part of a `KEY=VALUE` list entry (empty when there is no `=`).
pub open spec fn entry_value(s: Seq<char>) -> Seq<char> {
    match find(s, seq!['=']) {
        Some(p) => s.skip(p + 1),
        None => Seq::empty(),
    }
}

/// The flat map of a dict: each key to its value's string form.
pub open spec fn dict_map(e: Seq<(String, Option<YamlValue>)>) -> Map<Seq<char>, Seq<char>>
    decreases e.len(),
{
    if e.len() == 0 {
        Map::empty()
    } else {
        dict_map(e.drop_last()).insert(e.last().0@, dict_value_str(e.last().1))
    }
}

/// The flat map of a list: each `KEY=VALUE` entry in turn, later ones
/// winning.
pub open spec fn list_map(l: Seq<String>) -> Map<Seq<char>, Seq<char>>
    decreases l.len(),
{
    if l.len() == 0 {
        Map::empty()
    } else {
        list_map(l.drop_last()).insert(entry_key(l.last()@), entry_value(l.last()@))
    }
}

/// The flat map of a dict has exactly the dict's names as keys.
pub proof fn law_dict_map_keys(e: Seq<(String, Option<YamlValue>)>)
    ensures
        forall|k: Seq<char>| #[trigger] dict_map(e).contains_key(k) <==> entry_keys(e).contains(k),
    decreases e.len(),
{
    if e.len() > 0 {
        let p = e.drop_last();
        law_dict_map_keys(p);
        assert(entry_keys(e) =~= entry_keys(p).push(e.last().0@));
        assert(dict_map(e) == dict_map(p).insert(e.last().0@, dict_value_str(e.last().1)));
        assert forall|k: Seq<char>| #[trigger] dict_map(e).contains_key(k) <==> entry_keys(e).contains(k) by {
            assert(dict_map(p).contains_key(k) <==> entry_keys(p).contains(k));
            if entry_keys(p).contains(k) {
                let i = choose|i: int| 0 <= i < entry_keys(p).len() && entry_keys(p)[i] == k;
                assert(entry_keys(e)[i] == k);
            }
            if entry_keys(e).contains(k) && k != e.last().0@ {
                let i = choose|i: int| 0 <= i < entry_keys(e).len() && entry_keys(e)[i] == k;
                assert(i < p.len());
                assert(entry_keys(p)[i] == k);
            }
            if k == e.last().0@ {
                assert(entry_keys(e)[e.len() - 1] == k);
            }
        }
    }
}

/// The flat map of a list has exactly the names of its entries as keys.
pub proof fn law_list_map_keys(l: Seq<String>)
    ensures
        forall|k: Seq<char>| #[trigger]
            list_map(l).contains_key(k) <==> exists|i: int| 0 <= i < l.len() && entry_key(l[i]@) == k,
    decreases l.len(),
{
    if l.len() > 0 {
        let p = l.drop_last();
        law_list_map_keys(p);
        assert(list_map(l) == list_map(p).insert(entry_key(l.last()@), entry_value(l.last()@)));
        assert forall|k: Seq<char>| #[trigger]
            list_map(l).contains_key(k) <==> exists|i: int| 0 <= i < l.len() && entry_key(l[i]@) == k by {
            assert(list_map(p).contains_key(k) <==> exists|i: int| 0 <= i < p.len() && entry_key(p[i]@) == k);
            if exists|i: int| 0 <= i < p.len() && entry_key(p[i]@) == k {
                let i = choose|i: int| 0 <= i < p.len() && entry_key(p[i]@) == k;
                assert(l[i] == p[i]);
            }
            if exists|i: int| 0 <= i < l.len() && entry_key(l[i]@) == k {
                let i = choose|i: int| 0 <= i < l.len() && entry_key(l[i]@) == k;
                if i < p.len() {
                    assert(p[i] == l[i]);
                }
            }
            if k == entry_key(l.last()@) {
                assert(entry_key(l[l.len() - 1]@) == k);
            }
        }
    }
}

/// In the flat map of a list, a name has the value of the last entry
/// that names it.
pub proof fn law_list_map_last_entry_wins(l: Seq<String>, i: int)
    requires
        0 <= i < l.len(),
        forall|j: int| i < j < l.len() ==> entry_key(#[trigger] l[j]@) != entry_key(l[i]@),
    ensures
        list_map(l).contains_key(entry_key(l[i]@)),
        list_map(l)[entry_key(l[i]@)] == entry_value(l[i]@),
    decreases l.len(),
{
    if i < l.len() - 1 {
        let p = l.drop_last();
        assert forall|j: int| i < j < p.len() implies entry_key(#[trigger] p[j]@) != entry_key(p[i]@) by {
            assert(p[j] == l[j]);
        }
        law_list_map_last_entry_wins(p, i);
        assert(l[l.len() - 1] == l.last());
        assert(p[i] == l[i]);
    }
}

/// A list entry without `=` is a name with an empty value.
pub proof fn law_entry_without_equals(s: Seq<char>)
    requires
        !s.contains('='),
    ensures
        entry_key(s) == s,
        entry_value(s) == Seq::<char>::empty(),
{
    assert forall|j: int| 0 <= j implies !matches_at(s, seq!['='], j) by {
        if matches_at(s, seq!['='], j) {
            assert(s.subrange(j, j + 1)[0] == s[j]);
            assert(s[j] == '=');
        }
    }
    crate::text::lemma_find_none(s, seq!['=']);
}

impl ListOrDict {
    /// The flat map that this denotes.
    pub open spec fn map_view(&self) -> Map<Seq<char>, Seq<char>> {
        match self {
            ListOrDict::Dict(d) => dict_map(d.entries@),
            ListOrDict::List(l) => list_map(l@),
        }
    }

    /// Converts to a flat name-to-value map: dict values are stringified,
    /// list entries are split at their first `=`.
    pub fn to_map(&self) -> (r: EnvMap)
        ensures
            r.wf(),
            r@ == self.map_view(),
    {
        let mut m = EnvMap::new();
        match self {
            ListOrDict::Dict(d) => {
                let mut i: usize = 0;
                while i < d.entries.len()
                    invariant
                        i <= d.entries.len(),
                        m.wf(),
                        m@ == dict_map(d.entries@.take(i as int)),
                    decreases d.entries.len() - i,
                {
                    let val = match &d.entries[i].1 {
                        Some(y) => yaml_value_to_str(y),
                        None => String::new(),
                    };
                    m.insert(d.entries[i].0.clone(), val);
                    i = i + 1;
                    assert(d.entries@.take(i as int).drop_last() =~= d.entries@.take(i - 1));
                }
                assert(d.entries@.take(i as int) =~= d.entries@);
            },
            ListOrDict::List(l) => {
                let mut i: usize = 0;
                while i < l.len()
                    invariant
                        i <= l.len(),
                        m.wf(),
                        m@ == list_map(l@.take(i as int)),
                    decreases l.len() - i,
                {
                    let (k, v) = split_entry(&l[i]);
                    m.insert(k, v);
                    i = i + 1;
                    assert(l@.take(i as int).drop_last() =~= l@.take(i - 1));
                }
                assert(l@.take(i as int) =~= l@);
            },
        }
        m
    }
}

/// Splits `KEY=VALUE` at the first `=`.
fn split_entry(s: &String) -> (r: (String, String))
    ensures
        r.0@ == entry_key(s@),
        r.1@ == entry_value(s@),
{
    let v = chars_of(s.as_str());
    let eq: Vec<char> = vec!['='];
    assert(eq@ =~= seq!['=']);
    match crate::text::find_chars(&v, &eq) {
        Some(p) => {
            proof {
                crate::text::lemma_find_shape(v@, seq!['=']);
                assert(matches_at(v@, seq!['='], p as int));
                assert(seq!['='].len() == 1);
                assert(p < v.len());
            }
            let k = sub_chars(&v, 0, p);
            let val = sub_chars(&v, p + 1, v.len());
            assert(k@ =~= v@.take(p as int));
            assert(val@ =~= v@.skip(p + 1));
            (string_from_chars(k), string_from_chars(val))
        },
        None => (string_from_chars(v), String::new()),
    }
}

// ============ depends_on ============

/// `depends_on` condition values.
pub enum DependsOnCondition {
    ServiceStarted,
    ServiceHealthy,
    ServiceCompletedSuccessfully,
}

/// One entry of the object form of `depends_on`.
pub struct ComposeDependsOn {
    pub condition: DependsOnCondition,
    pub required: Option<bool>,
    pub restart: Option<bool>,
}

/// `depends_on`: a list of service names or a map with conditions.
pub enum DependsOnSpec {
    List(Vec<String>),
    Dict(OrderedMap<ComposeDependsOn>),
}

impl DependsOnSpec {
    /// The names depended on, in the order written.
    pub open spec fn names_view(&self) -> Seq<Seq<char>> {
        match self {
            DependsOnSpec::List(v) => views(v@),
            DependsOnSpec::Dict(m) => m.keys(),
        }
    }

    /// The names depended on, in the order written.
    pub fn service_names(&self) -> (r: Vec<String>)
        ensures
            views(r@) == self.names_view(),
    {
        match self {
            DependsOnSpec::List(v) => copy_strings(v),
            DependsOnSpec::Dict(m) => keys_of(m),
        }
    }
}

/// A dependency list and a dependency dict that name the same services,
/// in the same order, depend on the same services.
pub proof fn law_depends_on_forms_agree(names: Vec<String>, deps: OrderedMap<ComposeDependsOn>)
    requires
        deps.keys() == views(names@),
    ensures
        DependsOnSpec::List(names).names_view() == DependsOnSpec::Dict(deps).names_view(),
{
}

/// The names of `m`, in order.
pub fn keys_of<V>(m: &OrderedMap<V>) -> (r: Vec<String>)
    ensures
        views(r@) == m.keys(),
{
    let mut out: Vec<String> = Vec::new();
    let mut i: usize = 0;
    while i < m.entries.len()
        invariant
            i <= m.entries.len(),
            out.len() == i,
            forall|j: int| 0 <= j < i ==> out@[j]@ == m.entries@[j].0@,
        decreases m.entries.len() - i,
    {
        out.push(m.entries[i].0.clone());
        i = i + 1;
    }
    assert(views(out@) =~= m.keys());
    out
}

// ============ Volumes ============

/// Volume mount type.
pub enum VolumeType {
    Bind,
    Volume,
    Tmpfs,
    Cluster,
    Npipe,
    Image,
}

/// Bind-mount options.
pub struct ComposeServiceVolumeBind {
    pub propagation: Option<String>,
    pub create_host_path: Option<bool>,
    pub recursive: Option<String>,
    pub selinux: Option<String>,
}

/// Image-mount options.
pub struct ComposeServiceVolumeImage {
    pub subpath: Option<String>,
}

/// Long-form volume mount.
pub struct ComposeServiceVolume {
    pub volume_type: VolumeType,
    pub source: Option<String>,
    pub target: Option<String>,
    pub read_only: Option<bool>,
    pub consistency: Option<String>,
    pub bind: Option<ComposeServiceVolumeBind>,
    pub image: Option<ComposeServiceVolumeImage>,
}

/// Short or long volume form.
pub enum VolumeSpec {
    Short(String),
    Long(ComposeServiceVolume),
}

/// The text of an optional string, empty when absent.
pub open spec fn or_empty(o: Option<String>) -> Seq<char> {
    match o {
        Some(s) => s@,
        None => Seq::empty(),
    }
}

impl VolumeSpec {
    /// `source:target`, with `:ro` appended for a read-only mount.
    pub open spec fn string_form(&self) -> Seq<char> {
        match self {
            VolumeSpec::Short(s) => s@,
            VolumeSpec::Long(v) => {
                let base = or_empty(v.source) + seq![':'] + or_empty(v.target);
                if v.read_only == Some(true) {
                    base + ":ro"@
                } else {
                    base
                }
            },
        }
    }

    /// Converts to the `source:target[:ro]` form used on the command line.
    pub fn to_string_form(&self) -> (r: String)
        ensures
            r@ == self.string_form(),
    {
        match self {
            VolumeSpec::Short(s) => s.clone(),
            VolumeSpec::Long(v) => {
                let mut r = match &v.source {
                    Some(s) => s.clone(),
                    None => String::new(),
                };
                r.append(":");
                proof {
                    reveal_strlit(":");
                }
                match &v.target {
                    Some(t) => r.append(t.as_str()),
                    None => {},
                }
                let ro = match v.read_only {
                    Some(b) => b,
                    None => false,
                };
                if ro {
                    r.append(":ro");
                }
                assert(r@ =~= self.string_form());
                r
            },
        }
    }
}

/// A volume entry of a service: the YAML value as written, and what it
/// reads as when taken as a short or long volume form (if it does).
pub struct VolumeEntry {
    pub value: YamlValue,
    pub parsed: Option<VolumeSpec>,
}

// ============ Ports ============

/// Long-form port mapping.
pub struct ComposeServicePort {
    pub name: Option<String>,
    pub mode: Option<String>,
    pub host_ip: Option<String>,
    pub target: YamlValue,
    pub published: Option<YamlValue>,
    pub protocol: Option<String>,
    pub app_protocol: Option<String>,
}

/// A port: a short string or number, or a long-form object.
pub enum PortSpec {
    Short(YamlValue),
    Long(ComposeServicePort),
}

impl PortSpec {
    /// `host:container`, or just `container` when nothing is published.
    pub open spec fn string_form(&self) -> Seq<char> {
        match self {
            PortSpec::Short(v) => yaml_str(*v),
            PortSpec::Long(p) => match p.published {
                Some(h) => yaml_str(h) + seq![':'] + yaml_str(p.target),
                None => yaml_str(p.target),
            },
        }
    }

    /// Converts to the `host:container` form used on the command line.
    pub fn to_string_form(&self) -> (r: String)
        ensures
            r@ == self.string_form(),
    {
        match self {
            PortSpec::Short(v) => yaml_value_to_str(v),
            PortSpec::Long(p) => {
                let container = yaml_value_to_str(&p.target);
                match &p.published {
                    Some(h) => {
                        let mut r = yaml_value_to_str(h);
                        r.append(":");
                        r.append(container.as_str());
                        proof {
                            reveal_strlit(":");
                        }
                        r
                    },
                    None => container,
                }
            },
        }
    }
}

// ============ Networks on a service ============

/// How a service attaches to one network.
pub struct ComposeServiceNetworkConfig {
    pub aliases: Option<Vec<String>>,
    pub ipv4_address: Option<String>,
    pub ipv6_address: Option<String>,
    pub priority: Option<i32>,
}

/// The networks of a service: a list or a map.
pub enum ServiceNetworks {
    List(Vec<String>),
    Dict(OrderedMap<Option<ComposeServiceNetworkConfig>>),
}

impl ServiceNetworks {
    /// The network names, in order.
    pub open spec fn names_view(&self) -> Seq<Seq<char>> {
        match self {
            ServiceNetworks::List(v) => views(v@),
            ServiceNetworks::Dict(m) => m.keys(),
        }
    }

    /// The network names, in order.
    pub fn names(&self) -> (r: Vec<String>)
        ensures
            views(r@) == self.names_view(),
    {
        match self {
            ServiceNetworks::List(v) => copy_strings(v),
            ServiceNetworks::Dict(m) => keys_of(m),
        }
    }
}

// ============ Top-level definitions ============

/// A top-level network definition.
pub struct ComposeNetwork {
    pub name: Option<String>,
    pub driver: Option<String>,
    /// Driver options, in document order.
    pub driver_opts: Option<Vec<(String, String)>>,
    /// The IP address management block, as written.
    pub ipam: Option<YamlValue>,
    pub external: Option<bool>,
    pub internal: Option<bool>,
    pub enable_ipv4: Option<bool>,
    pub enable_ipv6: Option<bool>,
    pub attachable: Option<bool>,
    pub labels: Option<ListOrDict>,
}

/// A top-level volume definition.
pub struct ComposeVolume {
    pub name: Option<String>,
    pub driver: Option<String>,
    /// Driver options, in document order.
    pub driver_opts: Option<Vec<(String, String)>>,
    pub external: Option<bool>,
    pub labels: Option<ListOrDict>,
}

/// A top-level secret definition.
pub struct ComposeSecret {
    pub name: Option<String>,
    pub environment: Option<String>,
    pub file: Option<String>,
    pub external: Option<bool>,
    pub labels: Option<ListOrDict>,
    pub driver: Option<String>,
    /// Driver options, in document order.
    pub driver_opts: Option<Vec<(String, String)>>,
    pub template_driver: Option<String>,
}

/// A top-level config definition.
pub struct ComposeConfig {
    pub name: Option<String>,
    pub content: Option<String>,
    pub environment: Option<String>,
    pub file: Option<String>,
    pub external: Option<bool>,
    pub labels: Option<ListOrDict>,
    pub template_driver: Option<String>,
}

// ============ Services ============

/// A service definition: the fields that orchestration reads, and the
/// service's other keys (`build`, `healthcheck`, `deploy`, ...) as written,
/// in document order, which are carried along untouched.
#[derive(Default)]
pub struct ComposeService {
    pub image: Option<String>,
    pub command: Option<YamlValue>,
    pub environment: Option<ListOrDict>,
    pub ports: Option<Vec<Described<PortSpec>>>,
    pub volumes: Option<Vec<VolumeEntry>>,
    pub networks: Option<ServiceNetworks>,
    pub depends_on: Option<DependsOnSpec>,
    pub container_name: Option<String>,
    pub read_only: Option<bool>,
    pub other: Vec<(String, YamlValue)>,
}

/// The strings among a sequence's items, in order.
pub open spec fn string_items(items: Seq<YamlValue>) -> Seq<Seq<char>>
    decreases items.len(),
{
    if items.len() == 0 {
        Seq::empty()
    } else {
        let rest = string_items(items.drop_last());
        match items.last().kind {
            YamlKind::String(s) => rest.push(s@),
            _ => rest,
        }
    }
}

/// The command of a service as a list: a string alone, the string items of
/// a sequence, or nothing for any other value.
pub open spec fn command_items(v: YamlValue) -> Seq<Seq<char>> {
    match v.kind {
        YamlKind::String(s) => seq![s@],
        YamlKind::Sequence(items) => string_items(items@),
        _ => Seq::empty(),
    }
}

/// The string form of a volume entry.
pub open spec fn volume_str(e: VolumeEntry) -> Seq<char> {
    match e.parsed {
        Some(v) => v.string_form(),
        None => yaml_str(e.value),
    }
}

impl ComposeService {
    /// The environment as a flat map (empty when absent).
    pub open spec fn env_view(&self) -> Map<Seq<char>, Seq<char>> {
        match self.environment {
            Some(e) => e.map_view(),
            None => Map::empty(),
        }
    }

    /// The port strings, in order.
    pub open spec fn ports_view(&self) -> Seq<Seq<char>> {
        match self.ports {
            Some(p) => p@.map_values(|d: Described<PortSpec>| d.value.string_form()),
            None => Seq::empty(),
        }
    }

    /// The volume strings, in order.
    pub open spec fn volumes_view(&self) -> Seq<Seq<char>> {
        match self.volumes {
            Some(v) => v@.map_values(|e: VolumeEntry| volume_str(e)),
            None => Seq::empty(),
        }
    }

    /// The environment as a flat map.
    pub fn resolved_env(&self) -> (r: EnvMap)
        ensures
            r.wf(),
            r@ == self.env_view(),
    {
        match &self.environment {
            Some(e) => e.to_map(),
            None => EnvMap::new(),
        }
    }

    /// Port strings in `host:container` form.
    pub fn port_strings(&self) -> (r: Vec<String>)
        ensures
            views(r@) == self.ports_view(),
    {
        let mut out: Vec<String> = Vec::new();
        match &self.ports {
            Some(p) => {
                let mut i: usize = 0;
                while i < p.len()
                    invariant
                        i <= p.len(),
                        out.len() == i,
                        forall|j: int| 0 <= j < i ==> out@[j]@ == p@[j].value.string_form(),
                    decreases p.len() - i,
                {
                    out.push(p[i].value.to_string_form());
                    i = i + 1;
                }
            },
            None => {},
        }
        assert(views(out@) =~= self.ports_view());
        out
    }

    /// Volume mount strings: the volume form where the entry reads as one,
    /// otherwise the entry's string form.
    pub fn volume_strings(&self) -> (r: Vec<String>)
        ensures
            views(r@) == self.volumes_view(),
    {
        let mut out: Vec<String> = Vec::new();
        match &self.volumes {
            Some(v) => {
                let mut i: usize = 0;
                while i < v.len()
                    invariant
                        i <= v.len(),
                        out.len() == i,
                        forall|j: int| 0 <= j < i ==> out@[j]@ == volume_str(v@[j]),
                    decreases v.len() - i,
                {
                    let s = match &v[i].parsed {
                        Some(spec) => spec.to_string_form(),
                        None => yaml_value_to_str(&v[i].value),
                    };
                    out.push(s);
                    i = i + 1;
                }
            },
            None => {},
        }
        assert(views(out@) =~= self.volumes_view());
        out
    }

    /// The command as a list of strings.
    pub fn command_list(&self) -> (r: Option<Vec<String>>)
        ensures
            match (r, self.command) {
                (Some(l), Some(c)) => views(l@) == command_items(c),
                (None, None) => true,
                _ => false,
            },
    {
        match &self.command {
            None => None,
            Some(c) => Some(command_strings(c)),
        }
    }
}

/// The command of `c` as a list of strings.
fn command_strings(c: &YamlValue) -> (r: Vec<String>)
    ensures
        views(r@) == command_items(*c),
{
    let mut out: Vec<String> = Vec::new();
    match &c.kind {
        YamlKind::String(s) => {
            out.push(s.clone());
            assert(views(out@) =~= seq![s@]);
        },
        YamlKind::Sequence(items) => {
            let mut i: usize = 0;
            while i < items.len()
                invariant
                    i <= items.len(),
                    views(out@) == string_items(items@.take(i as int)),
                decreases items.len() - i,
            {
                proof {
                    assert(items@.take(i + 1).drop_last() =~= items@.take(i as int));
                }
                match &items[i].kind {
                    YamlKind::String(s) => {
                        let ghost pre = out@;
                        out.push(s.clone());
                        assert(views(out@) =~= views(pre).push(s@));
                    },
                    _ => {},
                }
                i = i + 1;
            }
            assert(items@.take(i as int) =~= items@);
        },
        _ => {
            assert(views(out@) =~= Seq::<Seq<char>>::empty());
        },
    }
    out
}

// ============ The compose document ============

/// A compose document.
pub struct ComposeSpec {
    pub name: Option<String>,
    pub version: Option<String>,
    pub services: OrderedMap<ComposeService>,
    pub networks: Option<OrderedMap<Option<ComposeNetwork>>>,
    pub volumes: Option<OrderedMap<Option<ComposeVolume>>>,
    pub secrets: Option<OrderedMap<Option<ComposeSecret>>>,
    pub configs: Option<OrderedMap<Option<ComposeConfig>>>,
    /// Other compose files that this one brings in, as written.
    pub imports: Option<Vec<YamlValue>>,
    /// Model definitions by name, as written, in document order.
    pub models: Option<Vec<(String, YamlValue)>>,
    pub extensions: OrderedMap<YamlValue>,
}

/// An optional map after merging `b` into `a`: unchanged when `b` is
/// absent, otherwise `b`'s entries written over `a`'s (or over nothing).
pub open spec fn merged_opt<V>(a: Option<OrderedMap<V>>, b: Option<OrderedMap<V>>) -> Option<
    Seq<(String, V)>,
> {
    match b {
        None => match a {
            Some(m) => Some(m.entries@),
            None => None,
        },
        Some(bm) => match a {
            Some(am) => Some(inserted_all(am.entries@, bm.entries@)),
            None => Some(inserted_all(Seq::empty(), bm.entries@)),
        },
    }
}

/// The entries of an optional map.
pub open spec fn opt_entries<V>(a: Option<OrderedMap<V>>) -> Option<Seq<(String, V)>> {
    match a {
        Some(m) => Some(m.entries@),
        None => None,
    }
}

/// An optional map has no repeated names.
pub open spec fn opt_wf<V>(a: Option<OrderedMap<V>>) -> bool {
    match a {
        Some(m) => m.wf(),
        None => true,
    }
}

pub proof fn lemma_inserted_all_unique<V>(e: Seq<(String, V)>, o: Seq<(String, V)>)
    requires
        unique_keys(e),
    ensures
        unique_keys(inserted_all(e, o)),
    decreases o.len(),
{
    if o.len() > 0 {
        lemma_inserted(e, o[0].0, o[0].1);
        lemma_inserted_all_unique(inserted(e, o[0].0, o[0].1), o.drop_first());
    }
}

/// After writing the entries of `o` over `e`, a name holds `o`'s value if
/// `o` has it, and `e`'s otherwise.
pub proof fn lemma_inserted_all_lookup<V>(e: Seq<(String, V)>, o: Seq<(String, V)>, k: Seq<char>)
    requires
        unique_keys(e),
        unique_keys(o),
    ensures
        lookup_entry(inserted_all(e, o), k) == (if lookup_entry(o, k) is Some {
            lookup_entry(o, k)
        } else {
            lookup_entry(e, k)
        }),
    decreases o.len(),
{
    if o.len() > 0 {
        let e1 = inserted(e, o[0].0, o[0].1);
        let o1 = o.drop_first();
        lemma_inserted(e, o[0].0, o[0].1);
        assert(unique_keys(o1)) by {
            assert forall|a: int, b: int| 0 <= a < b < o1.len() implies o1[a].0@ != o1[b].0@ by {
                assert(o[a + 1].0@ != o[b + 1].0@);
            }
        }
        lemma_inserted_all_lookup(e1, o1, k);
        lemma_key_index(o, k);
        lemma_key_index(o1, k);
        if let Some(j) = key_index(o1, k) {
            lemma_key_index_unique(o, k, j + 1);
        }
        if let Some(j) = key_index(o, k) {
            if j > 0 {
                lemma_key_index_unique(o1, k, j - 1);
            } else {
                assert(forall|x: int| 0 <= x < o1.len() ==> o1[x].0@ != k) by {
                    assert forall|x: int| 0 <= x < o1.len() implies o1[x].0@ != k by {
                        assert(o[0].0@ != o[x + 1].0@);
                    }
                }
            }
        }
    } else {
        lemma_key_index(o, k);
    }
}

impl ComposeSpec {
    /// No map of the document repeats a name.
    pub open spec fn wf(&self) -> bool {
        &&& self.services.wf()
        &&& opt_wf(self.networks)
        &&& opt_wf(self.volumes)
        &&& opt_wf(self.secrets)
        &&& opt_wf(self.configs)
        &&& self.extensions.wf()
    }

    /// The empty document.
    pub fn new() -> (r: ComposeSpec)
        ensures
            r.wf(),
            r.services.entries@.len() == 0,
            r.name is None,
            r.version is None,
            r.networks is None,
            r.volumes is None,
            r.secrets is None,
            r.configs is None,
            r.imports is None,
            r.models is None,
            r.extensions.entries@.len() == 0,
    {
        ComposeSpec {
            name: None,
            version: None,
            services: OrderedMap::new(),
            networks: None,
            volumes: None,
            secrets: None,
            configs: None,
            imports: None,
            models: None,
            extensions: OrderedMap::new(),
        }
    }

    /// Merges `other` into this document, last writer wins: every map takes
    /// `other`'s entries over its own, and `name` and `version` are replaced
    /// when `other` sets them; this document's imported files and `models` stay.
    pub fn merge(&mut self, other: ComposeSpec)
        requires
            old(self).wf(),
            other.wf(),
        ensures
            final(self).wf(),
            final(self).services.entries@ == inserted_all(
                old(self).services.entries@,
                other.services.entries@,
            ),
            opt_entries(final(self).networks) == merged_opt(old(self).networks, other.networks),
            opt_entries(final(self).volumes) == merged_opt(old(self).volumes, other.volumes),
            opt_entries(final(self).secrets) == merged_opt(old(self).secrets, other.secrets),
            opt_entries(final(self).configs) == merged_opt(old(self).configs, other.configs),
            final(self).extensions.entries@ == inserted_all(
                old(self).extensions.entries@,
                other.extensions.entries@,
            ),
            final(self).name == (if other.name is Some {
                other.name
            } else {
                old(self).name
            }),
            final(self).version == (if other.version is Some {
                other.version
            } else {
                old(self).version
            }),
            final(self).imports == old(self).imports,
            final(self).models == old(self).models,
    {
        let ComposeSpec {
            name,
            version,
            services,
            networks,
            volumes,
            secrets,
            configs,
            imports: _,
            models: _,
            extensions,
        } = other;
        proof {
            lemma_inserted_all_unique(self.services.entries@, services.entries@);
            lemma_inserted_all_unique(self.extensions.entries@, extensions.entries@);
        }
        self.services.insert_all(services);
        merge_opt_map(&mut self.networks, networks);
        merge_opt_map(&mut self.volumes, volumes);
        merge_opt_map(&mut self.secrets, secrets);
        merge_opt_map(&mut self.configs, configs);
        if name.is_some() {
            self.name = name;
        }
        if version.is_some() {
            self.version = version;
        }
        self.extensions.insert_all(extensions);
    }
}

/// Merges an optional map into another (last writer wins).
fn merge_opt_map<V>(a: &mut Option<OrderedMap<V>>, b: Option<OrderedMap<V>>)
    requires
        opt_wf(*old(a)),
        opt_wf(b),
    ensures
        opt_wf(*final(a)),
        opt_entries(*final(a)) == merged_opt(*old(a), b),
{
    match b {
        None => {},
        Some(bm) => {
            let ghost prior = *a;
            let mut am = match a.take() {
                Some(m) => m,
                None => OrderedMap::new(),
            };
            proof {
                match prior {
                    Some(m) => assert(am.entries@ == m.entries@),
                    None => assert(am.entries@ =~= Seq::<(String, V)>::empty()),
                }
                lemma_inserted_all_unique(am.entries@, bm.entries@);
            }
            am.insert_all(bm);
            *a = Some(am);
        },
    }
}

/// Merging is last-writer-wins: after `a.merge(b)`, a service that `b`
/// defines is `b`'s definition, and any other service is `a`'s.
pub proof fn law_merge_last_writer_wins(a: ComposeSpec, b: ComposeSpec, k: Seq<char>)
    requires
        a.wf(),
        b.wf(),
    ensures
        lookup_entry(inserted_all(a.services.entries@, b.services.entries@), k) == (if b.services.lookup(k) is Some {
            b.services.lookup(k)
        } else {
            a.services.lookup(k)
        }),
{
    lemma_inserted_all_lookup(a.services.entries@, b.services.entries@, k);
}

// ============ Handles and runtime information ============

/// Handle to a running compose stack.
#[derive(Debug)]
pub struct ComposeHandle {
    pub stack_id: u64,
    pub project_name: String,
    pub services: Vec<String>,
}

/// Isolation level of a container runtime.
#[derive(PartialEq, Eq, Structural, Clone, Copy)]
pub enum IsolationLevel {
    /// No isolation (`None` in the serialized form).
    NoIsolation,
    Process,
    Container,
    MicroVm,
    Wasm,
}

impl Default for IsolationLevel {
    /// The default level: a container.
    fn default() -> (r: IsolationLevel)
        ensures
            r == IsolationLevel::Container,
    {
        IsolationLevel::Container
    }
}

/// Information about a detected container backend.
pub struct BackendInfo {
    pub name: String,
    pub available: bool,
    pub reason: Option<String>,
    pub version: Option<String>,
    /// `local` or `remote`.
    pub mode: String,
    pub isolation_level: IsolationLevel,
}

/// What to run as a single container.
pub struct ContainerSpec {
    pub image: String,
    pub name: Option<String>,
    pub ports: Option<Vec<String>>,
    pub volumes: Option<Vec<String>>,
    /// Environment variables, in the order they are passed.
    pub env: Option<Vec<(String, String)>>,
    pub cmd: Option<Vec<String>>,
    pub entrypoint: Option<Vec<String>>,
    pub network: Option<String>,
    pub rm: Option<bool>,
    pub read_only: Option<bool>,
    pub security_opt: Option<Vec<String>>,
    pub isolation_level: Option<IsolationLevel>,
}

impl ContainerSpec {
    /// No environment variable is set twice.
    pub open spec fn wf(&self) -> bool {
        match self.env {
            Some(e) => unique_keys(e@),
            None => true,
        }
    }

    /// A spec for `image` with nothing else set.
    pub fn for_image(image: String) -> (r: ContainerSpec)
        ensures
            r.wf(),
            r.image == image,
            r.name is None,
            r.ports is None,
            r.volumes is None,
            r.env is None,
            r.cmd is None,
            r.entrypoint is None,
            r.network is None,
            r.rm is None,
            r.read_only is None,
            r.security_opt is None,
            r.isolation_level is None,
    {
        ContainerSpec {
            image,
            name: None,
            ports: None,
            volumes: None,
            env: None,
            cmd: None,
            entrypoint: None,
            network: None,
            rm: None,
            read_only: None,
            security_opt: None,
            isolation_level: None,
        }
    }
}

/// Handle returned after creating or running a container.
#[derive(Debug)]
pub struct ContainerHandle {
    pub id: String,
    pub name: Option<String>,
}

/// Information about a container.
#[derive(Debug)]
pub struct ContainerInfo {
    pub id: String,
    pub name: String,
    pub image: String,
    pub status: String,
    pub ports: Vec<String>,
    pub created: String,
    pub ip: Option<String>,
}

/// Output of a container.
#[derive(Debug)]
pub struct ContainerLogs {
    pub stdout: String,
    pub stderr: String,
}

/// Information about an image.
#[derive(Debug)]
pub struct ImageInfo {
    pub id: String,
    pub repository: String,
    pub tag: String,
    pub size: u64,
    pub created: String,
}

} // verus!
