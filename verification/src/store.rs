//! Named definitions, call counters and the evaluation cache.
//!
//! Both tables are lists of `(name, value)` entries; a name is looked up at
//! its first entry, and assigning to a name replaces that entry or appends one.

use vstd::prelude::*;
use crate::term::{E, Term, term_of, same_str};

verus! {

/// `i` is the first index of `k` in `keys`.
pub open spec fn is_first(keys: Seq<Seq<char>>, k: Seq<char>, i: int) -> bool {
    &&& 0 <= i < keys.len()
    &&& keys[i] == k
    &&& forall|j: int| 0 <= j < i ==> keys[j] != k
}

pub open spec fn find_key(keys: Seq<Seq<char>>, k: Seq<char>) -> Option<int> {
    if exists|i: int| #[trigger] is_first(keys, k, i) {
        Some(choose|i: int| #[trigger] is_first(keys, k, i))
    } else {
        None
    }
}

pub open spec fn key_seq<V>(s: Seq<(Seq<char>, V)>) -> Seq<Seq<char>> {
    s.map_values(|p: (Seq<char>, V)| p.0)
}

/// The value at the first entry of `k`.
pub open spec fn lookup<V>(s: Seq<(Seq<char>, V)>, k: Seq<char>) -> Option<V> {
    match find_key(key_seq(s), k) {
        Some(i) => Some(s[i].1),
        None => None,
    }
}

/// Gives `k` the value `v`: its first entry is replaced, or an entry is appended.
pub open spec fn assign<V>(s: Seq<(Seq<char>, V)>, k: Seq<char>, v: V) -> Seq<(Seq<char>, V)> {
    match find_key(key_seq(s), k) {
        Some(i) => s.update(i, (k, v)),
        None => s.push((k, v)),
    }
}

/// The counter of `k` raised by one (a missing counter stands for zero).
pub open spec fn bump(s: Seq<(Seq<char>, nat)>, k: Seq<char>) -> Seq<(Seq<char>, nat)> {
    assign(
        s,
        k,
        match lookup(s, k) {
            Some(c) => c + 1,
            None => 1,
        },
    )
}

pub proof fn lemma_first_unique(keys: Seq<Seq<char>>, k: Seq<char>, i: int, j: int)
    requires
        is_first(keys, k, i),
        is_first(keys, k, j),
    ensures
        i == j,
{
    if i < j {
        assert(keys[i] != k);
    } else if j < i {
        assert(keys[j] != k);
    }
}

pub proof fn lemma_find_key_is_first(keys: Seq<Seq<char>>, k: Seq<char>, i: int)
    requires
        is_first(keys, k, i),
    ensures
        find_key(keys, k) == Some(i),
{
    let c = choose|i: int| #[trigger] is_first(keys, k, i);
    lemma_first_unique(keys, k, i, c);
}

pub proof fn lemma_exists_first(keys: Seq<Seq<char>>, k: Seq<char>, j: int)
    requires
        0 <= j < keys.len(),
        keys[j] == k,
    ensures
        find_key(keys, k) is Some,
    decreases j,
{
    if exists|l: int| 0 <= l < j && keys[l] == k {
        let l = choose|l: int| 0 <= l < j && keys[l] == k;
        lemma_exists_first(keys, k, l);
    } else {
        assert(is_first(keys, k, j));
    }
}

pub proof fn lemma_find_key_none(keys: Seq<Seq<char>>, k: Seq<char>)
    requires
        forall|j: int| 0 <= j < keys.len() ==> keys[j] != k,
    ensures
        find_key(keys, k) is None,
{
    if exists|i: int| #[trigger] is_first(keys, k, i) {
        let c = choose|i: int| #[trigger] is_first(keys, k, i);
        assert(keys[c] != k);
    }
}

pub proof fn lemma_find_key_found(keys: Seq<Seq<char>>, k: Seq<char>)
    requires
        find_key(keys, k) is Some,
    ensures
        is_first(keys, k, find_key(keys, k)->0),
{
}

/// A name's value after an assignment is the assigned value, and every other
/// name keeps its value.
pub proof fn lemma_lookup_assign<V>(s: Seq<(Seq<char>, V)>, k: Seq<char>, v: V, k2: Seq<char>)
    ensures
        lookup(assign(s, k, v), k2) == (if k2 == k {
            Some(v)
        } else {
            lookup(s, k2)
        }),
{
    let keys = key_seq(s);
    let s2 = assign(s, k, v);
    let keys2 = key_seq(s2);
    match find_key(keys, k) {
        Some(i) => {
            lemma_find_key_found(keys, k);
            assert(keys2 =~= keys);
            if k2 == k {
                lemma_find_key_is_first(keys2, k, i);
            }
        },
        None => {
            assert forall|j: int| 0 <= j < keys.len() implies keys[j] != k by {
                if keys[j] == k {
                    lemma_exists_first(keys, k, j);
                }
            }
            assert(keys2 =~= keys.push(k));
            if k2 == k {
                lemma_find_key_is_first(keys2, k, keys.len() as int);
            } else {
                match find_key(keys, k2) {
                    Some(i) => {
                        lemma_find_key_found(keys, k2);
                        lemma_find_key_is_first(keys2, k2, i);
                    },
                    None => {
                        if exists|i: int| #[trigger] is_first(keys2, k2, i) {
                            let c = choose|i: int| #[trigger] is_first(keys2, k2, i);
                            assert(keys2[keys.len() as int] == k);
                            assert(c < keys.len());
                            assert forall|j: int| 0 <= j < c implies keys[j] != k2 by {
                                assert(keys2[j] == keys[j]);
                            }
                            assert(keys2[c] == keys[c]);
                            assert(is_first(keys, k2, c));
                        }
                    },
                }
            }
        },
    }
}

/// Raising a counter adds one to it and leaves every other counter as it was.
pub proof fn lemma_lookup_bump(s: Seq<(Seq<char>, nat)>, k: Seq<char>, k2: Seq<char>)
    ensures
        lookup(bump(s, k), k2) == (if k2 == k {
            Some(
                match lookup(s, k) {
                    Some(c) => c + 1,
                    None => 1nat,
                },
            )
        } else {
            lookup(s, k2)
        }),
{
    lemma_lookup_assign(
        s,
        k,
        match lookup(s, k) {
            Some(c) => c + 1,
            None => 1nat,
        },
        k2,
    );
}

/// No name occurs twice.
pub open spec fn distinct_keys(keys: Seq<Seq<char>>) -> bool {
    forall|i: int, j: int| 0 <= i < j < keys.len() ==> keys[i] != keys[j]
}

/// Assigning to a name keeps names distinct.
pub proof fn lemma_assign_distinct<V>(s: Seq<(Seq<char>, V)>, k: Seq<char>, v: V)
    requires
        distinct_keys(key_seq(s)),
    ensures
        distinct_keys(key_seq(assign(s, k, v))),
{
    let keys = key_seq(s);
    let keys2 = key_seq(assign(s, k, v));
    match find_key(keys, k) {
        Some(i) => {
            lemma_find_key_found(keys, k);
            assert(keys2 =~= keys);
        },
        None => {
            assert forall|j: int| 0 <= j < keys.len() implies keys[j] != k by {
                if keys[j] == k {
                    lemma_exists_first(keys, k, j);
                }
            }
            assert(keys2 =~= keys.push(k));
            assert forall|a: int, b: int| 0 <= a < b < keys2.len() implies keys2[a] != keys2[b] by {
                if b < keys.len() {
                    assert(keys2[a] == keys[a] && keys2[b] == keys[b]);
                } else {
                    assert(keys2[a] == keys[a]);
                }
            }
        },
    }
}

pub open spec fn string_keys<V>(s: Seq<(String, V)>) -> Seq<Seq<char>> {
    s.map_values(|p: (String, V)| p.0@)
}

/// Index of the first entry named `key`.
fn find_index<V>(entries: &Vec<(String, V)>, key: &str) -> (r: Option<usize>)
    ensures
        r matches Some(i) ==> find_key(string_keys(entries@), key@) == Some(i as int),
        r is None ==> find_key(string_keys(entries@), key@) is None,
{
    let ghost keys = string_keys(entries@);
    let mut i: usize = 0;
    while i < entries.len()
        invariant
            i <= entries.len(),
            keys == string_keys(entries@),
            forall|j: int| 0 <= j < i ==> keys[j] != key@,
        decreases entries.len() - i,
    {
        if same_str(entries[i].0.as_str(), key) {
            proof {
                lemma_find_key_is_first(keys, key@, i as int);
            }
            return Some(i);
        }
        i = i + 1;
    }
    proof {
        lemma_find_key_none(keys, key@);
    }
    None
}

/// Counters of the calls of each named definition.
#[derive(Debug)]
pub struct Counts {
    entries: Vec<(String, usize)>,
}

impl View for Counts {
    type V = Seq<(Seq<char>, nat)>;

    closed spec fn view(&self) -> Seq<(Seq<char>, nat)> {
        self.entries@.map_values(|p: (String, usize)| (p.0@, p.1 as nat))
    }
}

impl Counts {
    /// No name has two counters.
    #[verifier::type_invariant]
    spec fn inv(self) -> bool {
        distinct_keys(string_keys(self.entries@))
    }

    pub fn new() -> (r: Counts)
        ensures
            r@ == Seq::<(Seq<char>, nat)>::empty(),
    {
        let r = Counts { entries: Vec::new() };
        assert(r@ =~= Seq::<(Seq<char>, nat)>::empty());
        r
    }

    proof fn lemma_keys(&self)
        ensures
            key_seq(self@) == string_keys(self.entries@),
            forall|i: int| 0 <= i < self@.len() ==> self@[i].1 <= usize::MAX,
    {
        assert(key_seq(self@) =~= string_keys(self.entries@));
    }

    /// The counter of `name`, if it has one. No name has two counters.
    pub fn get(&self, name: &str) -> (r: Option<usize>)
        ensures
            r matches Some(c) ==> lookup(self@, name@) == Some(c as nat),
            r is None ==> lookup(self@, name@) is None,
            distinct_keys(key_seq(self@)),
    {
        proof {
            use_type_invariant(self);
            self.lemma_keys();
        }
        match find_index(&self.entries, name) {
            Some(i) => Some(self.entries[i].1),
            None => None,
        }
    }

    /// Raises the counter of `name` by one; refused, with nothing changed,
    /// when the counter is at `usize::MAX`.
    pub fn bump(&mut self, name: &str) -> (ok: bool)
        ensures
            ok == (lookup(old(self)@, name@) != Some(usize::MAX as nat)),
            ok ==> final(self)@ == bump(old(self)@, name@),
            !ok ==> final(self)@ == old(self)@,
            distinct_keys(key_seq(final(self)@)),
    {
        proof {
            use_type_invariant(&*self);
            self.lemma_keys();
        }
        let ghost old_view = self@;
        match find_index(&self.entries, name) {
            Some(i) => {
                let c = self.entries[i].1;
                if c == usize::MAX {
                    return false;
                }
                let key = self.entries[i].0.clone();
                let mut entries: Vec<(String, usize)> = Vec::new();
                std::mem::swap(&mut entries, &mut self.entries);
                entries.set(i, (key, c + 1));
                proof {
                    lemma_assign_distinct(old_view, name@, (c + 1) as nat);
                    assert(entries@.map_values(|p: (String, usize)| (p.0@, p.1 as nat)) =~= bump(old_view, name@));
                    assert(string_keys(entries@) =~= key_seq(bump(old_view, name@)));
                }
                self.entries = entries;
                assert(self@ =~= bump(old_view, name@));
                true
            },
            None => {
                let mut entries: Vec<(String, usize)> = Vec::new();
                std::mem::swap(&mut entries, &mut self.entries);
                entries.push((name.to_owned(), 1));
                proof {
                    lemma_assign_distinct(old_view, name@, 1nat);
                    assert(entries@.map_values(|p: (String, usize)| (p.0@, p.1 as nat)) =~= bump(old_view, name@));
                    assert(string_keys(entries@) =~= key_seq(bump(old_view, name@)));
                }
                self.entries = entries;
                assert(self@ =~= bump(old_view, name@));
                true
            },
        }
    }
}

impl Clone for Counts {
    fn clone(&self) -> (r: Counts)
        ensures
            r@ == self@,
    {
        proof {
            use_type_invariant(self);
        }
        let mut entries: Vec<(String, usize)> = Vec::new();
        let mut i: usize = 0;
        while i < self.entries.len()
            invariant
                i <= self.entries.len(),
                entries@ == self.entries@.subrange(0, i as int),
            decreases self.entries.len() - i,
        {
            let key = self.entries[i].0.clone();
            entries.push((key, self.entries[i].1));
            assert(entries@ =~= self.entries@.subrange(0, i + 1));
            i = i + 1;
        }
        assert(entries@ =~= self.entries@);
        Counts { entries }
    }
}

/// Named definitions: the terms that `:name` references stand for.
pub struct Defs {
    entries: Vec<(String, E)>,
}

impl View for Defs {
    type V = Seq<(Seq<char>, Term)>;

    closed spec fn view(&self) -> Seq<(Seq<char>, Term)> {
        self.entries@.map_values(|p: (String, E)| (p.0@, term_of(&p.1)))
    }
}

impl Defs {
    /// No name has two definitions.
    #[verifier::type_invariant]
    spec fn inv(self) -> bool {
        distinct_keys(string_keys(self.entries@))
    }

    pub fn new() -> (r: Defs)
        ensures
            r@ == Seq::<(Seq<char>, Term)>::empty(),
    {
        let r = Defs { entries: Vec::new() };
        assert(r@ =~= Seq::<(Seq<char>, Term)>::empty());
        r
    }

    proof fn lemma_keys(&self)
        ensures
            key_seq(self@) == string_keys(self.entries@),
    {
        assert(key_seq(self@) =~= string_keys(self.entries@));
    }

    /// Defines `name` as `e`, replacing an earlier definition of it.
    pub fn insert(&mut self, name: String, e: E)
        ensures
            final(self)@ == assign(old(self)@, name@, e@),
            distinct_keys(key_seq(final(self)@)),
    {
        proof {
            use_type_invariant(&*self);
            self.lemma_keys();
        }
        let ghost old_view = self@;
        let ghost name_view = name@;
        let ghost e_view = e@;
        let found = find_index(&self.entries, name.as_str());
        let mut entries: Vec<(String, E)> = Vec::new();
        std::mem::swap(&mut entries, &mut self.entries);
        match found {
            Some(i) => {
                entries.set(i, (name, e));
            },
            None => {
                entries.push((name, e));
            },
        }
        proof {
            lemma_assign_distinct(old_view, name_view, e_view);
            assert(entries@.map_values(|p: (String, E)| (p.0@, term_of(&p.1))) =~= assign(old_view, name_view, e_view));
            assert(string_keys(entries@) =~= key_seq(assign(old_view, name_view, e_view)));
        }
        self.entries = entries;
        assert(self@ =~= assign(old_view, name_view, e_view));
    }

    /// The definition of `name`, if there is one. No name has two definitions.
    pub fn get(&self, name: &str) -> (r: Option<&E>)
        ensures
            r matches Some(e) ==> lookup(self@, name@) == Some(e@),
            r is None ==> lookup(self@, name@) is None,
            distinct_keys(key_seq(self@)),
    {
        proof {
            use_type_invariant(self);
            self.lemma_keys();
        }
        match find_index(&self.entries, name) {
            Some(i) => Some(&self.entries[i].1),
            None => None,
        }
    }
}

/// The view of an optional term.
pub open spec fn opt_term(o: Option<E>) -> Option<Term> {
    match o {
        Some(e) => Some(term_of(&e)),
        None => None,
    }
}

/// The state that evaluation threads: call counters and the cache of shared values.
pub struct Store {
    pub count: Seq<(Seq<char>, nat)>,
    pub cache: Seq<Option<Term>>,
}

/// What evaluation keeps between steps.
#[derive(Debug, Clone)]
pub struct Data {
    pub count: Counts,
    pub cache: Vec<Option<E>>,
}

impl View for Data {
    type V = Store;

    open spec fn view(&self) -> Store {
        Store { count: self.count@, cache: self.cache@.map_values(|o: Option<E>| opt_term(o)) }
    }
}

impl Data {
    /// No counters and an empty cache.
    pub fn new() -> (r: Data)
        ensures
            r@.count == Seq::<(Seq<char>, nat)>::empty(),
            r@.cache == Seq::<Option<Term>>::empty(),
    {
        let r = Data { count: Counts::new(), cache: Vec::new() };
        assert(r@.cache =~= Seq::<Option<Term>>::empty());
        r
    }
}

impl Default for Data {
    fn default() -> (r: Data)
        ensures
            r@.count == Seq::<(Seq<char>, nat)>::empty(),
            r@.cache == Seq::<Option<Term>>::empty(),
    {
        Data::new()
    }
}

} // verus!
