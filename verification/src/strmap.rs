//! Association lists keyed by strings, with at most one entry per key.
use vstd::prelude::*;
use crate::text::{str_eq, strs};

verus! {

/// The value stored for key `k`: that of the first entry with that key.
pub open spec fn assoc_get<V>(m: Seq<(Seq<char>, V)>, k: Seq<char>) -> Option<V>
    decreases m.len(),
{
    if m.len() == 0 {
        None
    } else if m[0].0 == k {
        Some(m[0].1)
    } else {
        assoc_get(m.drop_first(), k)
    }
}

/// Position of the first entry with key `k`, if any.
pub open spec fn assoc_index<V>(m: Seq<(Seq<char>, V)>, k: Seq<char>) -> Option<int>
    decreases m.len(),
{
    if m.len() == 0 {
        None
    } else if m[0].0 == k {
        Some(0)
    } else {
        match assoc_index(m.drop_first(), k) {
            Some(i) => Some(i + 1),
            None => None,
        }
    }
}

/// `m` with the value of `k` set to `v`: the existing entry is replaced in
/// place, or a new entry is appended.
pub open spec fn assoc_insert<V>(m: Seq<(Seq<char>, V)>, k: Seq<char>, v: V) -> Seq<(Seq<char>, V)> {
    match assoc_index(m, k) {
        Some(i) => m.update(i, (k, v)),
        None => m.push((k, v)),
    }
}

/// No key occurs twice.
pub open spec fn assoc_distinct<V>(m: Seq<(Seq<char>, V)>) -> bool {
    forall|i: int, j: int| 0 <= i < j < m.len() ==> m[i].0 != m[j].0
}

pub proof fn lemma_assoc_index<V>(m: Seq<(Seq<char>, V)>, k: Seq<char>)
    ensures
        match assoc_index(m, k) {
            Some(i) => 0 <= i < m.len() && m[i].0 == k && (forall|j: int| 0 <= j < i ==> m[j].0 != k)
                && assoc_get(m, k) == Some(m[i].1),
            None => (forall|j: int| 0 <= j < m.len() ==> m[j].0 != k) && assoc_get(m, k) is None,
        },
    decreases m.len(),
{
    if m.len() > 0 && m[0].0 != k {
        lemma_assoc_index(m.drop_first(), k);
        match assoc_index(m.drop_first(), k) {
            Some(i) => {
                assert forall|j: int| 0 <= j < i + 1 implies m[j].0 != k by {
                    if j > 0 {
                        assert(m[j] == m.drop_first()[j - 1]);
                    }
                }
            },
            None => {
                assert forall|j: int| 0 <= j < m.len() implies m[j].0 != k by {
                    if j > 0 {
                        assert(m[j] == m.drop_first()[j - 1]);
                    }
                }
            },
        }
    }
}

pub proof fn lemma_assoc_insert<V>(m: Seq<(Seq<char>, V)>, k: Seq<char>, v: V)
    requires
        assoc_distinct(m),
    ensures
        assoc_distinct(assoc_insert(m, k, v)),
        assoc_get(assoc_insert(m, k, v), k) == Some(v),
        forall|k2: Seq<char>| k2 != k ==> #[trigger] assoc_get(assoc_insert(m, k, v), k2) == assoc_get(m, k2),
{
    lemma_assoc_index(m, k);
    let m2 = assoc_insert(m, k, v);
    lemma_assoc_index(m2, k);
    match assoc_index(m, k) {
        Some(i) => {
            assert(m2[i].0 == k);
            match assoc_index(m2, k) {
                Some(i2) => {
                    if i2 < i {
                        assert(m2[i2] == m[i2]);
                    }
                    assert(i2 == i);
                },
                None => {},
            }
        },
        None => {
            assert(m2[m.len() as int].0 == k);
            match assoc_index(m2, k) {
                Some(i2) => {
                    if i2 < m.len() {
                        assert(m2[i2] == m[i2]);
                    }
                    assert(i2 == m.len());
                },
                None => {},
            }
        },
    }
    assert forall|k2: Seq<char>| k2 != k implies #[trigger] assoc_get(m2, k2) == assoc_get(m, k2) by {
        lemma_assoc_index(m, k2);
        lemma_assoc_index(m2, k2);
        match assoc_index(m, k2) {
            Some(i) => {
                assert(m2[i] == m[i]);
                match assoc_index(m2, k2) {
                    Some(i2) => {
                        if i2 < i {
                            assert(m2[i2] == m[i2]);
                        }
                    },
                    None => {},
                }
            },
            None => {
                match assoc_index(m2, k2) {
                    Some(i2) => {
                        assert(m2[i2].0 == k2);
                        if i2 < m.len() {
                            assert(m2[i2] == m[i2] || m2[i2].0 == k);
                        }
                    },
                    None => {},
                }
            },
        }
    }
}

pub open spec fn pairs_view(s: Seq<(String, String)>) -> Seq<(Seq<char>, Seq<char>)> {
    Seq::new(s.len(), |i: int| (s[i].0@, s[i].1@))
}

/// A string-to-string map (key name → output string).
pub struct StrMap {
    pub entries: Vec<(String, String)>,
}

impl View for StrMap {
    type V = Seq<(Seq<char>, Seq<char>)>;

    open spec fn view(&self) -> Seq<(Seq<char>, Seq<char>)> {
        pairs_view(self.entries@)
    }
}

impl StrMap {
    pub open spec fn wf(&self) -> bool {
        assoc_distinct(self@)
    }

    pub fn new() -> (r: Self)
        ensures
            r@ == Seq::<(Seq<char>, Seq<char>)>::empty(),
            r.wf(),
    {
        StrMap { entries: Vec::new() }
    }

    /// Number of entries.
    pub fn len(&self) -> (n: usize)
        ensures
            n == self@.len(),
    {
        self.entries.len()
    }

    pub fn is_empty(&self) -> (b: bool)
        ensures
            b == (self@.len() == 0),
    {
        self.entries.len() == 0
    }

    /// Position of the entry for `key`.
    pub fn index_of(&self, key: &str) -> (r: Option<usize>)
        ensures
            match r {
                Some(i) => assoc_index(self@, key@) == Some(i as int),
                None => assoc_index(self@, key@) is None,
            },
    {
        let mut i: usize = 0;
        proof {
            lemma_assoc_index(self@, key@);
        }
        while i < self.entries.len()
            invariant
                i <= self.entries.len(),
                forall|j: int| 0 <= j < i ==> self@[j].0 != key@,
            decreases self.entries.len() - i,
        {
            if str_eq(self.entries[i].0.as_str(), key) {
                proof {
                    lemma_assoc_index(self@, key@);
                    assert(self@[i as int].0 == key@);
                    match assoc_index(self@, key@) {
                        Some(i2) => {
                            if i2 > i {
                                assert(self@[i as int].0 != key@);
                            }
                        },
                        None => {},
                    }
                }
                return Some(i);
            }
            i = i + 1;
        }
        None
    }

    /// The value stored for `key`.
    pub fn get(&self, key: &str) -> (r: Option<&String>)
        ensures
            match assoc_get(self@, key@) {
                Some(v) => r matches Some(s) && s@ == v,
                None => r is None,
            },
    {
        proof {
            lemma_assoc_index(self@, key@);
        }
        match self.index_of(key) {
            Some(i) => {
                assert(self@[i as int] == (self.entries@[i as int].0@, self.entries@[i as int].1@));
                assert(assoc_index(self@, key@) == Some(i as int));
                assert(assoc_get(self@, key@) == Some(self@[i as int].1));
                Some(&self.entries[i].1)
            },
            None => None,
        }
    }

    pub fn contains_key(&self, key: &str) -> (b: bool)
        ensures
            b == (assoc_get(self@, key@) is Some),
    {
        proof {
            lemma_assoc_index(self@, key@);
        }
        self.index_of(key).is_some()
    }

    /// Set the value of `key`, replacing an existing entry in place.
    pub fn insert(&mut self, key: String, value: String)
        ensures
            final(self)@ == assoc_insert(old(self)@, key@, value@),
    {
        proof {
            lemma_assoc_index(self@, key@);
        }
        match self.index_of(key.as_str()) {
            Some(i) => {
                let ghost kv = key@;
                let ghost vv = value@;
                self.entries.set(i, (key, value));
                assert(self@ =~= old(self)@.update(i as int, (kv, vv)));
            },
            None => {
                let ghost kv = key@;
                let ghost vv = value@;
                self.entries.push((key, value));
                assert(self@ =~= old(self)@.push((kv, vv)));
            },
        }
    }

    pub fn clone(&self) -> (r: Self)
        ensures
            r@ == self@,
    {
        let mut entries: Vec<(String, String)> = Vec::new();
        let mut i: usize = 0;
        while i < self.entries.len()
            invariant
                i <= self.entries.len(),
                pairs_view(entries@) == self@.subrange(0, i as int),
            decreases self.entries.len() - i,
        {
            let ghost old_entries = entries@;
            assert(pairs_view(old_entries).len() == old_entries.len());
            let k = self.entries[i].0.clone();
            let v = self.entries[i].1.clone();
            entries.push((k, v));
            proof {
                assert forall|j: int| 0 <= j < i + 1 implies #[trigger] pairs_view(entries@)[j]
                    == self@.subrange(0, i + 1)[j] by {
                    if j < i {
                        assert(entries@[j] == old_entries[j]);
                        assert(pairs_view(old_entries)[j] == self@.subrange(0, i as int)[j]);
                    }
                }
            }
            i = i + 1;
            assert(pairs_view(entries@) =~= self@.subrange(0, i as int));
        }
        assert(self@.subrange(0, i as int) =~= self@);
        StrMap { entries }
    }
}


pub open spec fn alias_pairs_view(s: Seq<(String, Vec<String>)>) -> Seq<(Seq<char>, Seq<Seq<char>>)> {
    Seq::new(s.len(), |i: int| (s[i].0@, strs(s[i].1@)))
}

/// Named output sequences: alias name → its tokens.
pub struct AliasMap {
    pub entries: Vec<(String, Vec<String>)>,
}

impl View for AliasMap {
    type V = Seq<(Seq<char>, Seq<Seq<char>>)>;

    open spec fn view(&self) -> Seq<(Seq<char>, Seq<Seq<char>>)> {
        alias_pairs_view(self.entries@)
    }
}

impl AliasMap {
    pub open spec fn wf(&self) -> bool {
        assoc_distinct(self@)
    }

    pub fn new() -> (r: Self)
        ensures
            r@ == Seq::<(Seq<char>, Seq<Seq<char>>)>::empty(),
            r.wf(),
    {
        AliasMap { entries: Vec::new() }
    }

    pub fn len(&self) -> (n: usize)
        ensures
            n == self@.len(),
    {
        self.entries.len()
    }

    fn index_of(&self, key: &str) -> (r: Option<usize>)
        ensures
            match r {
                Some(i) => assoc_index(self@, key@) == Some(i as int),
                None => assoc_index(self@, key@) is None,
            },
    {
        let mut i: usize = 0;
        proof {
            lemma_assoc_index(self@, key@);
        }
        while i < self.entries.len()
            invariant
                i <= self.entries.len(),
                forall|j: int| 0 <= j < i ==> self@[j].0 != key@,
            decreases self.entries.len() - i,
        {
            if str_eq(self.entries[i].0.as_str(), key) {
                proof {
                    lemma_assoc_index(self@, key@);
                    assert(self@[i as int].0 == key@);
                    match assoc_index(self@, key@) {
                        Some(i2) => {
                            if i2 > i {
                                assert(self@[i as int].0 != key@);
                            }
                        },
                        None => {},
                    }
                }
                return Some(i);
            }
            i = i + 1;
        }
        None
    }

    /// The tokens of alias `key`.
    pub fn get(&self, key: &str) -> (r: Option<&Vec<String>>)
        ensures
            match assoc_get(self@, key@) {
                Some(v) => r matches Some(s) && strs(s@) == v,
                None => r is None,
            },
    {
        proof {
            lemma_assoc_index(self@, key@);
        }
        match self.index_of(key) {
            Some(i) => {
                assert(self@[i as int] == (self.entries@[i as int].0@, strs(self.entries@[i as int].1@)));
                assert(assoc_get(self@, key@) == Some(self@[i as int].1));
                Some(&self.entries[i].1)
            },
            None => None,
        }
    }

    /// Set the tokens of alias `key`, replacing an existing entry in place.
    pub fn insert(&mut self, key: String, value: Vec<String>)
        ensures
            final(self)@ == assoc_insert(old(self)@, key@, strs(value@)),
    {
        proof {
            lemma_assoc_index(self@, key@);
        }
        let ghost kv = key@;
        let ghost vv = strs(value@);
        match self.index_of(key.as_str()) {
            Some(i) => {
                self.entries.set(i, (key, value));
                assert(self@ =~= old(self)@.update(i as int, (kv, vv)));
            },
            None => {
                self.entries.push((key, value));
                assert(self@ =~= old(self)@.push((kv, vv)));
            },
        }
    }
}

} // verus!
