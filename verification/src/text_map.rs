//! A small map keyed by text, kept in insertion order: the server's
//! registries of open tunnels and of API tokens.

use vstd::prelude::*;

use crate::text::same_text;

verus! {

/// No two pairs of `s` share a key.
pub open spec fn distinct_keys<V>(s: Seq<(String, V)>) -> bool {
    forall|i: int, j: int| 0 <= i < s.len() && 0 <= j < s.len() && i != j ==> s[i].0@ != s[j].0@
}

/// Position of key `k` in `s`.
pub open spec fn key_index<V>(s: Seq<(String, V)>, k: Seq<char>) -> Option<int> {
    if exists|i: int| 0 <= i < s.len() && #[trigger] s[i].0@ == k {
        Some(choose|i: int| 0 <= i < s.len() && #[trigger] s[i].0@ == k)
    } else {
        None
    }
}

/// The map that the pairs of `s` describe.
pub open spec fn as_map<V>(s: Seq<(String, V)>) -> Map<Seq<char>, V> {
    Map::new(|k: Seq<char>| key_index(s, k) is Some, |k: Seq<char>| s[key_index(s, k).unwrap()].1)
}

pub proof fn lemma_key_index_unique<V>(s: Seq<(String, V)>, i: int)
    requires
        distinct_keys(s),
        0 <= i < s.len(),
    ensures
        key_index(s, s[i].0@) == Some(i),
{
    let k = s[i].0@;
    let j = choose|j: int| 0 <= j < s.len() && #[trigger] s[j].0@ == k;
}

pub proof fn lemma_as_map_contains<V>(s: Seq<(String, V)>, k: Seq<char>)
    ensures
        as_map(s).contains_key(k) <==> exists|i: int| 0 <= i < s.len() && #[trigger] s[i].0@ == k,
{
}

pub proof fn lemma_as_map_value<V>(s: Seq<(String, V)>, i: int)
    requires
        distinct_keys(s),
        0 <= i < s.len(),
    ensures
        as_map(s).contains_key(s[i].0@),
        as_map(s)[s[i].0@] == s[i].1,
{
    lemma_key_index_unique(s, i);
}

/// Values keyed by text; a key occurs at most once.
pub struct TextMap<V> {
    items: Vec<(String, V)>,
}

impl<V> View for TextMap<V> {
    type V = Map<Seq<char>, V>;

    closed spec fn view(&self) -> Map<Seq<char>, V> {
        as_map(self.items@)
    }
}

impl<V> TextMap<V> {
    /// The pairs, in insertion order.
    pub closed spec fn pairs(&self) -> Seq<(String, V)> {
        self.items@
    }

    #[verifier::type_invariant]
    closed spec fn unique(&self) -> bool {
        distinct_keys(self.items@)
    }

    /// Empty map.
    pub fn new() -> (m: Self)
        ensures
            m@ == Map::<Seq<char>, V>::empty(),
            m.pairs() == Seq::<(String, V)>::empty(),
    {
        let m = TextMap { items: Vec::new() };
        assert(m@ =~= Map::<Seq<char>, V>::empty());
        m
    }

    /// Number of keys; the pairs hold each key of the map exactly once.
    pub fn len(&self) -> (n: usize)
        ensures
            n == self.pairs().len(),
            distinct_keys(self.pairs()),
            forall|i: int|
                0 <= i < n ==> #[trigger] self@.contains_key(self.pairs()[i].0@) && self@[self.pairs()[i].0@]
                    == self.pairs()[i].1,
            forall|k: Seq<char>|
                #[trigger] self@.contains_key(k) ==> exists|i: int|
                    0 <= i < n && #[trigger] self.pairs()[i].0@ == k,
    {
        proof {
            use_type_invariant(self);
            assert forall|i: int| 0 <= i < self.items@.len() implies #[trigger] self@.contains_key(
                self.pairs()[i].0@,
            ) && self@[self.pairs()[i].0@] == self.pairs()[i].1 by {
                lemma_as_map_value(self.items@, i);
            }
            assert forall|k: Seq<char>| #[trigger] self@.contains_key(k) implies exists|i: int|
                0 <= i < self.items@.len() && #[trigger] self.pairs()[i].0@ == k by {
                lemma_as_map_contains(self.items@, k);
                let i = choose|i: int| 0 <= i < self.items@.len() && #[trigger] self.items@[i].0@ == k;
                assert(self.pairs()[i].0@ == k);
            }
        }
        self.items.len()
    }

    /// Position of `key`.
    fn position(&self, key: &str) -> (r: Option<usize>)
        ensures
            r matches Some(i) ==> key_index(self.items@, key@) == Some(i as int),
            r is None ==> key_index(self.items@, key@) is None,
            r matches Some(i) ==> i < self.items@.len(),
    {
        proof {
            use_type_invariant(self);
        }
        let mut i: usize = 0;
        while i < self.items.len()
            invariant
                i <= self.items@.len(),
                distinct_keys(self.items@),
                forall|j: int| 0 <= j < i ==> self.items@[j].0@ != key@,
            decreases self.items@.len() - i,
        {
            if same_text(self.items[i].0.as_str(), key) {
                proof {
                    lemma_key_index_unique(self.items@, i as int);
                }
                return Some(i);
            }
            i = i + 1;
        }
        None
    }

    /// Whether `key` is present.
    pub fn contains(&self, key: &str) -> (r: bool)
        ensures
            r == self@.contains_key(key@),
    {
        proof {
            lemma_as_map_contains(self.items@, key@);
        }
        self.position(key).is_some()
    }

    /// The value of `key`, if present.
    pub fn get(&self, key: &str) -> (r: Option<&V>)
        ensures
            match r {
                Some(v) => self@.contains_key(key@) && *v == self@[key@],
                None => !self@.contains_key(key@),
            },
    {
        proof {
            use_type_invariant(self);
            lemma_as_map_contains(self.items@, key@);
        }
        let found = self.position(key);
        match found {
            Some(i) => {
                proof {
                    assert(key_index(self.items@, key@) is Some);
                    let j = key_index(self.items@, key@).unwrap();
                    assert(0 <= j < self.items@.len() && self.items@[j].0@ == key@);
                    assert(j == i);
                    lemma_as_map_value(self.items@, i as int);
                }
                Some(&self.items[i].1)
            },
            None => None,
        }
    }

    /// The key and value at position `i` of the insertion order.
    pub fn entry_at(&self, i: usize) -> (r: (&String, &V))
        requires
            i < self.pairs().len(),
        ensures
            *r.0 == self.pairs()[i as int].0,
            *r.1 == self.pairs()[i as int].1,
            self@.contains_key(r.0@),
            self@[r.0@] == *r.1,
    {
        proof {
            use_type_invariant(self);
            lemma_key_index_unique(self.items@, i as int);
        }
        (&self.items[i].0, &self.items[i].1)
    }

    /// Sets `key` to `value`, replacing any earlier value.
    pub fn insert(&mut self, key: String, value: V)
        ensures
            final(self)@ == old(self)@.insert(key@, value),
    {
        proof {
            use_type_invariant(&*self);
        }
        let found = self.position(key.as_str());
        let mut items = Vec::new();
        std::mem::swap(&mut items, &mut self.items);
        let ghost before = items@;
        let ghost k = key@;
        let ghost at: int;
        match found {
            Some(i) => {
                proof {
                    at = i as int;
                }
                items.set(i, (key, value));
            },
            None => {
                proof {
                    at = before.len() as int;
                    assert forall|j: int| 0 <= j < before.len() implies before[j].0@ != k by {
                        if before[j].0@ == k {
                            assert(key_index(before, k) is Some);
                        }
                    }
                }
                items.push((key, value));
            },
        }
        let ghost after = items@;
        assert(after[at].0@ == k && after[at].1 == value);
        assert(forall|j: int| 0 <= j < after.len() && j != at ==> #[trigger] after[j] == before[j]);
        assert(forall|j: int| 0 <= j < before.len() && j != at ==> before[j].0@ != k) by {
            if found is Some {
                assert forall|j: int| 0 <= j < before.len() && j != at implies before[j].0@ != k by {
                    assert(before[at].0@ == k);
                }
            }
        }
        assert(distinct_keys(after)) by {
            assert forall|a: int, b: int|
                0 <= a < after.len() && 0 <= b < after.len() && a != b implies after[a].0@
                != after[b].0@ by {
                if a != at && b != at {
                    assert(after[a] == before[a] && after[b] == before[b]);
                }
            }
        }
        assert(as_map(after) =~= as_map(before).insert(k, value)) by {
            assert forall|q: Seq<char>| #[trigger] as_map(after).contains_key(q) == as_map(
                before,
            ).insert(k, value).contains_key(q) by {
                lemma_as_map_contains(after, q);
                lemma_as_map_contains(before, q);
                if q != k {
                    if as_map(before).contains_key(q) {
                        let j = choose|j: int| 0 <= j < before.len() && #[trigger] before[j].0@ == q;
                        assert(after[j] == before[j]);
                    }
                    if as_map(after).contains_key(q) {
                        let j = choose|j: int| 0 <= j < after.len() && #[trigger] after[j].0@ == q;
                        assert(after[j] == before[j]);
                    }
                }
            }
            assert forall|q: Seq<char>| #[trigger] as_map(after).contains_key(q) implies as_map(
                after,
            )[q] == as_map(before).insert(k, value)[q] by {
                lemma_as_map_contains(after, q);
                let j = choose|j: int| 0 <= j < after.len() && #[trigger] after[j].0@ == q;
                lemma_as_map_value(after, j);
                if q != k {
                    assert(after[j] == before[j]);
                    lemma_as_map_value(before, j);
                } else {
                    lemma_as_map_value(after, at);
                }
            }
        }
        self.items = items;
    }

    /// Removes `key`, returning its value if it was present.
    pub fn remove(&mut self, key: &str) -> (r: Option<V>)
        ensures
            final(self)@ == old(self)@.remove(key@),
            match r {
                Some(v) => old(self)@.contains_key(key@) && v == old(self)@[key@],
                None => !old(self)@.contains_key(key@),
            },
    {
        proof {
            use_type_invariant(&*self);
        }
        let found = self.position(key);
        match found {
            None => {
                assert(self@ =~= self@.remove(key@));
                None
            },
            Some(i) => {
                let mut items = Vec::new();
                std::mem::swap(&mut items, &mut self.items);
                let ghost before = items@;
                proof {
                    let j = key_index(before, key@).unwrap();
                    assert(0 <= j < before.len() && before[j].0@ == key@);
                    assert(j == i);
                }
                let (_, v) = items.remove(i);
                let ghost after = items@;
                assert(forall|a: int| 0 <= a < after.len() ==> #[trigger] after[a] == before[if a < i {
                    a
                } else {
                    a + 1
                }]);
                assert(distinct_keys(after)) by {
                    assert forall|a: int, b: int|
                        0 <= a < after.len() && 0 <= b < after.len() && a != b implies after[a].0@
                        != after[b].0@ by {
                        let a0 = if a < i { a } else { a + 1 };
                        let b0 = if b < i { b } else { b + 1 };
                        assert(after[a] == before[a0]);
                        assert(after[b] == before[b0]);
                    }
                }
                assert(before[i as int].0@ == key@);
                assert(forall|j: int| 0 <= j < before.len() && j != i ==> before[j].0@ != key@);
                assert(as_map(after) =~= as_map(before).remove(key@)) by {
                    assert forall|q: Seq<char>| #[trigger] as_map(after).contains_key(q) == as_map(
                        before,
                    ).remove(key@).contains_key(q) by {
                        lemma_as_map_contains(after, q);
                        lemma_as_map_contains(before, q);
                        if as_map(after).contains_key(q) {
                            let j = choose|j: int| 0 <= j < after.len() && #[trigger] after[j].0@ == q;
                            let j0 = if j < i { j } else { j + 1 };
                            assert(after[j] == before[j0]);
                        }
                        if q != key@ && as_map(before).contains_key(q) {
                            let j0 = choose|j: int| 0 <= j < before.len() && #[trigger] before[j].0@ == q;
                            let j = if j0 < i { j0 } else { j0 - 1 };
                            assert(after[j] == before[j0]);
                        }
                    }
                    assert forall|q: Seq<char>| #[trigger] as_map(after).contains_key(q) implies as_map(
                        after,
                    )[q] == as_map(before).remove(key@)[q] by {
                        lemma_as_map_contains(after, q);
                        let j = choose|j: int| 0 <= j < after.len() && #[trigger] after[j].0@ == q;
                        let j0 = if j < i { j } else { j + 1 };
                        assert(after[j] == before[j0]);
                        lemma_as_map_value(after, j);
                        lemma_as_map_value(before, j0);
                    }
                }
                proof {
                    lemma_as_map_value(before, i as int);
                }
                self.items = items;
                Some(v)
            },
        }
    }
}

} // verus!
