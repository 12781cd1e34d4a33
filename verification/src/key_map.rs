//! A map from text keys to values, each key held once, kept in insertion order.
use vstd::prelude::*;
use crate::text::same_text;

verus! {

/// The map that a sequence of (key, value) pairs denotes, later pairs
/// replacing earlier ones for the same key.
pub open spec fn entries_map<V>(s: Seq<(String, V)>) -> Map<Seq<char>, V>
    decreases s.len(),
{
    if s.len() == 0 {
        Map::empty()
    } else {
        entries_map(s.drop_last()).insert(s.last().0@, s.last().1)
    }
}

/// No key occurs twice in a sequence of pairs.
pub open spec fn unique_keys<V>(s: Seq<(String, V)>) -> bool {
    forall|i: int, j: int| 0 <= i < j < s.len() ==> s[i].0@ != s[j].0@
}

/// The keys of a sequence of pairs, in order.
pub open spec fn key_seq<V>(s: Seq<(String, V)>) -> Seq<Seq<char>> {
    s.map_values(|p: (String, V)| p.0@)
}

pub proof fn lemma_entries_map_contains<V>(s: Seq<(String, V)>, k: Seq<char>)
    ensures
        entries_map(s).contains_key(k) <==> exists|i: int| 0 <= i < s.len() && s[i].0@ == k,
    decreases s.len(),
{
    if s.len() > 0 {
        lemma_entries_map_contains(s.drop_last(), k);
        if entries_map(s.drop_last()).contains_key(k) {
            let i = choose|i: int| 0 <= i < s.drop_last().len() && s.drop_last()[i].0@ == k;
            assert(s[i].0@ == k);
        }
        if exists|i: int| 0 <= i < s.len() && s[i].0@ == k {
            let i = choose|i: int| 0 <= i < s.len() && s[i].0@ == k;
            if i < s.len() - 1 {
                assert(s.drop_last()[i].0@ == k);
            }
        }
    }
}

pub proof fn lemma_entries_map_value<V>(s: Seq<(String, V)>, i: int)
    requires
        unique_keys(s),
        0 <= i < s.len(),
    ensures
        entries_map(s).contains_key(s[i].0@),
        entries_map(s)[s[i].0@] == s[i].1,
    decreases s.len(),
{
    if i < s.len() - 1 {
        lemma_entries_map_value(s.drop_last(), i);
        assert(s.drop_last()[i] == s[i]);
    }
}

pub proof fn lemma_entries_map_len<V>(s: Seq<(String, V)>)
    requires
        unique_keys(s),
    ensures
        entries_map(s).dom().finite(),
        entries_map(s).len() == s.len(),
    decreases s.len(),
{
    if s.len() > 0 {
        lemma_entries_map_len(s.drop_last());
        lemma_entries_map_contains(s.drop_last(), s.last().0@);
        assert(!entries_map(s.drop_last()).contains_key(s.last().0@));
    }
}

pub proof fn lemma_entries_map_push<V>(s: Seq<(String, V)>, p: (String, V))
    ensures
        entries_map(s.push(p)) == entries_map(s).insert(p.0@, p.1),
{
    assert(s.push(p).drop_last() == s);
}

pub proof fn lemma_entries_map_update<V>(s: Seq<(String, V)>, i: int, p: (String, V))
    requires
        unique_keys(s),
        0 <= i < s.len(),
        s[i].0@ == p.0@,
    ensures
        entries_map(s.update(i, p)) == entries_map(s).insert(p.0@, p.1),
    decreases s.len(),
{
    let t = s.update(i, p);
    if i == s.len() - 1 {
        assert(t.drop_last() == s.drop_last());
        assert(entries_map(t) =~= entries_map(s).insert(p.0@, p.1));
    } else {
        lemma_entries_map_update(s.drop_last(), i, p);
        assert(t.drop_last() == s.drop_last().update(i, p));
        assert(s.last().0@ != p.0@);
        assert(entries_map(t) =~= entries_map(s).insert(p.0@, p.1));
    }
}

/// A map from text keys to values.
pub struct KeyMap<V> {
    entries: Vec<(String, V)>,
}

impl<V> View for KeyMap<V> {
    type V = Map<Seq<char>, V>;

    open spec fn view(&self) -> Map<Seq<char>, V> {
        entries_map(self.entries())
    }
}

impl<V> KeyMap<V> {
    /// The pairs held, in insertion order.
    pub closed spec fn entries(&self) -> Seq<(String, V)> {
        self.entries@
    }

    #[verifier::type_invariant]
    closed spec fn unique(&self) -> bool {
        unique_keys(self.entries@)
    }

    /// An empty map.
    pub fn new() -> (r: KeyMap<V>)
        ensures
            r@ == Map::<Seq<char>, V>::empty(),
            r.entries().len() == 0,
    {
        KeyMap { entries: Vec::new() }
    }

    /// Number of entries; also states how the entries make up the map.
    pub fn len(&self) -> (r: usize)
        ensures
            r == self.entries().len(),
            r == self@.len(),
            unique_keys(self.entries()),
            self@.dom().finite(),
            self@ == entries_map(self.entries()),
    {
        proof {
            use_type_invariant(self);
            lemma_entries_map_len(self.entries@);
        }
        self.entries.len()
    }

    /// Whether the map is empty.
    pub fn is_empty(&self) -> (r: bool)
        ensures
            r == (self@.len() == 0),
            r == (self.entries().len() == 0),
            self@.dom().finite(),
    {
        self.len() == 0
    }

    /// The pair at a position.
    pub fn pair_at(&self, i: usize) -> (r: (&String, &V))
        requires
            i < self.entries().len(),
        ensures
            *r.0 == self.entries()[i as int].0,
            *r.1 == self.entries()[i as int].1,
            self@.contains_key(r.0@),
            self@[r.0@] == *r.1,
    {
        proof {
            use_type_invariant(self);
            lemma_entries_map_value(self.entries@, i as int);
        }
        (&self.entries[i].0, &self.entries[i].1)
    }

    /// Position of the pair whose key is `key`.
    pub fn find(&self, key: &str) -> (r: Option<usize>)
        ensures
            match r {
                Some(i) => i < self.entries().len() && self.entries()[i as int].0@ == key@,
                None => forall|i: int| 0 <= i < self.entries().len() ==> self.entries()[i].0@ != key@,
            },
    {
        let mut i: usize = 0;
        while i < self.entries.len()
            invariant
                i <= self.entries@.len(),
                forall|j: int| 0 <= j < i ==> self.entries@[j].0@ != key@,
            decreases self.entries@.len() - i,
        {
            if same_text(&self.entries[i].0, key) {
                return Some(i);
            }
            i = i + 1;
        }
        None
    }

    /// Checks if the map holds a key.
    pub fn contains_key(&self, key: &str) -> (r: bool)
        ensures
            r == self@.contains_key(key@),
    {
        proof {
            lemma_entries_map_contains(self.entries@, key@);
        }
        self.find(key).is_some()
    }

    /// The value of a key, or `None` if the key is absent.
    pub fn get(&self, key: &str) -> (r: Option<&V>)
        ensures
            match r {
                Some(v) => self@.contains_key(key@) && self@[key@] == *v,
                None => !self@.contains_key(key@),
            },
    {
        proof {
            use_type_invariant(self);
            lemma_entries_map_contains(self.entries@, key@);
        }
        match self.find(key) {
            Some(i) => {
                proof {
                    lemma_entries_map_value(self.entries@, i as int);
                }
                Some(&self.entries[i].1)
            },
            None => None,
        }
    }

    /// Sets the value of a key and hands back the value it replaced, if any.
    pub fn insert(&mut self, key: String, value: V) -> (r: Option<V>)
        ensures
            final(self)@ == old(self)@.insert(key@, value),
            match r {
                Some(p) => old(self)@.contains_key(key@) && old(self)@[key@] == p,
                None => !old(self)@.contains_key(key@),
            },
            old(self)@.contains_key(key@) ==> key_seq(final(self).entries()) == key_seq(old(self).entries()),
            !old(self)@.contains_key(key@) ==> key_seq(final(self).entries()) == key_seq(
                old(self).entries(),
            ).push(key@),
    {
        proof {
            use_type_invariant(&*self);
            lemma_entries_map_contains(self.entries@, key@);
        }
        let ghost orig = self.entries@;
        let k: &str = key.as_str();
        let found = self.find(k);
        assert forall|j: int| 0 <= j < orig.len() && found is None implies orig[j].0@ != key@ by {
            assert(self.entries()[j] == orig[j]);
        }
        let mut pairs: Vec<(String, V)> = Vec::new();
        std::mem::swap(&mut pairs, &mut self.entries);
        assert(pairs@ == orig);
        let r = match found {
            Some(i) => {
                proof {
                    lemma_entries_map_update(pairs@, i as int, (key, value));
                    lemma_entries_map_value(pairs@, i as int);
                }
                let ghost before = pairs@;
                let (_, prev) = pairs.remove(i);
                pairs.insert(i, (key, value));
                assert(pairs@ =~= before.update(i as int, (key, value)));
                assert(unique_keys(pairs@)) by {
                    assert forall|a: int, b: int| 0 <= a < b < pairs@.len() implies pairs@[a].0@
                        != pairs@[b].0@ by {
                        assert(before[a].0@ != before[b].0@);
                    }
                }
                assert(key_seq(pairs@) =~= key_seq(before));
                Some(prev)
            },
            None => {
                proof {
                    lemma_entries_map_push(pairs@, (key, value));
                }
                let ghost before = pairs@;
                pairs.push((key, value));
                assert(unique_keys(pairs@)) by {
                    assert forall|a: int, b: int| 0 <= a < b < pairs@.len() implies pairs@[a].0@
                        != pairs@[b].0@ by {
                        if b < before.len() {
                            assert(before[a].0@ != before[b].0@);
                        } else {
                            assert(before[a].0@ != key@);
                        }
                    }
                }
                assert(key_seq(pairs@) =~= key_seq(before).push(key@));
                None
            },
        };
        self.entries = pairs;
        r
    }

    /// Removes a key and hands back its value, if any.
    pub fn remove(&mut self, key: &str) -> (r: Option<V>)
        ensures
            final(self)@ == old(self)@.remove(key@),
            match r {
                Some(p) => old(self)@.contains_key(key@) && old(self)@[key@] == p,
                None => !old(self)@.contains_key(key@),
            },
    {
        proof {
            use_type_invariant(&*self);
            lemma_entries_map_contains(self.entries@, key@);
        }
        let ghost orig = self.entries@;
        let found = self.find(key);
        assert forall|j: int| 0 <= j < orig.len() && found is None implies orig[j].0@ != key@ by {
            assert(self.entries()[j] == orig[j]);
        }
        match found {
            None => {
                proof {
                    assert(self@ =~= self@.remove(key@));
                }
                None
            },
            Some(i) => {
                let mut pairs: Vec<(String, V)> = Vec::new();
                std::mem::swap(&mut pairs, &mut self.entries);
                assert(pairs@ == orig);
                proof {
                    lemma_entries_map_value(pairs@, i as int);
                }
                let (_, prev) = pairs.remove(i);
                assert(unique_keys(pairs@)) by {
                    assert forall|a: int, b: int| 0 <= a < b < pairs@.len() implies pairs@[a].0@
                        != pairs@[b].0@ by {
                        if b < i {
                            assert(orig[a].0@ != orig[b].0@);
                        } else if a < i {
                            assert(orig[a].0@ != orig[b + 1].0@);
                        } else {
                            assert(orig[a + 1].0@ != orig[b + 1].0@);
                        }
                    }
                }
                proof {
                    assert forall|k: Seq<char>| #![auto] entries_map(pairs@).contains_key(k) == entries_map(
                        orig,
                    ).remove(key@).contains_key(k) by {
                        lemma_entries_map_contains(pairs@, k);
                        lemma_entries_map_contains(orig, k);
                        if exists|q: int| 0 <= q < orig.len() && orig[q].0@ == k {
                            let q = choose|q: int| 0 <= q < orig.len() && orig[q].0@ == k;
                            if k != key@ {
                                if q < i {
                                    assert(pairs@[q].0@ == k);
                                } else if q > i {
                                    assert(pairs@[q - 1].0@ == k);
                                }
                            }
                        }
                        if exists|q: int| 0 <= q < pairs@.len() && pairs@[q].0@ == k {
                            let q = choose|q: int| 0 <= q < pairs@.len() && pairs@[q].0@ == k;
                            if q < i {
                                assert(orig[q].0@ == k);
                                assert(orig[q].0@ != orig[i as int].0@);
                            } else {
                                assert(orig[q + 1].0@ == k);
                                assert(orig[q + 1].0@ != orig[i as int].0@);
                            }
                        }
                    }
                    assert forall|k: Seq<char>| #[trigger] entries_map(pairs@).contains_key(k) implies entries_map(
                        pairs@,
                    )[k] == entries_map(orig)[k] by {
                        lemma_entries_map_contains(pairs@, k);
                        let q = choose|q: int| 0 <= q < pairs@.len() && pairs@[q].0@ == k;
                        lemma_entries_map_value(pairs@, q);
                        if q < i {
                            lemma_entries_map_value(orig, q);
                        } else {
                            lemma_entries_map_value(orig, q + 1);
                        }
                    }
                    assert(entries_map(pairs@) =~= entries_map(orig).remove(key@));
                }
                self.entries = pairs;
                Some(prev)
            },
        }
    }
}

/// A map made of a list of pairs is finite.
pub proof fn lemma_entries_map_finite<V>(s: Seq<(String, V)>)
    ensures
        entries_map(s).dom().finite(),
    decreases s.len(),
{
    if s.len() > 0 {
        lemma_entries_map_finite(s.drop_last());
        assert(entries_map(s).dom() =~= entries_map(s.drop_last()).dom().insert(s.last().0@));
    } else {
        assert(entries_map(s).dom() =~= Set::<Seq<char>>::empty());
    }
}

/// The content of a map is finite.
pub proof fn lemma_key_map_finite<V>(m: KeyMap<V>)
    ensures
        m@.dom().finite(),
{
    lemma_entries_map_finite(m.entries());
}

} // verus!
