//! A map from text keys to text values, each key held once.
use vstd::prelude::*;
use crate::text::{same_string, same_text};

verus! {

/// The map of text keys to text values that a sequence of pairs denotes,
/// later pairs replacing earlier ones for the same key.
pub open spec fn pairs_map(s: Seq<(String, String)>) -> Map<Seq<char>, Seq<char>>
    decreases s.len(),
{
    if s.len() == 0 {
        Map::empty()
    } else {
        pairs_map(s.drop_last()).insert(s.last().0@, s.last().1@)
    }
}

/// No key occurs twice in a sequence of pairs.
pub open spec fn keys_unique(s: Seq<(String, String)>) -> bool {
    forall|i: int, j: int| 0 <= i < j < s.len() ==> s[i].0@ != s[j].0@
}

/// Index of the pair whose key is `k`, if any.
pub open spec fn key_index(s: Seq<(String, String)>, k: Seq<char>) -> int {
    choose|i: int| 0 <= i < s.len() && s[i].0@ == k
}

pub proof fn lemma_pairs_map_contains(s: Seq<(String, String)>, k: Seq<char>)
    ensures
        pairs_map(s).contains_key(k) <==> exists|i: int| 0 <= i < s.len() && s[i].0@ == k,
    decreases s.len(),
{
    if s.len() > 0 {
        lemma_pairs_map_contains(s.drop_last(), k);
        if pairs_map(s.drop_last()).contains_key(k) {
            let i = choose|i: int| 0 <= i < s.drop_last().len() && s.drop_last()[i].0@ == k;
            assert(s[i].0@ == k);
        }
        if exists|i: int| 0 <= i < s.len() && s[i].0@ == k {
            let i = choose|i: int| 0 <= i < s.len() && s[i].0@ == k;
            if i < s.len() - 1 {
                assert(s.drop_last()[i].0@ == k);
            }
        }
    }
}

pub proof fn lemma_pairs_map_value(s: Seq<(String, String)>, i: int)
    requires
        keys_unique(s),
        0 <= i < s.len(),
    ensures
        pairs_map(s).contains_key(s[i].0@),
        pairs_map(s)[s[i].0@] == s[i].1@,
    decreases s.len(),
{
    if i < s.len() - 1 {
        lemma_pairs_map_value(s.drop_last(), i);
        assert(s.drop_last()[i] == s[i]);
    }
}

pub proof fn lemma_pairs_map_len(s: Seq<(String, String)>)
    requires
        keys_unique(s),
    ensures
        pairs_map(s).dom().finite(),
        pairs_map(s).len() == s.len(),
    decreases s.len(),
{
    if s.len() > 0 {
        lemma_pairs_map_len(s.drop_last());
        lemma_pairs_map_contains(s.drop_last(), s.last().0@);
        assert(!pairs_map(s.drop_last()).contains_key(s.last().0@));
    }
}

pub proof fn lemma_pairs_map_push(s: Seq<(String, String)>, p: (String, String))
    ensures
        pairs_map(s.push(p)) == pairs_map(s).insert(p.0@, p.1@),
{
    assert(s.push(p).drop_last() == s);
}

pub proof fn lemma_pairs_map_update(s: Seq<(String, String)>, i: int, p: (String, String))
    requires
        keys_unique(s),
        0 <= i < s.len(),
        s[i].0@ == p.0@,
    ensures
        pairs_map(s.update(i, p)) == pairs_map(s).insert(p.0@, p.1@),
    decreases s.len(),
{
    let t = s.update(i, p);
    if i == s.len() - 1 {
        assert(t.drop_last() == s.drop_last());
        assert(pairs_map(t) =~= pairs_map(s).insert(p.0@, p.1@));
    } else {
        lemma_pairs_map_update(s.drop_last(), i, p);
        assert(t.drop_last() == s.drop_last().update(i, p));
        assert(s.last().0@ != p.0@);
        assert(pairs_map(t) =~= pairs_map(s).insert(p.0@, p.1@));
    }
}

/// A map from text keys to text values.
pub struct TextMap {
    tags: Vec<(String, String)>,
}

impl View for TextMap {
    type V = Map<Seq<char>, Seq<char>>;

    open spec fn view(&self) -> Map<Seq<char>, Seq<char>> {
        pairs_map(self.entries())
    }
}

impl TextMap {
    /// The pairs held, in insertion order.
    pub closed spec fn entries(&self) -> Seq<(String, String)> {
        self.tags@
    }

    #[verifier::type_invariant]
    closed spec fn unique(&self) -> bool {
        keys_unique(self.tags@)
    }

    /// An empty map.
    pub fn new() -> (r: TextMap)
        ensures
            r@ == Map::<Seq<char>, Seq<char>>::empty(),
            r.entries().len() == 0,
    {
        TextMap { tags: Vec::new() }
    }

    /// Position of the pair whose key is `tag`.
    pub fn find(&self, tag: &str) -> (r: Option<usize>)
        ensures
            match r {
                Some(i) => i < self.entries().len() && self.entries()[i as int].0@ == tag@,
                None => forall|i: int| 0 <= i < self.entries().len() ==> self.entries()[i].0@ != tag@,
            },
    {
        let mut i: usize = 0;
        while i < self.tags.len()
            invariant
                i <= self.tags@.len(),
                forall|j: int| 0 <= j < i ==> self.tags@[j].0@ != tag@,
            decreases self.tags@.len() - i,
        {
            if same_text(&self.tags[i].0, tag) {
                return Some(i);
            }
            i = i + 1;
        }
        None
    }

    /// Number of entries; also states how the entries make up the map.
    pub fn len(&self) -> (r: usize)
        ensures
            r == self.entries().len(),
            r == self@.len(),
            keys_unique(self.entries()),
            self@.dom().finite(),
            self@ == pairs_map(self.entries()),
    {
        proof {
            use_type_invariant(self);
            lemma_pairs_map_len(self.tags@);
        }
        self.tags.len()
    }

    /// The pair at a position.
    pub fn pair_at(&self, i: usize) -> (r: (&String, &String))
        requires
            i < self.entries().len(),
        ensures
            *r.0 == self.entries()[i as int].0,
            *r.1 == self.entries()[i as int].1,
            self@.contains_key(r.0@),
            self@[r.0@] == r.1@,
    {
        proof {
            use_type_invariant(self);
            lemma_pairs_map_value(self.tags@, i as int);
        }
        (&self.tags[i].0, &self.tags[i].1)
    }

    /// Sets the value of a key, replacing any previous value.
    pub fn insert(&mut self, key: String, value: String)
        ensures
            final(self)@ == old(self)@.insert(key@, value@),
    {
        proof {
            use_type_invariant(&*self);
        }
        let ghost orig = self.tags@;
        let k: &str = key.as_str();
        assert(k@ == key@);
        let found = self.find(k);
        assert forall|j: int| 0 <= j < orig.len() && found is None implies orig[j].0@ != key@ by {
            assert(self.entries()[j] == orig[j]);
        }
        let mut pairs: Vec<(String, String)> = Vec::new();
        std::mem::swap(&mut pairs, &mut self.tags);
        assert(pairs@ == orig);
        match found {
            Some(i) => {
                proof {
                    lemma_pairs_map_update(pairs@, i as int, (key, value));
                }
                let ghost before = pairs@;
                pairs.set(i, (key, value));
                assert(keys_unique(pairs@)) by {
                    assert forall|a: int, b: int| 0 <= a < b < pairs@.len() implies pairs@[a].0@
                        != pairs@[b].0@ by {
                        assert(before[a].0@ != before[b].0@);
                    }
                }
            },
            None => {
                proof {
                    lemma_pairs_map_push(pairs@, (key, value));
                }
                let ghost before = pairs@;
                pairs.push((key, value));
                assert(keys_unique(pairs@)) by {
                    assert forall|a: int, b: int| 0 <= a < b < pairs@.len() implies pairs@[a].0@
                        != pairs@[b].0@ by {
                        if b < before.len() {
                            assert(before[a].0@ != before[b].0@);
                        } else {
                            assert(before[a].0@ != key@);
                        }
                    }
                }
            },
        }
        self.tags = pairs;
    }

    /// Checks if the map holds a key.
    pub fn contains_key(&self, tag: &str) -> (r: bool)
        ensures
            r == self@.contains_key(tag@),
    {
        proof {
            lemma_pairs_map_contains(self.tags@, tag@);
        }
        self.find(tag).is_some()
    }

    /// The value of a key, or `None` if the key is absent.
    pub fn get(&self, tag: &str) -> (r: Option<&String>)
        ensures
            match r {
                Some(v) => self@.contains_key(tag@) && self@[tag@] == v@,
                None => !self@.contains_key(tag@),
            },
    {
        proof {
            use_type_invariant(self);
            lemma_pairs_map_contains(self.tags@, tag@);
        }
        match self.find(tag) {
            Some(i) => {
                proof {
                    lemma_pairs_map_value(self.tags@, i as int);
                }
                Some(&self.tags[i].1)
            },
            None => None,
        }
    }

    /// All the entries as (key, value) pairs, each key once.
    pub fn to_pairs(&self) -> (r: Vec<(String, String)>)
        ensures
            keys_unique(r@),
            pairs_map(r@) == self@,
            r@.len() == self@.len(),
    {
        proof {
            use_type_invariant(self);
            lemma_pairs_map_len(self.tags@);
        }
        let mut out: Vec<(String, String)> = Vec::new();
        let mut i: usize = 0;
        while i < self.tags.len()
            invariant
                i <= self.tags@.len(),
                out@ == self.tags@.subrange(0, i as int),
            decreases self.tags@.len() - i,
        {
            let k = self.tags[i].0.clone();
            let v = self.tags[i].1.clone();
            out.push((k, v));
            proof {
                assert(out@ =~= self.tags@.subrange(0, i + 1));
            }
            i = i + 1;
        }
        proof {
            assert(self.tags@.subrange(0, self.tags@.len() as int) == self.tags@);
        }
        out
    }
}

impl TextMap {
    /// The entries of `other`, overridden by the entries of `self`.
    pub fn merge_with_override(&self, other: &TextMap) -> (r: TextMap)
        ensures
            r@ == other@.union_prefer_right(self@),
    {
        let mut tags = other.clone();
        let mut i: usize = 0;
        while i < self.tags.len()
            invariant
                i <= self.tags@.len(),
                tags@ == other@.union_prefer_right(pairs_map(self.tags@.subrange(0, i as int))),
            decreases self.tags@.len() - i,
        {
            let k = self.tags[i].0.clone();
            let v = self.tags[i].1.clone();
            tags.insert(k, v);
            proof {
                let s = self.tags@.subrange(0, i + 1);
                assert(s.drop_last() == self.tags@.subrange(0, i as int));
                assert(tags@ =~= other@.union_prefer_right(pairs_map(s)));
            }
            i = i + 1;
        }
        proof {
            assert(self.tags@.subrange(0, self.tags@.len() as int) == self.tags@);
        }
        tags
    }
}

impl Clone for TextMap {
    /// A copy holding the same pairs.
    fn clone(&self) -> (r: Self)
        ensures
            r@ == self@,
            r.entries() == self.entries(),
    {
        proof {
            use_type_invariant(self);
        }
        let mut out: Vec<(String, String)> = Vec::new();
        let mut i: usize = 0;
        while i < self.tags.len()
            invariant
                i <= self.tags@.len(),
                out@ == self.tags@.subrange(0, i as int),
            decreases self.tags@.len() - i,
        {
            let k = self.tags[i].0.clone();
            let v = self.tags[i].1.clone();
            out.push((k, v));
            proof {
                assert(out@ =~= self.tags@.subrange(0, i + 1));
            }
            i = i + 1;
        }
        proof {
            assert(self.tags@.subrange(0, self.tags@.len() as int) == self.tags@);
        }
        TextMap { tags: out }
    }
}

impl TextMap {
    /// Whether two maps hold the same pairs.
    pub fn same_map(&self, other: &TextMap) -> (r: bool)
        ensures
            r == (self@ == other@),
    {
        let n = self.len();
        let m = other.len();
        if n != m {
            return false;
        }
        let mut i: usize = 0;
        while i < n
            invariant
                i <= n,
                n == self.entries().len(),
                n == self@.len(),
                m == other@.len(),
                n == m,
                self@.dom().finite(),
                other@.dom().finite(),
                self@ == pairs_map(self.entries()),
                forall|j: int|
                    0 <= j < i ==> other@.contains_key(#[trigger] self.entries()[j].0@) && other@[self.entries()[j].0@]
                        == self@[self.entries()[j].0@],
            decreases n - i,
        {
            let (k, v) = self.pair_at(i);
            match other.get(k.as_str()) {
                None => {
                    return false;
                },
                Some(w) => {
                    if !same_string(w, v) {
                        return false;
                    }
                },
            }
            i = i + 1;
        }
        proof {
            assert forall|k: Seq<char>| #[trigger] self@.dom().contains(k) implies other@.dom().contains(k) && other@[k] == self@[k] by {
                lemma_pairs_map_contains(self.entries(), k);
                let j = choose|j: int| 0 <= j < self.entries().len() && self.entries()[j].0@ == k;
                assert(other@.contains_key(self.entries()[j].0@));
            }
            assert(self@.dom().subset_of(other@.dom()));
            assert(self@.dom().len() == other@.dom().len());
            vstd::set_lib::lemma_subset_equality(self@.dom(), other@.dom());
            assert(self@ =~= other@);
        }
        true
    }
}

} // verus!
