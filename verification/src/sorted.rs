//! The values of a text-keyed map in the order of their keys.
use vstd::prelude::*;
use crate::key_map::{KeyMap, entries_map, lemma_entries_map_contains, lemma_entries_map_value, unique_keys};
use crate::text::{lemma_text_lt_irreflexive, lemma_text_lt_total, lemma_text_lt_transitive, text_less, text_lt};

verus! {

/// Whether `k` is the least key of a map.
pub open spec fn is_min_key<V>(m: Map<Seq<char>, V>, k: Seq<char>) -> bool {
    &&& m.contains_key(k)
    &&& forall|x: Seq<char>| #[trigger] m.contains_key(x) && x != k ==> text_lt(k, x)
}

/// The least key of a map.
pub open spec fn min_key<V>(m: Map<Seq<char>, V>) -> Seq<char> {
    choose|k: Seq<char>| is_min_key(m, k)
}

/// A finite map with a key has a least key.
pub proof fn lemma_min_key_exists<V>(m: Map<Seq<char>, V>)
    requires
        m.dom().finite(),
        m.len() > 0,
    ensures
        is_min_key(m, min_key(m)),
    decreases m.len(),
{
    let x = m.dom().choose();
    assert(m.contains_key(x));
    let rest = m.remove(x);
    if rest.len() == 0 {
        assert forall|y: Seq<char>| #[trigger] m.contains_key(y) && y != x implies text_lt(x, y) by {
            assert(rest.contains_key(y));
        }
        assert(is_min_key(m, x));
    } else {
        lemma_min_key_exists(rest);
        let y = min_key(rest);
        if text_lt(x, y) {
            assert forall|z: Seq<char>| #[trigger] m.contains_key(z) && z != x implies text_lt(x, z) by {
                if z != y {
                    assert(rest.contains_key(z));
                    lemma_text_lt_transitive(x, y, z);
                }
            }
            assert(is_min_key(m, x));
        } else {
            lemma_text_lt_total(x, y);
            assert forall|z: Seq<char>| #[trigger] m.contains_key(z) && z != y implies text_lt(y, z) by {
                if z != x {
                    assert(rest.contains_key(z));
                }
            }
            assert(is_min_key(m, y));
        }
    }
}

/// A map has at most one least key.
pub proof fn lemma_min_key_unique<V>(m: Map<Seq<char>, V>, k: Seq<char>)
    requires
        m.dom().finite(),
        is_min_key(m, k),
    ensures
        min_key(m) == k,
{
    lemma_min_key_exists(m);
    let j = min_key(m);
    if j != k {
        lemma_text_lt_transitive(j, k, j);
        lemma_text_lt_irreflexive(j);
    }
}

/// The values of a finite map in the increasing order of their keys.
pub open spec fn sorted_values<V>(m: Map<Seq<char>, V>) -> Seq<V>
    decreases m.len(),
    when m.dom().finite()
{
    if m.len() == 0 {
        Seq::empty()
    } else {
        proof {
            lemma_min_key_exists(m);
        }
        seq![m[min_key(m)]] + sorted_values(m.remove(min_key(m)))
    }
}

/// The contents of the values of a text-keyed map.
pub open spec fn view_values<V: View>(m: Map<Seq<char>, V>) -> Map<Seq<char>, V::V> {
    m.map_values(|v: V| v@)
}

/// The values of a map, in the increasing order of their keys.
pub fn into_sorted_values<V: View>(m: KeyMap<V>) -> (r: Vec<V>)
    ensures
        r@.map_values(|v: V| v@) == sorted_values(view_values(m@)),
{
    let mut rest = m;
    let mut out: Vec<V> = Vec::new();
    let ghost target = sorted_values(view_values(rest@));
    let _ = rest.len();
    proof {
        assert(out@.map_values(|v: V| v@) + sorted_values(view_values(rest@)) =~= target);
    }
    while rest.len() > 0
        invariant
            out@.map_values(|v: V| v@) + sorted_values(view_values(rest@)) == target,
            rest@.dom().finite(),
        decreases rest@.len(),
    {
        let n = rest.len();
        let mut best: usize = 0;
        let mut i: usize = 1;
        let ghost es = rest.entries();
        while i < n
            invariant
                n == es.len(),
                es == rest.entries(),
                unique_keys(es),
                0 < i <= n,
                best < i,
                forall|j: int| 0 <= j < i && j != best ==> text_lt(#[trigger] es[best as int].0@, es[j].0@),
            decreases n - i,
        {
            let (ki, _) = rest.pair_at(i);
            let (kb, _) = rest.pair_at(best);
            if text_less(ki.as_str(), kb.as_str()) {
                proof {
                    assert forall|j: int| 0 <= j < i + 1 && j != i implies text_lt(
                        #[trigger] es[i as int].0@,
                        es[j].0@,
                    ) by {
                        if j != best {
                            lemma_text_lt_transitive(es[i as int].0@, es[best as int].0@, es[j].0@);
                        }
                    }
                }
                best = i;
            } else {
                proof {
                    assert(es[i as int].0@ != es[best as int].0@);
                    lemma_text_lt_total(es[i as int].0@, es[best as int].0@);
                }
            }
            i = i + 1;
        }
        let (kb, _) = rest.pair_at(best);
        let key: String = kb.clone();
        let ghost vm = view_values(rest@);
        proof {
            assert(vm.dom() =~= rest@.dom());
            assert forall|x: Seq<char>| #[trigger] vm.contains_key(x) && x != key@ implies text_lt(key@, x) by {
                lemma_entries_map_contains(es, x);
                let j = choose|j: int| 0 <= j < es.len() && es[j].0@ == x;
                assert(j != best);
            }
            assert(is_min_key(vm, key@));
            lemma_min_key_unique(vm, key@);
            assert(vm.len() > 0);
        }
        let removed = rest.remove(key.as_str());
        match removed {
            Some(v) => {
                let ghost ov = out@.map_values(|v: V| v@);
                out.push(v);
                proof {
                    assert(out@.map_values(|v: V| v@) =~= ov.push(vm[key@]));
                    assert(view_values(rest@) =~= vm.remove(key@));
                    assert(view_values(rest@).dom() =~= rest@.dom());
                    assert(sorted_values(vm) == seq![vm[key@]] + sorted_values(vm.remove(key@)));
                    assert(out@.map_values(|v: V| v@) + sorted_values(view_values(rest@)) =~= ov + sorted_values(
                        vm,
                    ));
                }
            },
            None => {
                proof {
                    assert(false);
                }
            },
        }
    }
    let n_end = rest.len();
    proof {
        assert(view_values(rest@).dom() =~= rest@.dom());
        assert(view_values(rest@).len() == 0);
        assert(out@.map_values(|v: V| v@) =~= target);
    }
    out
}

/// Whether a value is held by a map under some key.
pub open spec fn is_value_of<V>(m: Map<Seq<char>, V>, v: V) -> bool {
    exists|k: Seq<char>| m.contains_key(k) && m[k] == v
}

/// The sorted values of a finite map are as many as its keys, and each is a
/// value of the map.
pub proof fn lemma_sorted_values_of<V>(m: Map<Seq<char>, V>)
    requires
        m.dom().finite(),
    ensures
        sorted_values(m).len() == m.len(),
        forall|i: int| 0 <= i < sorted_values(m).len() ==> is_value_of(m, #[trigger] sorted_values(m)[i]),
    decreases m.len(),
{
    if m.len() > 0 {
        lemma_min_key_exists(m);
        let k = min_key(m);
        let rest = m.remove(k);
        lemma_sorted_values_of(rest);
        let s = sorted_values(m);
        assert(s == seq![m[k]] + sorted_values(rest));
        assert forall|i: int| 0 <= i < s.len() implies is_value_of(m, #[trigger] s[i]) by {
            if i == 0 {
                assert(m.contains_key(k) && m[k] == s[0]);
            } else {
                assert(s[i] == sorted_values(rest)[i - 1]);
                assert(is_value_of(rest, sorted_values(rest)[i - 1]));
                let j = choose|j: Seq<char>| rest.contains_key(j) && rest[j] == sorted_values(rest)[i - 1];
                assert(m.contains_key(j) && m[j] == s[i]);
            }
        }
    }
}

/// The keys of a finite map in increasing order.
pub open spec fn sorted_keys<V>(m: Map<Seq<char>, V>) -> Seq<Seq<char>>
    decreases m.len(),
    when m.dom().finite()
{
    if m.len() == 0 {
        Seq::empty()
    } else {
        proof {
            lemma_min_key_exists(m);
        }
        seq![min_key(m)] + sorted_keys(m.remove(min_key(m)))
    }
}

/// The sorted values of a map are its values in the strictly increasing
/// order of their keys.
pub proof fn lemma_sorted_order<V>(m: Map<Seq<char>, V>)
    requires
        m.dom().finite(),
    ensures
        sorted_keys(m).len() == m.len(),
        sorted_values(m).len() == m.len(),
        forall|i: int|
            0 <= i < m.len() ==> m.contains_key(#[trigger] sorted_keys(m)[i]) && sorted_values(m)[i]
                == m[sorted_keys(m)[i]],
        forall|i: int, j: int| 0 <= i < j < m.len() ==> text_lt(#[trigger] sorted_keys(m)[i], #[trigger] sorted_keys(m)[j]),
    decreases m.len(),
{
    if m.len() > 0 {
        lemma_min_key_exists(m);
        let k = min_key(m);
        let rest = m.remove(k);
        lemma_sorted_order(rest);
        let ks = sorted_keys(m);
        let vs = sorted_values(m);
        assert(ks == seq![k] + sorted_keys(rest));
        assert(vs == seq![m[k]] + sorted_values(rest));
        assert forall|i: int| 0 <= i < m.len() implies m.contains_key(#[trigger] ks[i]) && vs[i] == m[ks[i]] by {
            if i > 0 {
                assert(ks[i] == sorted_keys(rest)[i - 1]);
                assert(vs[i] == sorted_values(rest)[i - 1]);
            }
        }
        assert forall|i: int, j: int| 0 <= i < j < m.len() implies text_lt(#[trigger] ks[i], #[trigger] ks[j]) by {
            assert(ks[j] == sorted_keys(rest)[j - 1]);
            assert(rest.contains_key(sorted_keys(rest)[j - 1]));
            if i > 0 {
                assert(ks[i] == sorted_keys(rest)[i - 1]);
            } else {
                assert(m.contains_key(ks[j]) && ks[j] != k);
            }
        }
    }
}

} // verus!
