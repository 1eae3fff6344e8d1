//! Maps from text keys kept as vectors of entries with strictly increasing
//! keys (the iteration order of a `BTreeMap<String, _>`).
use vstd::prelude::*;

use crate::order::{lemma_text_lt_total, lemma_text_lt_transitive, text_less, text_lt};

verus! {

/// The entries with their keys as characters and their values deeply viewed.
pub open spec fn keyed<T: DeepView>(e: Seq<(String, T)>) -> Seq<(Seq<char>, T::V)> {
    e.map_values(|p: (String, T)| (p.0@, p.1.deep_view()))
}

pub open spec fn keys_increasing<V>(e: Seq<(Seq<char>, V)>) -> bool {
    forall|i: int, j: int| 0 <= i < j < e.len() ==> text_lt(e[i].0, e[j].0)
}

/// `e` lists the map `m`: keys strictly increasing, each entry a binding of
/// `m`, each key of `m` in some entry.
pub open spec fn represents<V>(e: Seq<(Seq<char>, V)>, m: Map<Seq<char>, V>) -> bool {
    &&& keys_increasing(e)
    &&& forall|i: int| 0 <= i < e.len() ==> #[trigger] m.contains_key(e[i].0) && m[e[i].0] == e[i].1
    &&& forall|k: Seq<char>| #[trigger] m.contains_key(k) ==> exists|i: int| 0 <= i < e.len() && e[i].0 == k
}

proof fn lemma_replace<V>(e: Seq<(Seq<char>, V)>, m: Map<Seq<char>, V>, pos: int, k: Seq<char>, v: V)
    requires
        represents(e, m),
        0 <= pos < e.len(),
        e[pos].0 == k,
    ensures
        represents(e.update(pos, (k, v)), m.insert(k, v)),
{
    let e2 = e.update(pos, (k, v));
    let m2 = m.insert(k, v);
    assert forall|a: int, b: int| 0 <= a < b < e2.len() implies text_lt(e2[a].0, e2[b].0) by {
        assert(e2[a].0 == e[a].0);
        assert(e2[b].0 == e[b].0);
    }
    assert forall|i: int| 0 <= i < e2.len() implies #[trigger] m2.contains_key(e2[i].0) && m2[e2[i].0]
        == e2[i].1 by {
        if i != pos {
            assert(e2[i] == e[i]);
            assert(m.contains_key(e[i].0));
            if e[i].0 == k {
                if i < pos {
                    assert(text_lt(e[i].0, e[pos].0));
                } else {
                    assert(text_lt(e[pos].0, e[i].0));
                }
                crate::order::lemma_text_lt_irreflexive(k);
            }
        }
    }
    assert forall|q: Seq<char>| #[trigger] m2.contains_key(q) implies exists|i: int|
        0 <= i < e2.len() && e2[i].0 == q by {
        if q == k {
            assert(e2[pos].0 == q);
        } else {
            assert(m.contains_key(q));
            let i = choose|i: int| 0 <= i < e.len() && e[i].0 == q;
            assert(e2[i].0 == q);
        }
    }
}

proof fn lemma_insert<V>(e: Seq<(Seq<char>, V)>, m: Map<Seq<char>, V>, pos: int, k: Seq<char>, v: V)
    requires
        represents(e, m),
        0 <= pos <= e.len(),
        forall|i: int| 0 <= i < pos ==> text_lt(#[trigger] e[i].0, k),
        pos < e.len() ==> text_lt(k, e[pos].0),
    ensures
        represents(e.insert(pos, (k, v)), m.insert(k, v)),
{
    let e2 = e.insert(pos, (k, v));
    let m2 = m.insert(k, v);
    assert forall|a: int, b: int| 0 <= a < b < e2.len() implies text_lt(e2[a].0, e2[b].0) by {
        if b == pos {
            assert(e2[a] == e[a]);
        } else if a == pos {
            assert(e2[b] == e[b - 1]);
            if b - 1 > pos {
                lemma_text_lt_transitive(k, e[pos].0, e[b - 1].0);
            }
        } else if a < pos && b > pos {
            assert(e2[a] == e[a]);
            assert(e2[b] == e[b - 1]);
            if b - 1 > pos {
                lemma_text_lt_transitive(k, e[pos].0, e[b - 1].0);
            }
            lemma_text_lt_transitive(e[a].0, k, e[b - 1].0);
        } else if b < pos {
            assert(e2[a] == e[a]);
            assert(e2[b] == e[b]);
        } else {
            assert(e2[a] == e[a - 1]);
            assert(e2[b] == e[b - 1]);
        }
    }
    assert forall|i: int| 0 <= i < e2.len() implies #[trigger] m2.contains_key(e2[i].0) && m2[e2[i].0]
        == e2[i].1 by {
        if i < pos {
            assert(e2[i] == e[i]);
            assert(m.contains_key(e[i].0));
            if e[i].0 == k {
                crate::order::lemma_text_lt_irreflexive(k);
            }
        } else if i > pos {
            assert(e2[i] == e[i - 1]);
            assert(m.contains_key(e[i - 1].0));
            if e[i - 1].0 == k {
                if i - 1 > pos {
                    lemma_text_lt_transitive(k, e[pos].0, k);
                }
                crate::order::lemma_text_lt_irreflexive(k);
            }
        }
    }
    assert forall|q: Seq<char>| #[trigger] m2.contains_key(q) implies exists|i: int|
        0 <= i < e2.len() && e2[i].0 == q by {
        if q == k {
            assert(e2[pos].0 == q);
        } else {
            assert(m.contains_key(q));
            let i = choose|i: int| 0 <= i < e.len() && e[i].0 == q;
            if i < pos {
                assert(e2[i].0 == q);
            } else {
                assert(e2[i + 1].0 == q);
            }
        }
    }
}

/// Binds `key` to `value`, replacing an earlier binding of `key`.
pub fn insert_keyed<T: DeepView>(
    entries: &mut Vec<(String, T)>,
    key: String,
    value: T,
    Ghost(m): Ghost<Map<Seq<char>, T::V>>,
)
    requires
        represents(keyed(old(entries)@), m),
    ensures
        represents(keyed(final(entries)@), m.insert(key@, value.deep_view())),
{
    let ghost e = keyed(entries@);
    let ghost k = key@;
    let ghost v = value.deep_view();
    let mut pos: usize = 0;
    while pos < entries.len() && text_less(entries[pos].0.as_str(), key.as_str())
        invariant
            pos <= entries@.len(),
            e == keyed(entries@),
            k == key@,
            forall|i: int| 0 <= i < pos ==> text_lt(#[trigger] e[i].0, k),
        decreases entries@.len() - pos,
    {
        pos = pos + 1;
    }
    if pos < entries.len() && entries[pos].0 == key {
        entries.set(pos, (key, value));
        proof {
            assert(keyed(entries@) =~= e.update(pos as int, (k, v)));
            lemma_replace(e, m, pos as int, k, v);
        }
    } else {
        proof {
            if pos < entries.len() {
                lemma_text_lt_total(e[pos as int].0, k);
            }
        }
        entries.insert(pos, (key, value));
        proof {
            assert(keyed(entries@) =~= e.insert(pos as int, (k, v)));
            lemma_insert(e, m, pos as int, k, v);
        }
    }
}

} // verus!
