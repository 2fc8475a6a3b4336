//! Facts about filtering and grouping sequences, shared by the tree builder
//! and the connection tables.
use vstd::prelude::*;

verus! {

/// The element's key is `k`.
pub open spec fn key_is<T>(key: spec_fn(T) -> u32, k: u32) -> spec_fn(T) -> bool {
    |x: T| key(x) == k
}

/// The elements of `s` grouped by key, each group in its order in `s`; a
/// key that no element has has no entry.
pub open spec fn groups_by<T>(s: Seq<T>, key: spec_fn(T) -> u32) -> Map<u32, Seq<T>> {
    Map::new(
        |k: u32| exists|i: int| #![trigger s[i]] 0 <= i < s.len() && key(s[i]) == k,
        |k: u32| s.filter(key_is(key, k)),
    )
}

/// One more element for a filtered prefix.
pub proof fn lemma_filter_step<T>(s: Seq<T>, pred: spec_fn(T) -> bool, i: int)
    requires
        0 <= i < s.len(),
    ensures
        s.take(i + 1).filter(pred) == (if pred(s[i]) {
            s.take(i).filter(pred).push(s[i])
        } else {
            s.take(i).filter(pred)
        }),
{
    reveal(Seq::filter);
    assert(s.take(i + 1).drop_last() =~= s.take(i));
}

/// Adding the next element to the groups.
pub proof fn lemma_groups_step<T>(c: Seq<T>, key: spec_fn(T) -> u32, i: int)
    requires
        0 <= i < c.len(),
    ensures
        groups_by(c.take(i + 1), key) == ({
            let g = groups_by(c.take(i), key);
            let x = c[i];
            g.insert(
                key(x),
                if g.contains_key(key(x)) {
                    g[key(x)].push(x)
                } else {
                    seq![x]
                },
            )
        }),
{
    let g = groups_by(c.take(i), key);
    let h = groups_by(c.take(i + 1), key);
    let x = c[i];
    let e = g.insert(
        key(x),
        if g.contains_key(key(x)) {
            g[key(x)].push(x)
        } else {
            seq![x]
        },
    );
    assert forall|k: u32| #[trigger] h.contains_key(k) <==> e.contains_key(k) by {
        if h.contains_key(k) {
            let j = choose|j: int| #![trigger c.take(i + 1)[j]] 0 <= j < c.take(i + 1).len() && key(c.take(i + 1)[j]) == k;
            if j < i {
                assert(c.take(i)[j] == c.take(i + 1)[j]);
            }
        }
        if g.contains_key(k) {
            let j = choose|j: int| #![trigger c.take(i)[j]] 0 <= j < c.take(i).len() && key(c.take(i)[j]) == k;
            assert(c.take(i)[j] == c.take(i + 1)[j]);
        }
        if k == key(x) {
            assert(c.take(i + 1)[i] == x);
        }
    }
    assert forall|k: u32| #[trigger] h.contains_key(k) implies h[k] == e[k] by {
        lemma_filter_step(c, key_is(key, k), i);
        if k == key(x) && !g.contains_key(k) {
            let f = c.take(i).filter(key_is(key, k));
            if f.len() > 0 {
                c.take(i).lemma_filter_pred(key_is(key, k), 0);
                c.take(i).lemma_filter_contains_rev(key_is(key, k), f[0]);
                assert(f.contains(f[0]));
                let j = choose|j: int| 0 <= j < c.take(i).len() && c.take(i)[j] == f[0];
                assert(key(c.take(i)[j]) == k);
            }
            assert(f =~= Seq::<T>::empty());
        }
    }
    assert(h =~= e);
}

} // verus!
