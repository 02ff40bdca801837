use vstd::prelude::*;
use crate::text::{compare_chars, lemma_seq_lt_asymmetric, lemma_seq_lt_irreflexive,
    lemma_seq_lt_total, lemma_seq_lt_transitive, seq_lt};

verus! {

/// A sort key: a primary and a secondary text, compared in that order.
pub type SortKey = (Seq<char>, Seq<char>);

/// `a` sorts strictly before `b`: by the first text, then by the second.
pub open spec fn key_lt(a: SortKey, b: SortKey) -> bool {
    seq_lt(a.0, b.0) || (a.0 == b.0 && seq_lt(a.1, b.1))
}

pub proof fn lemma_key_lt_irreflexive(a: SortKey)
    ensures
        !key_lt(a, a),
{
    lemma_seq_lt_irreflexive(a.0);
    lemma_seq_lt_irreflexive(a.1);
}

pub proof fn lemma_key_lt_transitive(a: SortKey, b: SortKey, c: SortKey)
    requires
        key_lt(a, b),
        key_lt(b, c),
    ensures
        key_lt(a, c),
{
    if seq_lt(a.0, b.0) && seq_lt(b.0, c.0) {
        lemma_seq_lt_transitive(a.0, b.0, c.0);
    } else if seq_lt(a.0, b.0) {
    } else if seq_lt(b.0, c.0) {
    } else {
        lemma_seq_lt_transitive(a.1, b.1, c.1);
    }
}

pub proof fn lemma_key_lt_total(a: SortKey, b: SortKey)
    ensures
        key_lt(a, b) || a == b || key_lt(b, a),
{
    lemma_seq_lt_total(a.0, b.0);
    lemma_seq_lt_total(a.1, b.1);
}

pub proof fn lemma_key_lt_asymmetric(a: SortKey, b: SortKey)
    ensures
        key_lt(a, b) ==> !key_lt(b, a),
{
    lemma_seq_lt_asymmetric(a.0, b.0);
    lemma_seq_lt_asymmetric(a.1, b.1);
    lemma_seq_lt_irreflexive(a.0);
}

/// `key_lt` on concrete keys.
pub fn key_less(a: &(Vec<char>, Vec<char>), b: &(Vec<char>, Vec<char>)) -> (r: bool)
    ensures
        r == key_lt((a.0@, a.1@), (b.0@, b.1@)),
{
    let c = compare_chars(&a.0, &b.0);
    if c < 0 {
        true
    } else if c > 0 {
        proof {
            lemma_seq_lt_asymmetric(b.0@, a.0@);
        }
        false
    } else {
        compare_chars(&a.1, &b.1) < 0
    }
}

/// The keys of `keys` as sort keys.
pub open spec fn key_at(keys: Seq<(Vec<char>, Vec<char>)>, i: int) -> SortKey {
    (keys[i].0@, keys[i].1@)
}

/// All keys of `keys` as sort keys.
pub open spec fn keys_view(keys: Seq<(Vec<char>, Vec<char>)>) -> Seq<SortKey> {
    Seq::new(keys.len(), |i: int| key_at(keys, i))
}

/// `p` lists every index below `n` exactly once.
pub open spec fn is_permutation(p: Seq<usize>, n: int) -> bool {
    &&& p.len() == n
    &&& forall|a: int| 0 <= a < n ==> #[trigger] p[a] < n
    &&& forall|a: int, b: int| 0 <= a < b < n ==> p[a] != p[b]
}

/// Taking the indices in the order `p` lists them sorts `keys` stably: never
/// a larger key before a smaller one, equal keys in their original order.
pub open spec fn sorts_stably(p: Seq<usize>, keys: Seq<SortKey>) -> bool {
    &&& forall|a: int, b: int|
        0 <= a < b < p.len() ==> !key_lt(keys[#[trigger] p[b] as int], keys[#[trigger] p[a] as int])
    &&& forall|a: int, b: int|
        0 <= a < b < p.len() && keys[#[trigger] p[a] as int] == keys[#[trigger] p[b] as int] ==> p[a] < p[b]
}

/// The stable sorting order of `keys`: the indices `0..n` arranged so that
/// their keys never decrease and equal keys keep their original order.
pub fn stable_order(keys: &Vec<(Vec<char>, Vec<char>)>) -> (p: Vec<usize>)
    ensures
        is_permutation(p@, keys@.len() as int),
        sorts_stably(p@, keys_view(keys@)),
{
    let n = keys.len();
    let mut p: Vec<usize> = Vec::new();
    let mut i: usize = 0;
    while i < n
        invariant
            n == keys@.len(),
            i <= n,
            is_permutation(p@, i as int),
            sorts_stably(p@, keys_view(keys@)),
        decreases n - i,
    {
        // First position whose key is strictly greater than key i.
        let mut pos: usize = 0;
        loop
            invariant
                n == keys@.len(),
                i < n,
                pos <= i,
                is_permutation(p@, i as int),
                sorts_stably(p@, keys_view(keys@)),
                forall|q: int| 0 <= q < pos ==> !key_lt(key_at(keys@, i as int), key_at(keys@, #[trigger] p@[q] as int)),
            ensures
                pos <= i,
                forall|q: int| 0 <= q < pos ==> !key_lt(key_at(keys@, i as int), key_at(keys@, #[trigger] p@[q] as int)),
                pos < i ==> key_lt(key_at(keys@, i as int), key_at(keys@, p@[pos as int] as int)),
            decreases i - pos,
        {
            if pos >= i {
                break;
            }
            let j = p[pos];
            let greater = key_less(&keys[i], &keys[j]);
            assert((keys@[j as int].0@, keys@[j as int].1@) == key_at(keys@, p@[pos as int] as int));
            if greater {
                break;
            }
            pos += 1;
        }
        let ghost old_p = p@;
        proof {
            // Every entry from `pos` on sorts strictly after key i.
            assert forall|q: int| pos <= q < i implies key_lt(key_at(keys@, i as int), key_at(keys@, #[trigger] old_p[q] as int)) by {
                if pos < i {
                    assert(key_lt(key_at(keys@, i as int), key_at(keys@, old_p[pos as int] as int)));
                    if q > pos {
                        assert(!key_lt(key_at(keys@, old_p[q] as int), key_at(keys@, old_p[pos as int] as int)));
                        lemma_key_lt_total(key_at(keys@, old_p[q] as int), key_at(keys@, old_p[pos as int] as int));
                        if key_at(keys@, old_p[q] as int) != key_at(keys@, old_p[pos as int] as int) {
                            lemma_key_lt_transitive(key_at(keys@, i as int), key_at(keys@, old_p[pos as int] as int), key_at(keys@, old_p[q] as int));
                        }
                    }
                }
            }
        }
        p.insert(pos, i);
        proof {
            let np = p@;
            assert(np == old_p.insert(pos as int, i));
            assert forall|q: int| 0 <= q < pos implies np[q] == old_p[q] by {}
            assert forall|q: int| pos < q <= i implies np[q] == old_p[q - 1] by {}
            assert(np[pos as int] == i);
            assert forall|a: int| 0 <= a < i + 1 implies #[trigger] np[a] < i + 1 by {
                if a < pos {
                } else if a > pos {
                    assert(old_p[a - 1] < i);
                }
            }
            assert forall|a: int, b: int| 0 <= a < b < i + 1 implies np[a] != np[b] by {
                if a < pos && b < pos {
                } else if a < pos && b == pos {
                    assert(old_p[a] < i);
                } else if a < pos {
                    assert(np[b] == old_p[b - 1]);
                } else if a == pos {
                    assert(old_p[b - 1] < i);
                } else {
                    assert(np[a] == old_p[a - 1]);
                    assert(np[b] == old_p[b - 1]);
                }
            }
            assert forall|a: int, b: int| 0 <= a < b < np.len() implies !key_lt(key_at(keys@, #[trigger] np[b] as int), key_at(keys@, #[trigger] np[a] as int)) by {
                let ka = key_at(keys@, np[a] as int);
                let kb = key_at(keys@, np[b] as int);
                let kn = key_at(keys@, i as int);
                if a < pos && b < pos {
                } else if a < pos && b == pos {
                    assert(!key_lt(kn, ka));
                } else if a < pos {
                    assert(np[b] == old_p[b - 1]);
                } else if a == pos {
                    assert(np[b] == old_p[b - 1]);
                    assert(key_lt(kn, kb));
                    lemma_key_lt_asymmetric(kn, kb);
                } else {
                    assert(np[a] == old_p[a - 1]);
                    assert(np[b] == old_p[b - 1]);
                }
            }
            assert forall|a: int, b: int| 0 <= a < b < np.len() && key_at(keys@, #[trigger] np[a] as int) == key_at(keys@, #[trigger] np[b] as int) implies np[a] < np[b] by {
                let kn = key_at(keys@, i as int);
                if a < pos && b < pos {
                } else if a < pos && b == pos {
                    assert(old_p[a] < i);
                } else if a < pos {
                    assert(np[b] == old_p[b - 1]);
                } else if a == pos {
                    assert(np[b] == old_p[b - 1]);
                    assert(key_lt(kn, key_at(keys@, np[b] as int)));
                    lemma_key_lt_irreflexive(kn);
                } else {
                    assert(np[a] == old_p[a - 1]);
                    assert(np[b] == old_p[b - 1]);
                }
            }
        }
        i += 1;
    }
    p
}

} // verus!
