//! Strictly increasing sequences of keys, and the place of a key among them.

use vstd::prelude::*;

verus! {

/// Each key is below the next one, so no key occurs twice.
pub open spec fn increasing(keys: Seq<int>) -> bool {
    forall|i: int, j: int| 0 <= i < j < keys.len() ==> keys[i] < keys[j]
}

/// The number of keys below `k`. In an increasing sequence this is the index at which
/// `k` stands, or would stand if it were inserted.
pub open spec fn rank(keys: Seq<int>, k: int) -> int
    decreases keys.len(),
{
    if keys.len() == 0 {
        0
    } else {
        rank(keys.drop_last(), k) + if keys.last() < k { 1int } else { 0int }
    }
}

pub proof fn lemma_rank_bounds(keys: Seq<int>, k: int)
    ensures
        0 <= rank(keys, k) <= keys.len(),
    decreases keys.len(),
{
    if keys.len() > 0 {
        lemma_rank_bounds(keys.drop_last(), k);
    }
}

/// An index that parts the keys below `k` from the others is the rank of `k`.
pub proof fn lemma_rank_is(keys: Seq<int>, k: int, p: int)
    requires
        0 <= p <= keys.len(),
        forall|j: int| 0 <= j < p ==> keys[j] < k,
        forall|j: int| p <= j < keys.len() ==> keys[j] >= k,
    ensures
        rank(keys, k) == p,
    decreases keys.len(),
{
    if keys.len() > 0 {
        if p == keys.len() {
            lemma_rank_is(keys.drop_last(), k, p - 1);
        } else {
            lemma_rank_is(keys.drop_last(), k, p);
        }
    }
}

/// In an increasing sequence the rank of `k` parts the keys below `k` from the others.
pub proof fn lemma_rank_parts(keys: Seq<int>, k: int)
    requires
        increasing(keys),
    ensures
        0 <= rank(keys, k) <= keys.len(),
        forall|j: int| 0 <= j < rank(keys, k) ==> keys[j] < k,
        forall|j: int| rank(keys, k) <= j < keys.len() ==> keys[j] >= k,
    decreases keys.len(),
{
    if keys.len() > 0 {
        let front = keys.drop_last();
        assert(increasing(front)) by {
            assert forall|i: int, j: int| 0 <= i < j < front.len() implies front[i] < front[j] by {
                assert(front[i] == keys[i] && front[j] == keys[j]);
            }
        }
        lemma_rank_parts(front, k);
        let p = rank(front, k);
        assert forall|j: int| 0 <= j < rank(keys, k) implies keys[j] < k by {
            if j < p {
                assert(front[j] < k);
            } else if j < front.len() {
                // only reached when the last key is below `k`
                assert(keys[j] < keys[keys.len() - 1]);
            }
        }
        assert forall|j: int| rank(keys, k) <= j < keys.len() implies keys[j] >= k by {
            if j < front.len() {
                assert(front[j] >= k);
            }
        }
    }
}

/// A key that is missing can be inserted at its rank.
pub proof fn lemma_insert_increasing(keys: Seq<int>, k: int)
    requires
        increasing(keys),
        forall|j: int| 0 <= j < keys.len() ==> keys[j] != k,
    ensures
        increasing(keys.insert(rank(keys, k), k)),
{
    lemma_rank_parts(keys, k);
    let p = rank(keys, k);
    let out = keys.insert(p, k);
    assert forall|i: int, j: int| 0 <= i < j < out.len() implies out[i] < out[j] by {
        if j < p {
            assert(out[i] == keys[i] && out[j] == keys[j]);
        } else if j == p {
            assert(out[i] == keys[i]);
        } else if i < p {
            assert(out[i] == keys[i] && out[j] == keys[j - 1]);
        } else if i == p {
            assert(out[j] == keys[j - 1]);
            assert(keys[j - 1] >= k && keys[j - 1] != k);
        } else {
            assert(out[i] == keys[i - 1] && out[j] == keys[j - 1]);
        }
    }
}

pub proof fn lemma_remove_increasing(keys: Seq<int>, i: int)
    requires
        increasing(keys),
        0 <= i < keys.len(),
    ensures
        increasing(keys.remove(i)),
{
    let out = keys.remove(i);
    assert forall|a: int, b: int| 0 <= a < b < out.len() implies out[a] < out[b] by {
        let a0 = if a < i { a } else { a + 1 };
        let b0 = if b < i { b } else { b + 1 };
        assert(out[a] == keys[a0] && out[b] == keys[b0]);
    }
}

} // verus!
