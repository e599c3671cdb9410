//! Ranking of a working set of clips by similarity score.
//!
//! A score is a 32-bit float given by its bit pattern. For every float that
//! is not NaN, the order of values is the order of the sign-and-magnitude
//! integer of its bits, with both zeros equal; that integer is the rank key.
//! A NaN pattern ranks below every other score.

use vstd::prelude::*;
use crate::clip::ClipItem;

verus! {

/// The rank key of a float's bit pattern: the sign-and-magnitude integer of
/// its bits, and one below that of negative infinity for a NaN.
pub open spec fn score_key(bits: u32) -> int {
    let magnitude: int = if bits >= 0x8000_0000 { bits - 0x8000_0000 } else { bits as int };
    if magnitude > 0x7f80_0000 {
        -0x7f80_0001
    } else if bits >= 0x8000_0000 {
        -magnitude
    } else {
        magnitude
    }
}

/// The rank key of a score's bit pattern.
pub fn score_order(bits: u32) -> (r: i64)
    ensures
        r == score_key(bits),
{
    let magnitude: u32 = if bits >= 0x8000_0000 { bits - 0x8000_0000 } else { bits };
    if magnitude > 0x7f80_0000 {
        -0x7f80_0001
    } else if bits >= 0x8000_0000 {
        -(magnitude as i64)
    } else {
        magnitude as i64
    }
}

/// Item `i` ranks before item `j`: a higher key, or an equal key and an
/// earlier place in the working set.
pub open spec fn ranks_before(keys: Seq<i64>, i: int, j: int) -> bool {
    keys[i] > keys[j] || (keys[i] == keys[j] && i < j)
}

/// `idx` lists the eligible places of `keys` in rank order, the first
/// `limit` of them, or all of them where there are fewer.
pub open spec fn is_ranking(keys: Seq<i64>, eligible: Seq<bool>, limit: nat, idx: Seq<int>) -> bool {
    &&& idx.len() <= limit
    &&& forall|t: int| 0 <= t < idx.len() ==> 0 <= #[trigger] idx[t] < keys.len() && eligible[idx[t]]
    &&& forall|s: int, t: int| 0 <= s < t < idx.len() ==> ranks_before(keys, #[trigger] idx[s], #[trigger] idx[t])
    &&& forall|k: int| 0 <= k < keys.len() && eligible[k] && !idx.contains(k) ==> {
        &&& idx.len() == limit
        &&& forall|t: int| 0 <= t < idx.len() ==> ranks_before(keys, #[trigger] idx[t], k)
    }
}

/// The places of the `limit` best-ranked eligible items, best first.
pub fn rank_indices(keys: &Vec<i64>, eligible: &Vec<bool>, limit: usize) -> (r: Vec<usize>)
    requires
        keys@.len() == eligible@.len(),
    ensures
        is_ranking(keys@, eligible@, limit as nat, r@.map_values(|i: usize| i as int)),
{
    let n = keys.len();
    let mut taken: Vec<bool> = Vec::new();
    let mut p: usize = 0;
    while p < n
        invariant
            p <= n,
            taken@.len() == p,
            forall|k: int| 0 <= k < p ==> !taken@[k],
        decreases n - p,
    {
        taken.push(false);
        p = p + 1;
    }
    let mut r: Vec<usize> = Vec::new();
    let mut exhausted = false;
    while r.len() < limit && !exhausted
        invariant
            exhausted ==> forall|k: int| 0 <= k < n && eligible@[k] ==> taken@[k],
            n == keys@.len(),
            n == eligible@.len(),
            taken@.len() == n,
            r@.len() <= limit,
            forall|t: int| 0 <= t < r@.len() ==> (#[trigger] r@[t]) < n && eligible@[r@[t] as int] && taken@[r@[t] as int],
            forall|k: int| 0 <= k < n && taken@[k] ==> exists|t: int| 0 <= t < r@.len() && r@[t] == k,
            forall|s: int, t: int| 0 <= s < t < r@.len() ==>
                ranks_before(keys@, #[trigger] r@[s] as int, #[trigger] r@[t] as int),
            forall|k: int, t: int| 0 <= k < n && #[trigger] eligible@[k] && !taken@[k] && 0 <= t < r@.len() ==>
                ranks_before(keys@, #[trigger] r@[t] as int, k),
        decreases limit - r@.len() + (if exhausted { 0int } else { 1int }),
    {
        let mut best: usize = n;
        let mut j: usize = 0;
        while j < n
            invariant
                n == keys@.len(),
                n == eligible@.len(),
                taken@.len() == n,
                j <= n,
                best == n || (best < j && eligible@[best as int] && !taken@[best as int]),
                forall|k: int| 0 <= k < j && eligible@[k] && !taken@[k] ==>
                    best < n && (k == best || ranks_before(keys@, best as int, k)),
            decreases n - j,
        {
            if eligible[j] && !taken[j] {
                if best == n || keys[j] > keys[best] {
                    best = j;
                }
            }
            j = j + 1;
        }
        if best == n {
            exhausted = true;
        } else {
            let ghost r0 = r@;
            r.push(best);
            taken[best] = true;
            proof {
                assert forall|k: int| 0 <= k < n && #[trigger] taken@[k] implies exists|t: int| 0 <= t < r@.len() && r@[t] == k by {
                    if k == best as int {
                        assert(r@[r0.len() as int] == k);
                    } else {
                        let t = choose|t: int| 0 <= t < r0.len() && r0[t] == k;
                        assert(r@[t] == k);
                    }
                }
            }
        }
    }
    proof {
        let idx = r@.map_values(|i: usize| i as int);
        assert forall|k: int| 0 <= k < keys@.len() && eligible@[k] && !idx.contains(k) implies !taken@[k] by {
            if taken@[k] {
                let t = choose|t: int| 0 <= t < r@.len() && r@[t] == k;
                assert(idx[t] == k);
            }
        }
        assert forall|t: int| 0 <= t < idx.len() implies 0 <= #[trigger] idx[t] < keys@.len() && eligible@[idx[t]] by {
            assert(idx[t] == r@[t] as int);
        }
        assert forall|s: int, t: int| 0 <= s < t < idx.len() implies ranks_before(keys@, #[trigger] idx[s], #[trigger] idx[t]) by {
            assert(idx[s] == r@[s] as int);
            assert(idx[t] == r@[t] as int);
        }
        assert forall|k: int| 0 <= k < keys@.len() && eligible@[k] && !idx.contains(k) implies {
            &&& idx.len() == limit
            &&& forall|t: int| 0 <= t < idx.len() ==> ranks_before(keys@, #[trigger] idx[t], k)
        } by {
            assert forall|t: int| 0 <= t < idx.len() implies ranks_before(keys@, #[trigger] idx[t], k) by {
                assert(idx[t] == r@[t] as int);
            }
        }
    }
    r
}

proof fn lemma_ranking_prefix(keys: Seq<i64>, eligible: Seq<bool>, limit: nat, a: Seq<int>, b: Seq<int>, t: int)
    requires
        is_ranking(keys, eligible, limit, a),
        is_ranking(keys, eligible, limit, b),
        0 <= t < a.len(),
        t < b.len(),
        a.take(t) == b.take(t),
    ensures
        a[t] == b[t],
{
    if a[t] != b[t] {
        // a[t] is not among b's first t places, which are a's; so it is in b
        // at a later place or not in b at all, and either way b[t] ranks before it.
        assert(!b.take(t).contains(a[t])) by {
            if b.take(t).contains(a[t]) {
                let s = choose|s: int| 0 <= s < t && b.take(t)[s] == a[t];
                assert(a.take(t)[s] == a[s]);
                assert(ranks_before(keys, a[s], a[t]));
            }
        }
        assert(ranks_before(keys, b[t], a[t])) by {
            if b.contains(a[t]) {
                let u = choose|u: int| 0 <= u < b.len() && b[u] == a[t];
                if u < t {
                    assert(b.take(t)[u] == a[t]);
                }
                assert(u != t);
            }
        }
        assert(!a.take(t).contains(b[t])) by {
            if a.take(t).contains(b[t]) {
                let s = choose|s: int| 0 <= s < t && a.take(t)[s] == b[t];
                assert(b.take(t)[s] == b[s]);
                assert(ranks_before(keys, b[s], b[t]));
            }
        }
        assert(ranks_before(keys, a[t], b[t])) by {
            if a.contains(b[t]) {
                let u = choose|u: int| 0 <= u < a.len() && a[u] == b[t];
                if u < t {
                    assert(a.take(t)[u] == b[t]);
                }
                assert(u != t);
            }
        }
    }
}

proof fn lemma_ranking_agree(keys: Seq<i64>, eligible: Seq<bool>, limit: nat, a: Seq<int>, b: Seq<int>, t: int)
    requires
        is_ranking(keys, eligible, limit, a),
        is_ranking(keys, eligible, limit, b),
        0 <= t <= a.len(),
        t <= b.len(),
    ensures
        a.take(t) == b.take(t),
    decreases t,
{
    if t == 0 {
        assert(a.take(0) =~= b.take(0));
    } else {
        lemma_ranking_agree(keys, eligible, limit, a, b, t - 1);
        lemma_ranking_prefix(keys, eligible, limit, a, b, t - 1);
        assert(a.take(t) =~= a.take(t - 1).push(a[t - 1]));
        assert(b.take(t) =~= b.take(t - 1).push(b[t - 1]));
    }
}

/// A ranking is unique: two lists that both meet `is_ranking` for the same
/// keys, eligibility and limit are equal.
pub proof fn lemma_ranking_unique(keys: Seq<i64>, eligible: Seq<bool>, limit: nat, a: Seq<int>, b: Seq<int>)
    requires
        is_ranking(keys, eligible, limit, a),
        is_ranking(keys, eligible, limit, b),
    ensures
        a == b,
{
    let m = if a.len() <= b.len() { a.len() as int } else { b.len() as int };
    lemma_ranking_agree(keys, eligible, limit, a, b, m);
    if a.len() != b.len() {
        if a.len() < b.len() {
            let k = b[m];
            assert(!a.contains(k)) by {
                if a.contains(k) {
                    let u = choose|u: int| 0 <= u < a.len() && a[u] == k;
                    assert(a.take(m)[u] == b.take(m)[u]);
                    assert(ranks_before(keys, b[u], b[m]));
                }
            }
            assert(a.len() == limit);
        } else {
            let k = a[m];
            assert(!b.contains(k)) by {
                if b.contains(k) {
                    let u = choose|u: int| 0 <= u < b.len() && b[u] == k;
                    assert(a.take(m)[u] == b.take(m)[u]);
                    assert(ranks_before(keys, a[u], a[m]));
                }
            }
            assert(b.len() == limit);
        }
    }
    assert(a.take(m) =~= a);
    assert(b.take(m) =~= b);
}

/// Whether each clip of `working` has an embedding.
pub open spec fn has_embedding(working: Seq<ClipItem>) -> Seq<bool> {
    Seq::new(working.len(), |i: int| working[i].embedding is Some)
}

/// The rank keys of the score bit patterns.
pub open spec fn keys_of(scores: Seq<u32>) -> Seq<i64> {
    Seq::new(scores.len(), |i: int| score_key(scores[i]) as i64)
}

/// The clips of `working` at the places `idx`, in that order.
pub open spec fn pick(working: Seq<ClipItem>, idx: Seq<int>) -> Seq<ClipItem> {
    Seq::new(idx.len(), |t: int| working[idx[t]])
}

/// Ranks the clips of `working` that have an embedding by their score (the
/// bit pattern of the similarity of clip `i` stands at `scores[i]`), highest
/// first, equal scores in working-set order, and keeps the first `limit`.
pub fn rank_by_similarity(working: Vec<ClipItem>, scores: &Vec<u32>, limit: usize) -> (r: Vec<ClipItem>)
    requires
        working@.len() == scores@.len(),
    ensures
        exists|idx: Seq<int>|
            is_ranking(keys_of(scores@), has_embedding(working@), limit as nat, idx)
            && r@ == pick(working@, idx),
{
    let ghost w = working@;
    let n = working.len();
    let mut keys: Vec<i64> = Vec::new();
    let mut eligible: Vec<bool> = Vec::new();
    let mut i: usize = 0;
    while i < n
        invariant
            n == w.len(),
            n == scores@.len(),
            working@ == w,
            i <= n,
            keys@.len() == i,
            eligible@.len() == i,
            forall|k: int| 0 <= k < i ==> keys@[k] == keys_of(scores@)[k],
            forall|k: int| 0 <= k < i ==> eligible@[k] == has_embedding(w)[k],
        decreases n - i,
    {
        keys.push(score_order(scores[i]));
        eligible.push(working[i].embedding.is_some());
        i = i + 1;
    }
    assert(keys@ =~= keys_of(scores@));
    assert(eligible@ =~= has_embedding(w));
    let order = rank_indices(&keys, &eligible, limit);
    let ghost idx = order@.map_values(|i: usize| i as int);

    let mut slots: Vec<Option<ClipItem>> = Vec::new();
    let mut rest = working;
    let ghost mut m: int = 0;
    while rest.len() > 0
        invariant
            0 <= m <= w.len(),
            rest@ == w.skip(m),
            slots@.len() == m,
            forall|k: int| 0 <= k < m ==> slots@[k] == Some(w[k]),
        decreases rest@.len(),
    {
        let c = rest.remove(0);
        slots.push(Some(c));
        proof {
            m = m + 1;
            assert(rest@ =~= w.skip(m));
        }
    }
    assert(m == w.len());

    let mut r: Vec<ClipItem> = Vec::new();
    let mut t: usize = 0;
    while t < order.len()
        invariant
            is_ranking(keys@, eligible@, limit as nat, idx),
            idx == order@.map_values(|i: usize| i as int),
            slots@.len() == w.len(),
            keys@.len() == w.len(),
            t <= order@.len(),
            r@ == pick(w, idx.take(t as int)),
            forall|k: int| 0 <= k < w.len() && !idx.take(t as int).contains(k) ==> slots@[k] == Some(w[k]),
        decreases order@.len() - t,
    {
        let p = order[t];
        assert(idx[t as int] == p as int);
        assert(!idx.take(t as int).contains(p as int)) by {
            if idx.take(t as int).contains(p as int) {
                let s = choose|s: int| 0 <= s < t && idx.take(t as int)[s] == p as int;
                assert(ranks_before(keys@, idx[s], idx[t as int]));
            }
        }
        let c = slots.remove(p);
        slots.insert(p, None);
        match c {
            Some(item) => {
                r.push(item);
            },
            None => {
                assert(false);
            },
        }
        proof {
            assert(idx.take(t + 1) =~= idx.take(t as int).push(p as int));
            assert(r@ =~= pick(w, idx.take(t + 1)));
            assert forall|k: int| 0 <= k < w.len() && !idx.take(t + 1).contains(k) implies slots@[k] == Some(w[k]) by {
                assert(idx.take(t + 1)[t as int] == p as int);
                assert(k != p);
                if idx.take(t as int).contains(k) {
                    let s = choose|s: int| 0 <= s < t && idx.take(t as int)[s] == k;
                    assert(idx.take(t + 1)[s] == k);
                }
            }
        }
        t = t + 1;
    }
    assert(idx.take(order@.len() as int) =~= idx);
    r
}

} // verus!
