//! Selection and ranking over scores.
//!
//! A score is the order code of a performance: a larger score means a better
//! performance, equal scores mean equal performances. Ties are always broken
//! in favour of the earlier position, that is the earlier observation.
use vstd::prelude::*;

verus! {

/// Position `i` ranks before position `j`: a higher score, or the same score
/// and an earlier position.
pub open spec fn ranks_before(s: Seq<u64>, i: int, j: int) -> bool {
    s[i] > s[j] || (s[i] == s[j] && i < j)
}

/// `i` holds the highest score of `s`, and is the earliest such position.
pub open spec fn is_best(s: Seq<u64>, i: int) -> bool {
    &&& 0 <= i < s.len()
    &&& forall|k: int| 0 <= k < s.len() ==> #[trigger] s[k] <= s[i]
    &&& forall|k: int| 0 <= k < i ==> #[trigger] s[k] < s[i]
}

/// `i` holds the lowest value of `d`, and is the earliest such position.
pub open spec fn is_nearest(d: Seq<u64>, i: int) -> bool {
    &&& 0 <= i < d.len()
    &&& forall|k: int| 0 <= k < d.len() ==> #[trigger] d[k] >= d[i]
    &&& forall|k: int| 0 <= k < i ==> #[trigger] d[k] > d[i]
}

/// Position `x` occurs in `r`.
pub open spec fn lists(r: Seq<usize>, x: int) -> bool {
    exists|a: int| 0 <= a < r.len() && r[a] as int == x
}

/// `r` lists every position of `s` exactly once, each ranking before all
/// that follow it.
pub open spec fn is_ranking(s: Seq<u64>, r: Seq<usize>) -> bool {
    &&& r.len() == s.len()
    &&& forall|a: int| 0 <= a < r.len() ==> #[trigger] r[a] < s.len()
    &&& forall|x: int| 0 <= x < s.len() ==> #[trigger] lists(r, x)
    &&& forall|a: int, b: int|
        0 <= a < b < r.len() ==> ranks_before(s, #[trigger] r[a] as int, #[trigger] r[b] as int)
}

/// Whether the pass swaps the pair at `i` and `i + 1`: a missing decision
/// keeps the pair as it is.
pub open spec fn flip_at(flips: Seq<bool>, i: int) -> bool {
    0 <= i < flips.len() && flips[i]
}

/// The sequence after the first `k` steps of one forward pass over adjacent
/// pairs: step `i` swaps the items at `i` and `i + 1` when `flip_at(flips, i)`.
pub open spec fn swap_pass<A>(r: Seq<A>, flips: Seq<bool>, k: nat) -> Seq<A>
    decreases k,
{
    if k == 0 {
        r
    } else {
        let t = swap_pass(r, flips, (k - 1) as nat);
        let i = k - 1;
        if i + 1 < t.len() && flip_at(flips, i) {
            t.update(i, t[i + 1]).update(i + 1, t[i])
        } else {
            t
        }
    }
}

/// The sequence after one complete forward pass over its adjacent pairs.
pub open spec fn perturbed<A>(r: Seq<A>, flips: Seq<bool>) -> Seq<A> {
    swap_pass(r, flips, if r.len() > 0 { (r.len() - 1) as nat } else { 0 })
}

/// A pass keeps the length of the sequence.
pub proof fn lemma_swap_pass_len<A>(r: Seq<A>, flips: Seq<bool>, k: nat)
    ensures
        swap_pass(r, flips, k).len() == r.len(),
    decreases k,
{
    if k > 0 {
        lemma_swap_pass_len(r, flips, (k - 1) as nat);
    }
}

/// A pass in which no pair is swapped leaves the sequence as it was.
pub proof fn lemma_swap_pass_calm<A>(r: Seq<A>, flips: Seq<bool>, k: nat)
    requires
        forall|i: int| 0 <= i < flips.len() ==> !flips[i],
    ensures
        swap_pass(r, flips, k) == r,
    decreases k,
{
    if k > 0 {
        lemma_swap_pass_calm(r, flips, (k - 1) as nat);
    }
}

/// Two rankings of the same scores are the same sequence.
pub proof fn lemma_ranking_unique(s: Seq<u64>, r1: Seq<usize>, r2: Seq<usize>)
    requires
        is_ranking(s, r1),
        is_ranking(s, r2),
    ensures
        r1 == r2,
{
    assert forall|k: int| 0 <= k < r1.len() implies r1[k] == r2[k] by {
        lemma_ranking_agree_upto(s, r1, r2, k);
    }
    assert(r1 =~= r2);
}

proof fn lemma_ranking_agree_upto(s: Seq<u64>, r1: Seq<usize>, r2: Seq<usize>, k: int)
    requires
        is_ranking(s, r1),
        is_ranking(s, r2),
        0 <= k < r1.len(),
    ensures
        forall|m: int| 0 <= m <= k ==> r1[m] == r2[m],
    decreases k,
{
    if k > 0 {
        lemma_ranking_agree_upto(s, r1, r2, k - 1);
    }
    let x = r1[k];
    let y = r2[k];
    assert(r1[k] < s.len());
    assert(r2[k] < s.len());
    assert(lists(r2, x as int));
    assert(lists(r1, y as int));
    let p = choose|a: int| 0 <= a < r2.len() && r2[a] as int == x as int;
    let q = choose|a: int| 0 <= a < r1.len() && r1[a] as int == y as int;
    if p < k {
        assert(r1[p] == r2[p]);
        assert(ranks_before(s, r1[p] as int, r1[k] as int));
    }
    if q < k {
        assert(r1[q] == r2[q]);
        assert(ranks_before(s, r2[q] as int, r2[k] as int));
    }
    if p > k {
        assert(ranks_before(s, r2[k] as int, r2[p] as int));
        if q > k {
            assert(ranks_before(s, r1[k] as int, r1[q] as int));
        }
    }
}

/// `i` is what the exploitation selector picks from scores `s` with swap
/// decisions `flips`: the head of the ranking of `s` after one pass.
pub open spec fn selected(s: Seq<u64>, flips: Seq<bool>, i: int) -> bool {
    exists|r: Seq<usize>| is_ranking(s, r) && i == perturbed(r, flips)[0] as int
}

/// The selector is a function of the scores and the swap decisions: it
/// never has two possible picks.
pub proof fn lemma_selection_unique(s: Seq<u64>, flips: Seq<bool>, i: int, j: int)
    requires
        selected(s, flips, i),
        selected(s, flips, j),
    ensures
        i == j,
{
    let r1 = choose|r: Seq<usize>| is_ranking(s, r) && i == perturbed(r, flips)[0] as int;
    let r2 = choose|r: Seq<usize>| is_ranking(s, r) && j == perturbed(r, flips)[0] as int;
    lemma_ranking_unique(s, r1, r2);
}

/// The first position of a ranking is the best one.
pub proof fn lemma_ranking_head_is_best(s: Seq<u64>, r: Seq<usize>)
    requires
        is_ranking(s, r),
        s.len() > 0,
    ensures
        is_best(s, r[0] as int),
{
    assert forall|k: int| 0 <= k < s.len() implies #[trigger] s[k] <= s[r[0] as int] && (k < r[0]
        ==> s[k] < s[r[0] as int]) by {
        assert(lists(r, k));
        let a = choose|a: int| 0 <= a < r.len() && r[a] as int == k;
        if a > 0 {
            assert(ranks_before(s, r[0] as int, r[a] as int));
        }
    }
}

/// Without a single swap, the selector picks the best observation: the one
/// with the highest score, the earliest among equals.
pub proof fn lemma_calm_selection_is_best(s: Seq<u64>, flips: Seq<bool>, i: int)
    requires
        s.len() > 0,
        forall|k: int| 0 <= k < flips.len() ==> !flips[k],
        selected(s, flips, i),
    ensures
        is_best(s, i),
{
    let r = choose|r: Seq<usize>| is_ranking(s, r) && i == perturbed(r, flips)[0] as int;
    lemma_swap_pass_calm(r, flips, (r.len() - 1) as nat);
    lemma_ranking_head_is_best(s, r);
}

/// The position of the highest score, the earliest among equals; `None`
/// when `s` is empty.
pub fn best_position(s: &Vec<u64>) -> (r: Option<usize>)
    ensures
        r is None <==> s@.len() == 0,
        r matches Some(i) ==> is_best(s@, i as int),
{
    if s.len() == 0 {
        return None;
    }
    let mut best: usize = 0;
    let mut k: usize = 1;
    while k < s.len()
        invariant
            1 <= k <= s@.len(),
            best < k,
            forall|m: int| 0 <= m < k ==> #[trigger] s@[m] <= s@[best as int],
            forall|m: int| 0 <= m < best ==> #[trigger] s@[m] < s@[best as int],
        decreases s@.len() - k,
    {
        if s[k] > s[best] {
            best = k;
        }
        k = k + 1;
    }
    Some(best)
}

/// The position of the lowest value, the earliest among equals; `None` when
/// `d` is empty.
pub fn nearest_position(d: &Vec<u64>) -> (r: Option<usize>)
    ensures
        r is None <==> d@.len() == 0,
        r matches Some(i) ==> is_nearest(d@, i as int),
{
    if d.len() == 0 {
        return None;
    }
    let mut near: usize = 0;
    let mut k: usize = 1;
    while k < d.len()
        invariant
            1 <= k <= d@.len(),
            near < k,
            forall|m: int| 0 <= m < k ==> #[trigger] d@[m] >= d@[near as int],
            forall|m: int| 0 <= m < near ==> #[trigger] d@[m] > d@[near as int],
        decreases d@.len() - k,
    {
        if d[k] < d[near] {
            near = k;
        }
        k = k + 1;
    }
    Some(near)
}

/// The positions of `s` ordered by descending score, equal scores in order
/// of position.
pub fn rank(s: &Vec<u64>) -> (r: Vec<usize>)
    ensures
        is_ranking(s@, r@),
{
    let n = s.len();
    let mut r: Vec<usize> = Vec::with_capacity(n);
    let mut x: usize = 0;
    while x < n
        invariant
            n == s@.len(),
            x <= n,
            r@.len() == x,
            forall|a: int| 0 <= a < r@.len() ==> #[trigger] r@[a] < x,
            forall|y: int| 0 <= y < x ==> #[trigger] lists(r@, y),
            forall|a: int, b: int|
                0 <= a < b < r@.len() ==> ranks_before(s@, #[trigger] r@[a] as int, #[trigger] r@[b] as int),
        decreases n - x,
    {
        let mut p: usize = 0;
        while p < r.len() && s[r[p]] >= s[x]
            invariant
                n == s@.len(),
                x < n,
                p <= r@.len(),
                forall|a: int| 0 <= a < r@.len() ==> #[trigger] r@[a] < x,
                forall|a: int| 0 <= a < p ==> s@[#[trigger] r@[a] as int] >= s@[x as int],
            decreases r@.len() - p,
        {
            p = p + 1;
        }
        let ghost old_r = r@;
        r.insert(p, x);
        proof {
            assert(r@ == old_r.insert(p as int, x));
            assert forall|a: int| 0 <= a < r@.len() implies #[trigger] r@[a] < x + 1 by {
                if a < p {
                    assert(r@[a] == old_r[a]);
                } else if a > p {
                    assert(r@[a] == old_r[a - 1]);
                }
            }
            assert forall|y: int| 0 <= y < x + 1 implies #[trigger] lists(r@, y) by {
                if y == x {
                    assert(r@[p as int] == x);
                } else {
                    assert(lists(old_r, y));
                    let a = choose|a: int| 0 <= a < old_r.len() && old_r[a] as int == y;
                    if a < p {
                        assert(r@[a] == old_r[a]);
                    } else {
                        assert(r@[a + 1] == old_r[a]);
                    }
                }
            }
            assert forall|a: int, b: int| 0 <= a < b < r@.len() implies ranks_before(
                s@,
                #[trigger] r@[a] as int,
                #[trigger] r@[b] as int,
            ) by {
                if b < p {
                    assert(r@[a] == old_r[a] && r@[b] == old_r[b]);
                } else if b == p {
                    assert(r@[a] == old_r[a]);
                    assert(s@[old_r[a] as int] >= s@[x as int]);
                } else if a > p {
                    assert(r@[a] == old_r[a - 1] && r@[b] == old_r[b - 1]);
                } else if a == p {
                    assert(r@[b] == old_r[b - 1]);
                    assert(s@[old_r[p as int] as int] < s@[x as int]);
                    if b - 1 > p {
                        assert(ranks_before(s@, old_r[p as int] as int, old_r[b - 1] as int));
                    }
                } else {
                    assert(r@[a] == old_r[a] && r@[b] == old_r[b - 1]);
                }
            }
        }
        x = x + 1;
    }
    r
}

/// One forward pass over the adjacent pairs of `r`: the pair at `i` and
/// `i + 1` is swapped when `flips[i]` is true, and kept when it is false or
/// missing.
pub fn adjacent_pass<A: Copy>(r: &mut Vec<A>, flips: &Vec<bool>)
    ensures
        final(r)@ == perturbed(old(r)@, flips@),
{
    let ghost orig = r@;
    let n = r.len();
    if n == 0 {
        return;
    }
    let mut i: usize = 0;
    while i + 1 < n
        invariant
            n == orig.len(),
            n > 0,
            i + 1 <= n,
            r@ == swap_pass(orig, flips@, i as nat),
        decreases n - i,
    {
        proof {
            lemma_swap_pass_len(orig, flips@, i as nat);
        }
        if i < flips.len() && flips[i] {
            let a = r[i];
            let b = r[i + 1];
            r.set(i, b);
            r.set(i + 1, a);
        }
        i = i + 1;
        proof {
            assert(r@ =~= swap_pass(orig, flips@, i as nat));
        }
    }
}

/// The exploitation target among scores `s`: rank them, make one pass of
/// swaps as `flips` decides, and take the head. `None` when `s` is empty.
pub fn select(s: &Vec<u64>, flips: &Vec<bool>) -> (r: Option<usize>)
    ensures
        r is None <==> s@.len() == 0,
        r matches Some(i) ==> selected(s@, flips@, i as int),
{
    if s.len() == 0 {
        return None;
    }
    let mut order = rank(s);
    let ghost ranking = order@;
    adjacent_pass(&mut order, flips);
    proof {
        lemma_swap_pass_len(ranking, flips@, (ranking.len() - 1) as nat);
    }
    let top = order[0];
    proof {
        assert(is_ranking(s@, ranking) && top as int == perturbed(ranking, flips@)[0] as int);
    }
    Some(top)
}

} // verus!
