//! Choosing the `k` nearest points from their squared distances.
//!
//! Each point `i` comes with the bit pattern `keys[i]` of its squared distance
//! to the query. Squared distances are non-negative (or NaN), and on
//! non-negative `f32` values the order of the bit patterns is the order of the
//! values. Points are ranked by distance and, among equal distances, by their
//! position, which is what a stable sort by distance does.
use vstd::prelude::*;
use vstd::set_lib::*;

verus! {

/// Point `a` ranks before point `b`.
pub open spec fn ranks_before(keys: Seq<u32>, a: int, b: int) -> bool {
    keys[a] < keys[b] || (keys[a] == keys[b] && a < b)
}

pub open spec fn min_nat(a: nat, b: nat) -> nat {
    if a <= b { a } else { b }
}

/// `sel` lists the `min(k, keys.len())` first-ranked points, in rank order.
pub open spec fn is_nearest_selection(keys: Seq<u32>, k: nat, sel: Seq<usize>) -> bool {
    &&& sel.len() == min_nat(k, keys.len())
    &&& forall|i: int| 0 <= i < sel.len() ==> #[trigger] sel[i] < keys.len()
    &&& forall|i: int, j: int|
        0 <= i < j < sel.len() ==> ranks_before(keys, #[trigger] sel[i] as int, #[trigger] sel[j] as int)
    &&& forall|i: int, m: int|
        0 <= i < sel.len() && 0 <= m < keys.len() && !sel.contains(m as usize)
            ==> #[trigger] ranks_before(keys, sel[i] as int, m)
}

/// Points are ranked by their full key (the squared distance), and among
/// equal keys by position.
pub proof fn lemma_ranking_follows_keys(keys: Seq<u32>, a: int, b: int)
    ensures
        keys[a] < keys[b] ==> ranks_before(keys, a, b),
        keys[b] < keys[a] ==> !ranks_before(keys, a, b),
        keys[a] == keys[b] ==> (ranks_before(keys, a, b) <==> a < b),
{
}

/// A selection of the `k` nearest lists `min(k, n)` positions in order of
/// nondecreasing key, equal keys in position order, and no position left out
/// is nearer than a chosen one (or as near and earlier).
pub proof fn lemma_selection_by_key(keys: Seq<u32>, k: nat, sel: Seq<usize>)
    requires
        is_nearest_selection(keys, k, sel),
    ensures
        sel.len() == (if k <= keys.len() { k } else { keys.len() }),
        forall|i: int| 0 <= i < sel.len() ==> #[trigger] sel[i] < keys.len(),
        forall|i: int, j: int| 0 <= i < j < sel.len() ==>
            keys[#[trigger] sel[i] as int] < keys[#[trigger] sel[j] as int]
            || (keys[sel[i] as int] == keys[sel[j] as int] && sel[i] < sel[j]),
        forall|i: int, m: int| #![trigger sel[i], keys[m]]
            0 <= i < sel.len() && 0 <= m < keys.len() && !sel.contains(m as usize) ==>
            keys[sel[i] as int] < keys[m] || (keys[sel[i] as int] == keys[m] && sel[i] < m),
{
    assert forall|i: int, m: int| #![trigger sel[i], keys[m]]
        0 <= i < sel.len() && 0 <= m < keys.len() && !sel.contains(m as usize) implies
        keys[sel[i] as int] < keys[m] || (keys[sel[i] as int] == keys[m] && sel[i] < m) by {
        assert(ranks_before(keys, sel[i] as int, m));
    }
    assert forall|i: int, j: int| 0 <= i < j < sel.len() implies
        keys[#[trigger] sel[i] as int] < keys[#[trigger] sel[j] as int]
        || (keys[sel[i] as int] == keys[sel[j] as int] && sel[i] < sel[j]) by {
        assert(ranks_before(keys, sel[i] as int, sel[j] as int));
    }
}

/// The ranking is a strict total order on the positions.
proof fn lemma_ranks_total(keys: Seq<u32>, a: int, b: int)
    ensures
        a != b ==> ranks_before(keys, a, b) || ranks_before(keys, b, a),
        !(ranks_before(keys, a, b) && ranks_before(keys, b, a)),
        !ranks_before(keys, a, a),
{
}

/// The `k` nearest points are determined: two selections that both list the
/// first-ranked points in rank order are the same sequence.
pub proof fn lemma_nearest_selection_unique(keys: Seq<u32>, k: nat, s1: Seq<usize>, s2: Seq<usize>)
    requires
        is_nearest_selection(keys, k, s1),
        is_nearest_selection(keys, k, s2),
    ensures
        s1 == s2,
{
    assert forall|i: int| 0 <= i < s1.len() implies s1[i] == s2[i] by {
        lemma_selection_agrees_at(keys, k, s1, s2, i);
    }
    assert(s1 =~= s2);
}

proof fn lemma_selection_agrees_at(keys: Seq<u32>, k: nat, s1: Seq<usize>, s2: Seq<usize>, i: int)
    requires
        is_nearest_selection(keys, k, s1),
        is_nearest_selection(keys, k, s2),
        0 <= i < s1.len(),
    ensures
        s1[i] == s2[i],
    decreases i,
{
    let a = s1[i];
    let b = s2[i];
    if a != b {
        // The earlier entries agree.
        assert forall|p: int| 0 <= p < i implies s1[p] == s2[p] by {
            lemma_selection_agrees_at(keys, k, s1, s2, p);
        }
        lemma_ranks_total(keys, a as int, b as int);
        if ranks_before(keys, a as int, b as int) {
            lemma_agreeing_prefix_next_not_before(keys, k, s1, s2, i);
        } else {
            lemma_agreeing_prefix_next_not_before(keys, k, s2, s1, i);
        }
    }
}

/// If the first `i` entries agree, `s1[i]` does not rank before `s2[i]`.
proof fn lemma_agreeing_prefix_next_not_before(keys: Seq<u32>, k: nat, s1: Seq<usize>, s2: Seq<usize>, i: int)
    requires
        is_nearest_selection(keys, k, s1),
        is_nearest_selection(keys, k, s2),
        0 <= i < s1.len(),
        forall|p: int| 0 <= p < i ==> s1[p] == s2[p],
    ensures
        !ranks_before(keys, s1[i] as int, s2[i] as int),
{
    let a = s1[i];
    let b = s2[i];
    lemma_ranks_total(keys, a as int, b as int);
    if !ranks_before(keys, a as int, b as int) {
    } else if s2.contains(a) {
        let p = choose|p: int| 0 <= p < s2.len() && s2[p] == a;
        if p < i {
            assert(s1[p] == a);
            assert(ranks_before(keys, s1[p] as int, s1[i] as int));
            lemma_ranks_total(keys, a as int, a as int);
        } else if p == i {
        } else {
            assert(ranks_before(keys, s2[i] as int, s2[p] as int));
        }
    } else {
        assert(ranks_before(keys, s2[i] as int, a as int));
    }
}

fn ranks_before_exec(keys: &Vec<u32>, a: usize, b: usize) -> (r: bool)
    requires
        a < keys@.len(),
        b < keys@.len(),
    ensures
        r == ranks_before(keys@, a as int, b as int),
{
    keys[a] < keys[b] || (keys[a] == keys[b] && a < b)
}

/// The `k` nearest positions, as fixed by `is_nearest_selection`.
pub open spec fn nearest_selection(keys: Seq<u32>, k: nat) -> Seq<usize> {
    choose|sel: Seq<usize>| is_nearest_selection(keys, k, sel)
}

/// `s` lists positions strictly in rank order.
pub open spec fn rank_sorted(keys: Seq<u32>, s: Seq<usize>) -> bool {
    forall|p: int, q: int| 0 <= p < q < s.len() ==> ranks_before(keys, #[trigger] s[p] as int, #[trigger] s[q] as int)
}

/// `s` lists exactly the positions `lo .. hi`, in rank order.
pub open spec fn sorted_range(keys: Seq<u32>, s: Seq<usize>, lo: int, hi: int) -> bool {
    &&& s.len() == hi - lo
    &&& rank_sorted(keys, s)
    &&& forall|i: int| 0 <= i < s.len() ==> lo <= #[trigger] s[i] < hi
    &&& forall|m: int| lo <= m < hi ==> #[trigger] s.contains(m as usize)
}

proof fn lemma_push_contains(s: Seq<usize>, v: usize, x: usize)
    ensures
        s.push(v).contains(x) <==> (s.contains(x) || x == v),
{
    if s.push(v).contains(x) {
        let p = choose|p: int| 0 <= p < s.push(v).len() && s.push(v)[p] == x;
        if p < s.len() {
            assert(s[p] == x);
        }
    }
    if s.contains(x) {
        let p = choose|p: int| 0 <= p < s.len() && s[p] == x;
        assert(s.push(v)[p] == x);
    }
    assert(s.push(v)[s.len() as int] == v);
}

/// Merges two rank-sorted, disjoint lists of positions into one.
fn merge_ranked(keys: &Vec<u32>, a: Vec<usize>, b: Vec<usize>) -> (r: Vec<usize>)
    requires
        rank_sorted(keys@, a@),
        rank_sorted(keys@, b@),
        forall|i: int| 0 <= i < a@.len() ==> #[trigger] a@[i] < keys@.len(),
        forall|j: int| 0 <= j < b@.len() ==> #[trigger] b@[j] < keys@.len(),
        forall|i: int, j: int| 0 <= i < a@.len() && 0 <= j < b@.len() ==> #[trigger] a@[i] != #[trigger] b@[j],
    ensures
        r@.len() == a@.len() + b@.len(),
        rank_sorted(keys@, r@),
        forall|x: usize| #[trigger] r@.contains(x) <==> (a@.contains(x) || b@.contains(x)),
{
    let mut out: Vec<usize> = Vec::new();
    let mut i: usize = 0;
    let mut j: usize = 0;
    assert(a@.take(0) =~= Seq::<usize>::empty());
    assert(b@.take(0) =~= Seq::<usize>::empty());
    while i < a.len() || j < b.len()
        invariant
            rank_sorted(keys@, a@),
            rank_sorted(keys@, b@),
            forall|t: int| 0 <= t < a@.len() ==> #[trigger] a@[t] < keys@.len(),
            forall|t: int| 0 <= t < b@.len() ==> #[trigger] b@[t] < keys@.len(),
            forall|s: int, t: int| 0 <= s < a@.len() && 0 <= t < b@.len() ==> #[trigger] a@[s] != #[trigger] b@[t],
            i <= a@.len(),
            j <= b@.len(),
            out@.len() == i + j,
            rank_sorted(keys@, out@),
            forall|x: usize| #[trigger] out@.contains(x) <==> (a@.take(i as int).contains(x) || b@.take(j as int).contains(x)),
            i < a@.len() ==> forall|p: int| 0 <= p < out@.len() ==> ranks_before(keys@, #[trigger] out@[p] as int, a@[i as int] as int),
            j < b@.len() ==> forall|p: int| 0 <= p < out@.len() ==> ranks_before(keys@, #[trigger] out@[p] as int, b@[j as int] as int),
        decreases a@.len() + b@.len() - i - j,
    {
        let take_a = if i == a.len() {
            false
        } else if j == b.len() {
            true
        } else {
            ranks_before_exec(keys, a[i], b[j])
        };
        let ghost old_out = out@;
        if take_a {
            let v = a[i];
            proof {
                if j < b@.len() {
                    lemma_ranks_total(keys@, v as int, b@[j as int] as int);
                }
            }
            out.push(v);
            proof {
                assert(a@.take(i + 1) =~= a@.take(i as int).push(v));
                assert forall|x: usize| #[trigger] out@.contains(x) <==> (a@.take(i + 1).contains(x) || b@.take(j as int).contains(x)) by {
                    lemma_push_contains(old_out, v, x);
                    lemma_push_contains(a@.take(i as int), v, x);
                }
                if i + 1 < a@.len() {
                    assert(ranks_before(keys@, a@[i as int] as int, a@[i + 1] as int));
                    assert forall|p: int| 0 <= p < out@.len() implies ranks_before(keys@, #[trigger] out@[p] as int, a@[i + 1] as int) by {
                        if p < old_out.len() {
                            assert(ranks_before(keys@, old_out[p] as int, v as int));
                        }
                    }
                }
                if j < b@.len() {
                    assert forall|p: int| 0 <= p < out@.len() implies ranks_before(keys@, #[trigger] out@[p] as int, b@[j as int] as int) by {
                        if p < old_out.len() {
                            assert(ranks_before(keys@, old_out[p] as int, b@[j as int] as int));
                        }
                    }
                }
            }
            i = i + 1;
        } else {
            let v = b[j];
            proof {
                if i < a@.len() {
                    lemma_ranks_total(keys@, v as int, a@[i as int] as int);
                    assert(a@[i as int] != v);
                }
            }
            out.push(v);
            proof {
                assert(b@.take(j + 1) =~= b@.take(j as int).push(v));
                assert forall|x: usize| #[trigger] out@.contains(x) <==> (a@.take(i as int).contains(x) || b@.take(j + 1).contains(x)) by {
                    lemma_push_contains(old_out, v, x);
                    lemma_push_contains(b@.take(j as int), v, x);
                }
                if j + 1 < b@.len() {
                    assert(ranks_before(keys@, b@[j as int] as int, b@[j + 1] as int));
                    assert forall|p: int| 0 <= p < out@.len() implies ranks_before(keys@, #[trigger] out@[p] as int, b@[j + 1] as int) by {
                        if p < old_out.len() {
                            assert(ranks_before(keys@, old_out[p] as int, v as int));
                        }
                    }
                }
                if i < a@.len() {
                    assert forall|p: int| 0 <= p < out@.len() implies ranks_before(keys@, #[trigger] out@[p] as int, a@[i as int] as int) by {
                        if p < old_out.len() {
                            assert(ranks_before(keys@, old_out[p] as int, a@[i as int] as int));
                        }
                    }
                }
            }
            j = j + 1;
        }
    }
    assert(a@.take(a@.len() as int) =~= a@);
    assert(b@.take(b@.len() as int) =~= b@);
    out
}

/// The positions `lo .. hi`, sorted by rank (a merge sort).
fn sort_range(keys: &Vec<u32>, lo: usize, hi: usize) -> (r: Vec<usize>)
    requires
        lo <= hi <= keys@.len(),
    ensures
        sorted_range(keys@, r@, lo as int, hi as int),
    decreases hi - lo,
{
    if hi - lo <= 1 {
        let mut r: Vec<usize> = Vec::new();
        if hi > lo {
            r.push(lo);
            assert(r@[0] == lo);
        }
        return r;
    }
    let mid = lo + (hi - lo) / 2;
    let a = sort_range(keys, lo, mid);
    let b = sort_range(keys, mid, hi);
    let ghost av = a@;
    let ghost bv = b@;
    let r = merge_ranked(keys, a, b);
    proof {
        assert forall|i: int| 0 <= i < r@.len() implies lo <= #[trigger] r@[i] < hi by {
            assert(r@.contains(r@[i]));
            if av.contains(r@[i]) {
                let p = choose|p: int| 0 <= p < av.len() && av[p] == r@[i];
                assert(lo <= av[p] < mid);
            } else {
                let p = choose|p: int| 0 <= p < bv.len() && bv[p] == r@[i];
                assert(mid <= bv[p] < hi);
            }
        }
        assert forall|m: int| lo <= m < hi implies #[trigger] r@.contains(m as usize) by {
            if m < mid {
                assert(av.contains(m as usize));
            } else {
                assert(bv.contains(m as usize));
            }
        }
    }
    r
}

/// The positions of the `k` nearest points, nearest first, ties broken by
/// position; all the points when there are at most `k`.
pub fn select_nearest(keys: &Vec<u32>, k: usize) -> (sel: Vec<usize>)
    ensures
        is_nearest_selection(keys@, k as nat, sel@),
        sel@ == nearest_selection(keys@, k as nat),
        sel@.len() == (if k <= keys@.len() { k as int } else { keys@.len() as int }),
        forall|i: int, j: int| 0 <= i < j < sel@.len() ==>
            keys@[#[trigger] sel@[i] as int] < keys@[#[trigger] sel@[j] as int]
            || (keys@[sel@[i] as int] == keys@[sel@[j] as int] && sel@[i] < sel@[j]),
        forall|i: int, m: int| #![trigger sel@[i], keys@[m]]
            0 <= i < sel@.len() && 0 <= m < keys@.len() && !sel@.contains(m as usize) ==>
            keys@[sel@[i] as int] < keys@[m] || (keys@[sel@[i] as int] == keys@[m] && sel@[i] < m),
{
    let n = keys.len();
    let target = if k < n { k } else { n };
    let mut sel = sort_range(keys, 0, n);
    let ghost sorted = sel@;
    sel.truncate(target);
    proof {
        assert(sel@ =~= sorted.subrange(0, target as int));
        assert forall|i: int, m: int|
            0 <= i < sel@.len() && 0 <= m < n && !sel@.contains(m as usize)
                implies #[trigger] ranks_before(keys@, sel@[i] as int, m) by {
            assert(sorted.contains(m as usize));
            let p = choose|p: int| 0 <= p < sorted.len() && sorted[p] == m as usize;
            if p < target {
                assert(sel@[p] == m as usize);
            }
            assert(ranks_before(keys@, sorted[i] as int, sorted[p] as int));
        }
        assert forall|i: int, j: int| 0 <= i < j < sel@.len() implies
            ranks_before(keys@, #[trigger] sel@[i] as int, #[trigger] sel@[j] as int) by {
            assert(ranks_before(keys@, sorted[i] as int, sorted[j] as int));
        }
        assert(is_nearest_selection(keys@, k as nat, sel@));
        lemma_nearest_selection_unique(keys@, k as nat, sel@, nearest_selection(keys@, k as nat));
        lemma_selection_by_key(keys@, k as nat, sel@);
    }
    sel
}

/// Asking for fewer nearest points gives a prefix of the answer for more.
pub proof fn lemma_nearest_selection_prefix(keys: Seq<u32>, k1: nat, k2: nat, s1: Seq<usize>, s2: Seq<usize>)
    requires
        keys.len() <= usize::MAX,
        k1 <= k2,
        is_nearest_selection(keys, k1, s1),
        is_nearest_selection(keys, k2, s2),
    ensures
        s1 == s2.take(min_nat(k1, keys.len()) as int),
{
    let t = s2.take(min_nat(k1, keys.len()) as int);
    assert forall|i: int, m: int|
        0 <= i < t.len() && 0 <= m < keys.len() && !t.contains(m as usize)
            implies #[trigger] ranks_before(keys, t[i] as int, m) by {
        if s2.contains(m as usize) {
            let p = choose|p: int| 0 <= p < s2.len() && s2[p] == m as usize;
            if p < t.len() {
                assert(t[p] == m as usize);
            }
            assert(ranks_before(keys, s2[i] as int, s2[p] as int));
        } else {
            assert(ranks_before(keys, s2[i] as int, m));
        }
    }
    assert forall|i: int, j: int| 0 <= i < j < t.len() implies
        ranks_before(keys, #[trigger] t[i] as int, #[trigger] t[j] as int) by {
        assert(ranks_before(keys, s2[i] as int, s2[j] as int));
    }
    assert(is_nearest_selection(keys, k1, t));
    lemma_nearest_selection_unique(keys, k1, s1, t);
}

} // verus!
