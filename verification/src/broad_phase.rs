//! Sweep and prune over interval endpoints, and the canonical form of the
//! pair list it produces.
//!
//! Endpoints arrive already sorted along the chosen axis (a floating-point
//! sort done outside this module); each is an entry index and whether it
//! opens (`true`) or closes (`false`) that entry's interval. Testing the
//! boxes of a candidate pair for overlap is floating-point work done outside
//! as well.

use vstd::prelude::*;

verus! {

/// Entries whose interval is open after the first `k` endpoints: opened and
/// not closed since.
pub open spec fn open_after(e: Seq<(usize, bool)>, k: int) -> Set<usize>
    decreases k,
{
    if k <= 0 {
        Set::empty()
    } else {
        let prev = open_after(e, k - 1);
        let (x, opens) = e[k - 1];
        if opens {
            prev.insert(x)
        } else {
            prev.remove(x)
        }
    }
}

/// A pair written with the smaller index first.
pub open spec fn ordered_pair(a: usize, b: usize) -> (usize, usize) {
    if a <= b {
        (a, b)
    } else {
        (b, a)
    }
}

/// The pairs `x` forms with the other members of `open`.
pub open spec fn pairs_with(open: Set<usize>, x: usize) -> Set<(usize, usize)> {
    Set::new(|p: (usize, usize)| exists|y: usize| #[trigger] open.contains(y) && y != x && p == ordered_pair(x, y))
}

/// The pairs met by the sweep over the first `k` endpoints: whenever an
/// interval opens, it pairs with every other interval open at that moment.
pub open spec fn swept_pairs(e: Seq<(usize, bool)>, k: int) -> Set<(usize, usize)>
    decreases k,
{
    if k <= 0 {
        Set::empty()
    } else {
        let prev = swept_pairs(e, k - 1);
        let (x, opens) = e[k - 1];
        if opens {
            prev.union(pairs_with(open_after(e, k - 1), x))
        } else {
            prev
        }
    }
}

proof fn lemma_pairs_with_insert(s: Set<usize>, y: usize, x: usize)
    ensures
        pairs_with(s.insert(y), x) == (if y != x {
            pairs_with(s, x).insert(ordered_pair(x, y))
        } else {
            pairs_with(s, x)
        }),
{
    let lhs = pairs_with(s.insert(y), x);
    let rhs = if y != x { pairs_with(s, x).insert(ordered_pair(x, y)) } else { pairs_with(s, x) };
    assert forall|q: (usize, usize)| #[trigger] lhs.contains(q) <==> rhs.contains(q) by {
        if lhs.contains(q) {
            let z = choose|z: usize| #[trigger] s.insert(y).contains(z) && z != x && q == ordered_pair(x, z);
            if z != y {
                assert(s.contains(z));
            }
        }
        if pairs_with(s, x).contains(q) {
            let z = choose|z: usize| #[trigger] s.contains(z) && z != x && q == ordered_pair(x, z);
            assert(s.insert(y).contains(z));
        }
        if y != x && q == ordered_pair(x, y) {
            assert(s.insert(y).contains(y));
        }
    }
    assert(lhs =~= rhs);
}

/// `v` without any occurrence of `x`.
fn without(v: &Vec<usize>, x: usize) -> (r: Vec<usize>)
    ensures
        r@.to_set() == v@.to_set().remove(x),
{
    let mut r: Vec<usize> = Vec::new();
    let mut i: usize = 0;
    while i < v.len()
        invariant
            i <= v.len(),
            r@.to_set() == v@.take(i as int).to_set().remove(x),
        decreases v.len() - i,
    {
        let ghost before = r@;
        proof {
            assert(v@.take(i + 1) =~= v@.take(i as int).push(v@[i as int]));
            v@.take(i as int).lemma_push_to_set_commute(v@[i as int]);
        }
        if v[i] != x {
            r.push(v[i]);
            proof {
                before.lemma_push_to_set_commute(v@[i as int]);
                assert(r@.to_set() =~= v@.take(i + 1).to_set().remove(x));
            }
        } else {
            proof {
                assert(r@.to_set() =~= v@.take(i + 1).to_set().remove(x));
            }
        }
        i = i + 1;
    }
    proof {
        assert(v@.take(v.len() as int) =~= v@);
    }
    r
}

/// The candidate pairs of a sweep over sorted endpoints: each pair of entries
/// whose intervals are both open at the moment the later one opens, smaller
/// index first (a pair may be listed more than once).
pub fn sweep_candidates(endpoints: &Vec<(usize, bool)>) -> (pairs: Vec<(usize, usize)>)
    ensures
        pairs@.to_set() == swept_pairs(endpoints@, endpoints@.len() as int),
        forall|k: int| 0 <= k < pairs@.len() ==> (#[trigger] pairs@[k]).0 < pairs@[k].1,
{
    let ghost e = endpoints@;
    let mut pairs: Vec<(usize, usize)> = Vec::new();
    let mut active: Vec<usize> = Vec::new();
    let mut k: usize = 0;
    while k < endpoints.len()
        invariant
            e == endpoints@,
            k <= e.len(),
            active@.to_set() == open_after(e, k as int),
            pairs@.to_set() == swept_pairs(e, k as int),
            forall|j: int| 0 <= j < pairs@.len() ==> (#[trigger] pairs@[j]).0 < pairs@[j].1,
        decreases e.len() - k,
    {
        let (x, opens) = endpoints[k];
        if opens {
            let ghost before = pairs@;
            let ghost open_now = open_after(e, k as int);
            let mut a: usize = 0;
            proof {
                assert(active@.take(0).to_set() =~= Set::<usize>::empty());
                assert(pairs_with(Set::<usize>::empty(), x) =~= Set::<(usize, usize)>::empty());
                assert(before.to_set().union(pairs_with(Set::<usize>::empty(), x)) =~= before.to_set());
            }
            while a < active.len()
                invariant
                    e == endpoints@,
                    k < e.len(),
                    active@.to_set() == open_now,
                    open_now == open_after(e, k as int),
                    a <= active.len(),
                    forall|j: int| 0 <= j < pairs@.len() ==> (#[trigger] pairs@[j]).0 < pairs@[j].1,
                    pairs@.to_set() == before.to_set().union(pairs_with(active@.take(a as int).to_set(), x)),
                decreases active.len() - a,
            {
                let y = active[a];
                let ghost pairs_before = pairs@;
                let ghost t0 = active@.take(a as int);
                proof {
                    assert(active@.take(a + 1) =~= t0.push(y));
                    t0.lemma_push_to_set_commute(y);
                    lemma_pairs_with_insert(t0.to_set(), y, x);
                }
                if y != x {
                    let p = if x <= y { (x, y) } else { (y, x) };
                    pairs.push(p);
                    proof {
                        pairs_before.lemma_push_to_set_commute(p);
                        assert(pairs@.to_set() =~= before.to_set().union(pairs_with(active@.take(a + 1).to_set(), x)));
                    }
                }
                a = a + 1;
            }
            proof {
                assert(active@.take(active.len() as int) =~= active@);
                assert(pairs@.to_set() =~= swept_pairs(e, k + 1));
            }
            let ghost before_active = active@;
            active.push(x);
            proof {
                before_active.lemma_push_to_set_commute(x);
                assert(active@.to_set() =~= open_after(e, k + 1));
            }
        } else {
            active = without(&active, x);
            proof {
                assert(active@.to_set() =~= open_after(e, k + 1));
                assert(pairs@.to_set() =~= swept_pairs(e, k + 1));
            }
        }
        k = k + 1;
    }
    pairs
}

/// Lexicographic order on index pairs.
pub open spec fn pair_less(a: (usize, usize), b: (usize, usize)) -> bool {
    a.0 < b.0 || (a.0 == b.0 && a.1 < b.1)
}

/// Strictly increasing in lexicographic order (hence without repeats).
pub open spec fn strictly_sorted(s: Seq<(usize, usize)>) -> bool {
    forall|i: int, j: int| 0 <= i < j < s.len() ==> pair_less(#[trigger] s[i], #[trigger] s[j])
}

/// The pairs sorted lexicographically with repeats removed.
pub fn sort_dedup_pairs(pairs: &Vec<(usize, usize)>) -> (out: Vec<(usize, usize)>)
    ensures
        out@.to_set() == pairs@.to_set(),
        strictly_sorted(out@),
{
    let mut out: Vec<(usize, usize)> = Vec::new();
    let mut k: usize = 0;
    while k < pairs.len()
        invariant
            k <= pairs.len(),
            strictly_sorted(out@),
            out@.to_set() == pairs@.take(k as int).to_set(),
        decreases pairs.len() - k,
    {
        let p = pairs[k];
        proof {
            assert(pairs@.take(k + 1) =~= pairs@.take(k as int).push(p));
            pairs@.take(k as int).lemma_push_to_set_commute(p);
        }
        let mut i: usize = 0;
        while i < out.len() && (out[i].0 < p.0 || (out[i].0 == p.0 && out[i].1 < p.1))
            invariant
                i <= out.len(),
                forall|j: int| 0 <= j < i ==> pair_less(#[trigger] out@[j], p),
            decreases out.len() - i,
        {
            i = i + 1;
        }
        if i < out.len() && out[i].0 == p.0 && out[i].1 == p.1 {
            proof {
                assert(out@[i as int] == p);
                assert(out@.to_set().insert(p) =~= out@.to_set());
            }
        } else {
            let ghost before = out@;
            out.insert(i, p);
            proof {
                assert(out@ =~= before.take(i as int).push(p) + before.skip(i as int));
                assert forall|a: int, b: int| 0 <= a < b < out@.len() implies pair_less(#[trigger] out@[a], #[trigger] out@[b]) by {
                    if b < i {
                        assert(out@[a] == before[a] && out@[b] == before[b]);
                    } else if b == i {
                        assert(out@[a] == before[a]);
                    } else if a == i {
                        assert(out@[b] == before[b - 1]);
                        assert(!pair_less(before[i as int], p));
                        if b - 1 > i {
                            assert(pair_less(before[i as int], before[b - 1]));
                        }
                    } else if a < i {
                        assert(out@[a] == before[a] && out@[b] == before[b - 1]);
                    } else {
                        assert(out@[a] == before[a - 1] && out@[b] == before[b - 1]);
                    }
                }
                assert forall|q: (usize, usize)| out@.to_set().contains(q) <==> #[trigger] before.to_set().insert(p).contains(q) by {
                    if out@.contains(q) {
                        let j = choose|j: int| 0 <= j < out@.len() && out@[j] == q;
                        if j < i {
                            assert(before[j] == q);
                        } else if j > i {
                            assert(before[j - 1] == q);
                        }
                    }
                    if before.contains(q) {
                        let j = choose|j: int| 0 <= j < before.len() && before[j] == q;
                        if j < i {
                            assert(out@[j] == q);
                        } else {
                            assert(out@[j + 1] == q);
                        }
                    }
                    if q == p {
                        assert(out@[i as int] == p);
                    }
                }
                assert(out@.to_set() =~= before.to_set().insert(p));
            }
        }
        k = k + 1;
    }
    proof {
        assert(pairs@.take(pairs.len() as int) =~= pairs@);
    }
    out
}

/// The endpoints describe `n` intervals: entry `x` opens at position
/// `open_pos[x]` and closes later at `close_pos[x]`, and every endpoint is one
/// of these.
pub open spec fn endpoints_describe(e: Seq<(usize, bool)>, n: nat, open_pos: Seq<int>, close_pos: Seq<int>) -> bool {
    &&& open_pos.len() == n
    &&& close_pos.len() == n
    &&& forall|x: int| 0 <= x < n ==> {
        &&& 0 <= #[trigger] open_pos[x] < close_pos[x] < e.len()
        &&& e[open_pos[x]] == (x as usize, true)
        &&& e[close_pos[x]] == (x as usize, false)
    }
    &&& forall|k: int| 0 <= k < e.len() ==> {
        let (x, opens) = #[trigger] e[k];
        &&& x < n
        &&& opens ==> open_pos[x as int] == k
        &&& !opens ==> close_pos[x as int] == k
    }
}

/// The intervals of `a` and `b` overlap in endpoint order.
pub open spec fn intervals_overlap(open_pos: Seq<int>, close_pos: Seq<int>, a: int, b: int) -> bool {
    open_pos[a] < close_pos[b] && open_pos[b] < close_pos[a]
}

proof fn lemma_open_after(e: Seq<(usize, bool)>, n: nat, open_pos: Seq<int>, close_pos: Seq<int>, k: int)
    requires
        endpoints_describe(e, n, open_pos, close_pos),
        0 <= k <= e.len(),
    ensures
        forall|x: usize| #[trigger] open_after(e, k).contains(x) <==> (x < n && open_pos[x as int] < k
            <= close_pos[x as int]),
    decreases k,
{
    if k > 0 {
        lemma_open_after(e, n, open_pos, close_pos, k - 1);
        let x0 = e[k - 1].0;
        let opens = e[k - 1].1;
        assert(x0 < n);
        assert(opens ==> open_pos[x0 as int] == k - 1);
        assert(!opens ==> close_pos[x0 as int] == k - 1);
        assert(0 <= open_pos[x0 as int] < close_pos[x0 as int]);
        assert(open_after(e, k) == (if opens { open_after(e, k - 1).insert(x0) } else { open_after(e, k - 1).remove(x0) }));
        assert forall|x: usize| #[trigger] open_after(e, k).contains(x) <==> (x < n && open_pos[x as int] < k
            <= close_pos[x as int]) by {
            if x < n && x != x0 {
                assert(0 <= open_pos[x as int] < close_pos[x as int] < e.len());
                assert(e[open_pos[x as int]] == (x, true));
                assert(e[close_pos[x as int]] == (x, false));
                assert(open_pos[x as int] != k - 1);
                assert(close_pos[x as int] != k - 1);
                assert(open_after(e, k).contains(x) == open_after(e, k - 1).contains(x));
            }
        }
    }
}

proof fn lemma_swept_pairs(e: Seq<(usize, bool)>, n: nat, open_pos: Seq<int>, close_pos: Seq<int>, k: int)
    requires
        endpoints_describe(e, n, open_pos, close_pos),
        0 <= k <= e.len(),
    ensures
        forall|a: usize, b: usize| #[trigger] swept_pairs(e, k).contains((a, b)) <==> (a < b < n && (
            (open_pos[a as int] < k && open_pos[b as int] < open_pos[a as int] < close_pos[b as int])
            || (open_pos[b as int] < k && open_pos[a as int] < open_pos[b as int] < close_pos[a as int]))),
    decreases k,
{
    if k > 0 {
        lemma_swept_pairs(e, n, open_pos, close_pos, k - 1);
        lemma_open_after(e, n, open_pos, close_pos, k - 1);
        let x0 = e[k - 1].0;
        let opens = e[k - 1].1;
        assert(x0 < n);
        assert(opens ==> open_pos[x0 as int] == k - 1);
        assert(!opens ==> close_pos[x0 as int] == k - 1);
        assert(0 <= open_pos[x0 as int] < close_pos[x0 as int]);
        let fresh = pairs_with(open_after(e, k - 1), x0);
        assert(swept_pairs(e, k) == (if opens { swept_pairs(e, k - 1).union(fresh) } else { swept_pairs(e, k - 1) }));
        assert forall|a: usize, b: usize| #[trigger] swept_pairs(e, k).contains((a, b)) <==> (a < b < n && (
            (open_pos[a as int] < k && open_pos[b as int] < open_pos[a as int] < close_pos[b as int])
            || (open_pos[b as int] < k && open_pos[a as int] < open_pos[b as int] < close_pos[a as int]))) by {
            assert(swept_pairs(e, k - 1).contains((a, b)) <==> (a < b < n && (
                (open_pos[a as int] < k - 1 && open_pos[b as int] < open_pos[a as int] < close_pos[b as int])
                || (open_pos[b as int] < k - 1 && open_pos[a as int] < open_pos[b as int] < close_pos[a as int]))));
            if a < n {
                assert(0 <= open_pos[a as int] < close_pos[a as int] < e.len());
                assert(e[open_pos[a as int]] == (a, true));
                assert(e[close_pos[a as int]] == (a, false));
                assert(!opens ==> open_pos[a as int] != k - 1);
                assert(opens && open_pos[a as int] == k - 1 ==> a == x0);
            }
            if b < n {
                assert(0 <= open_pos[b as int] < close_pos[b as int] < e.len());
                assert(e[open_pos[b as int]] == (b, true));
                assert(e[close_pos[b as int]] == (b, false));
                assert(!opens ==> open_pos[b as int] != k - 1);
                assert(opens && open_pos[b as int] == k - 1 ==> b == x0);
            }
            if opens {
                if fresh.contains((a, b)) {
                    let y = choose|y: usize| #[trigger] open_after(e, k - 1).contains(y) && y != x0 && (a, b) == ordered_pair(x0, y);
                    assert(open_after(e, k - 1).contains(y));
                    assert(y < n && open_pos[y as int] < k - 1 <= close_pos[y as int]);
                    assert(e[close_pos[y as int]] == (y, false));
                    assert(close_pos[y as int] != k - 1);
                }
                if a < b < n && open_pos[a as int] == k - 1 && open_pos[b as int] < open_pos[a as int] < close_pos[b as int] {
                    assert(open_after(e, k - 1).contains(b));
                    assert(fresh.contains(ordered_pair(x0, b)));
                }
                if a < b < n && open_pos[b as int] == k - 1 && open_pos[a as int] < open_pos[b as int] < close_pos[a as int] {
                    assert(open_after(e, k - 1).contains(a));
                    assert(fresh.contains(ordered_pair(x0, a)));
                }
            }
        }
    }
}

/// Sweep and prune finds exactly the overlapping intervals: for endpoints that
/// describe `n` intervals, the swept pairs are the pairs `(a, b)`, `a < b < n`,
/// whose intervals overlap.
pub proof fn lemma_sweep_finds_overlaps(e: Seq<(usize, bool)>, n: nat, open_pos: Seq<int>, close_pos: Seq<int>)
    requires
        endpoints_describe(e, n, open_pos, close_pos),
    ensures
        forall|a: usize, b: usize| #[trigger] swept_pairs(e, e.len() as int).contains((a, b)) <==> (a < b < n
            && intervals_overlap(open_pos, close_pos, a as int, b as int)),
{
    lemma_swept_pairs(e, n, open_pos, close_pos, e.len() as int);
    assert forall|a: usize, b: usize| #[trigger] swept_pairs(e, e.len() as int).contains((a, b)) <==> (a < b < n
        && intervals_overlap(open_pos, close_pos, a as int, b as int)) by {
        if a < b < n {
            assert(e[open_pos[a as int]] == (a, true));
            assert(e[open_pos[b as int]] == (b, true));
            assert(open_pos[a as int] != open_pos[b as int]);
        }
    }
}

proof fn lemma_sorted_tail_set(a: Seq<(usize, usize)>)
    requires
        strictly_sorted(a),
        a.len() > 0,
    ensures
        a.drop_first().to_set() == a.to_set().remove(a[0]),
{
    assert forall|q: (usize, usize)| #[trigger] a.drop_first().to_set().contains(q) <==> a.to_set().remove(a[0]).contains(q) by {
        if a.drop_first().contains(q) {
            let j = choose|j: int| 0 <= j < a.drop_first().len() && a.drop_first()[j] == q;
            assert(a[j + 1] == q);
            assert(pair_less(a[0], a[j + 1]));
        }
        if a.contains(q) && q != a[0] {
            let j = choose|j: int| 0 <= j < a.len() && a[j] == q;
            assert(j != 0);
            assert(a.drop_first()[j - 1] == q);
        }
    }
    assert(a.drop_first().to_set() =~= a.to_set().remove(a[0]));
}

/// The canonical pair list is unique: two strictly sorted lists holding the
/// same pairs are equal, so the sorted, deduplicated result of a sweep does
/// not depend on the order in which its candidates were met.
pub proof fn lemma_sorted_pairs_unique(a: Seq<(usize, usize)>, b: Seq<(usize, usize)>)
    requires
        strictly_sorted(a),
        strictly_sorted(b),
        a.to_set() == b.to_set(),
    ensures
        a == b,
    decreases a.len() + b.len(),
{
    if a.len() == 0 || b.len() == 0 {
        if a.len() > 0 {
            assert(a.to_set().contains(a[0]));
        }
        if b.len() > 0 {
            assert(b.to_set().contains(b[0]));
        }
        assert(a =~= b);
    } else {
        assert(a.to_set().contains(a[0]));
        assert(b.to_set().contains(b[0]));
        let j = choose|j: int| 0 <= j < b.len() && b[j] == a[0];
        let i = choose|i: int| 0 <= i < a.len() && a[i] == b[0];
        if j > 0 {
            assert(pair_less(b[0], b[j]));
            if i > 0 {
                assert(pair_less(a[0], a[i]));
            }
            assert(false);
        }
        assert(a[0] == b[0]);
        lemma_sorted_tail_set(a);
        lemma_sorted_tail_set(b);
        lemma_sorted_pairs_unique(a.drop_first(), b.drop_first());
        assert(a =~= b) by {
            assert forall|k: int| 0 <= k < a.len() implies a[k] == b[k] by {
                if k > 0 {
                    assert(a[k] == a.drop_first()[k - 1]);
                    assert(b[k] == b.drop_first()[k - 1]);
                }
            }
        }
    }
}

} // verus!
