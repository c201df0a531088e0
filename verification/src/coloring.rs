//! Greedy vertex colouring of the body-constraint graph. Bodies of one colour
//! share no constraint, so the solver can update them together.

use vstd::prelude::*;

verus! {

/// Colour assignment for every body.
pub struct VertexColoring {
    /// Largest colour in use (0 when there are no bodies).
    pub max_color: u32,
    /// Colour of each body.
    pub colors: Vec<u32>,
}

/// Whether some neighbour of `i` with a smaller index has colour `c`.
pub open spec fn lower_neighbor_has(adj: Seq<Seq<usize>>, colors: Seq<u32>, i: int, c: int) -> bool {
    exists|k: int|
        0 <= k < adj[i].len() && #[trigger] adj[i][k] < i && colors[adj[i][k] as int] as int == c
}

/// The least colour, counting up from `d`, that no lower neighbour of `i`
/// has. (The search never needs to pass `i`: `i` lower neighbours hold at most
/// `i` colours.)
pub open spec fn free_color_from(adj: Seq<Seq<usize>>, colors: Seq<u32>, i: int, d: int) -> int
    decreases i + 1 - d,
{
    if d > i || !lower_neighbor_has(adj, colors, i, d) {
        d
    } else {
        free_color_from(adj, colors, i, d + 1)
    }
}

/// The least colour that no lower neighbour of `i` has.
pub open spec fn least_free_color(adj: Seq<Seq<usize>>, colors: Seq<u32>, i: int) -> int {
    free_color_from(adj, colors, i, 0)
}

/// The greedy colouring: each body, in index order, takes the least colour
/// that none of its already coloured neighbours has (stored as `u32`).
pub open spec fn greedy_coloring(adj: Seq<Seq<usize>>, colors: Seq<u32>) -> bool {
    &&& colors.len() == adj.len()
    &&& forall|i: int| 0 <= i < adj.len() ==> #[trigger] colors[i] == least_free_color(adj, colors, i) as u32
}

/// The largest entry (0 for none).
pub open spec fn max_of(s: Seq<u32>) -> u32
    decreases s.len(),
{
    if s.len() == 0 {
        0
    } else {
        let m = max_of(s.drop_last());
        if s.last() > m {
            s.last()
        } else {
            m
        }
    }
}

proof fn lemma_max_of_bounds(s: Seq<u32>)
    ensures
        forall|i: int| 0 <= i < s.len() ==> s[i] <= max_of(s),
        s.len() > 0 ==> exists|i: int| 0 <= i < s.len() && s[i] == max_of(s),
        s.len() == 0 ==> max_of(s) == 0,
    decreases s.len(),
{
    if s.len() > 0 {
        lemma_max_of_bounds(s.drop_last());
        assert forall|i: int| 0 <= i < s.len() implies s[i] <= max_of(s) by {
            if i < s.len() - 1 {
                assert(s[i] == s.drop_last()[i]);
            }
        }
        if s.len() > 1 && s.last() <= max_of(s.drop_last()) {
            let j = choose|j: int| 0 <= j < s.drop_last().len() && s.drop_last()[j] == max_of(s.drop_last());
            assert(s[j] == max_of(s));
        } else {
            assert(s[s.len() - 1] == max_of(s));
        }
    }
}

impl VertexColoring {
    /// Every body gets colour 0 (no parallelism).
    pub fn sequential(count: usize) -> (r: VertexColoring)
        ensures
            r.max_color == 0,
            r.colors@.len() == count,
            forall|i: int| 0 <= i < count ==> r.colors@[i] == 0,
    {
        let mut colors: Vec<u32> = Vec::new();
        let mut k: usize = 0;
        while k < count
            invariant
                k <= count,
                colors@.len() == k,
                forall|i: int| 0 <= i < k ==> colors@[i] == 0,
            decreases count - k,
        {
            colors.push(0);
            k = k + 1;
        }
        VertexColoring { max_color: 0, colors }
    }

    /// Greedy colouring in index order; `max_color` is the largest colour used.
    #[verifier::rlimit(40)]
    pub fn greedy(adjacency: &Vec<Vec<usize>>) -> (r: VertexColoring)
        ensures
            greedy_coloring(adjacency@.map_values(|v: Vec<usize>| v@), r.colors@),
            r.max_color == max_of(r.colors@),
    {
        let ghost adj = adjacency@.map_values(|v: Vec<usize>| v@);
        let n = adjacency.len();
        let mut colors: Vec<u32> = Vec::new();
        let mut max_color: u32 = 0;
        let mut i: usize = 0;
        while i < n
            invariant
                n == adjacency@.len(),
                adj == adjacency@.map_values(|v: Vec<usize>| v@),
                adj.len() == n,
                i <= n,
                colors@.len() == i,
                max_color == max_of(colors@),
                forall|x: int| 0 <= x < i ==> colors@[x] <= x,
                forall|x: int| 0 <= x < i ==> #[trigger] colors@[x] == least_free_color(adj, colors@, x) as u32,
            decreases n - i,
        {
            // marks of the colours taken by lower neighbours
            let mut used: Vec<bool> = Vec::new();
            let mut k: usize = 0;
            while k < n
                invariant
                    k <= n,
                    used@.len() == k,
                    forall|x: int| 0 <= x < k ==> !used@[x],
                decreases n - k,
            {
                used.push(false);
                k = k + 1;
            }
            let neighbors = &adjacency[i];
            assert(neighbors@ == adj[i as int]);
            let mut k: usize = 0;
            while k < neighbors.len()
                invariant
                    n == adjacency@.len(),
                    adj.len() == n,
                    i < n,
                    neighbors@ == adj[i as int],
                    colors@.len() == i,
                    forall|x: int| 0 <= x < i ==> colors@[x] <= x,
                    k <= neighbors@.len(),
                    used@.len() == n,
                    forall|c: int|
                        0 <= c < n ==> (used@[c] <==> exists|m: int|
                            0 <= m < k && #[trigger] adj[i as int][m] < i && colors@[adj[i as int][m] as int]
                                as int == c),
                decreases neighbors@.len() - k,
            {
                let nb = neighbors[k];
                if nb < i {
                    let c = colors[nb] as usize;
                    used.set(c, true);
                }
                k = k + 1;
            }
            let mut color: usize = 0;
            while color < n && used[color]
                invariant
                    color <= n,
                    used@.len() == n,
                    forall|d: int| 0 <= d < color ==> used@[d],
                decreases n - color,
            {
                color = color + 1;
            }
            proof {
                // every colour below `color` is taken by a lower neighbour, so
                // at least `color` distinct lower neighbours exist
                assert forall|d: int| 0 <= d < color implies #[trigger] lower_neighbor_has(
                    adj,
                    colors@,
                    i as int,
                    d,
                ) by {
                    assert(used@[d]);
                }
                lemma_least_free_bounded(adj, colors@, i as int, color as int);
                if color < n {
                    assert(!used@[color as int]);
                }
                lemma_free_color_is(adj, colors@, i as int, color as int, 0);
            }
            let ghost prev = colors@;
            let cu = color as u32;
            assert(cu as int <= color as int) by (bit_vector)
                requires
                    cu == color as u32,
            ;
            colors.push(cu);
            if cu > max_color {
                max_color = cu;
            }
            proof {
                assert(colors@.drop_last() =~= prev);
                assert forall|x: int| 0 <= x < i + 1 implies #[trigger] colors@[x] == least_free_color(
                    adj,
                    colors@,
                    x,
                ) as u32 by {
                    lemma_least_free_frame(adj, prev, colors@, x);
                    if x < i {
                        assert(colors@[x] == prev[x]);
                    }
                }
            }
            i = i + 1;
        }
        VertexColoring { max_color, colors }
    }
}

/// If every colour below `c` is taken and `c` is not, the search finds `c`.
proof fn lemma_free_color_is(adj: Seq<Seq<usize>>, colors: Seq<u32>, i: int, c: int, d: int)
    requires
        0 <= d <= c <= i,
        !lower_neighbor_has(adj, colors, i, c),
        forall|e: int| 0 <= e < c ==> #[trigger] lower_neighbor_has(adj, colors, i, e),
    ensures
        free_color_from(adj, colors, i, d) == c,
    decreases c - d,
{
    if d < c {
        assert(lower_neighbor_has(adj, colors, i, d));
        lemma_free_color_is(adj, colors, i, c, d + 1);
    }
}

/// Appending colours for later nodes does not change what a node's lower
/// neighbours hold, nor its least free colour.
proof fn lemma_least_free_frame(adj: Seq<Seq<usize>>, prev: Seq<u32>, next: Seq<u32>, x: int)
    requires
        prev.len() <= next.len(),
        forall|y: int| 0 <= y < prev.len() ==> next[y] == prev[y],
        0 <= x <= prev.len(),
    ensures
        forall|c: int| lower_neighbor_has(adj, prev, x, c) <==> lower_neighbor_has(adj, next, x, c),
        least_free_color(adj, prev, x) == least_free_color(adj, next, x),
{
    assert forall|c: int| lower_neighbor_has(adj, prev, x, c) <==> lower_neighbor_has(adj, next, x, c) by {
        if lower_neighbor_has(adj, prev, x, c) {
            let k = choose|k: int|
                0 <= k < adj[x].len() && #[trigger] adj[x][k] < x && prev[adj[x][k] as int] as int == c;
            assert(next[adj[x][k] as int] == prev[adj[x][k] as int]);
        }
        if lower_neighbor_has(adj, next, x, c) {
            let k = choose|k: int|
                0 <= k < adj[x].len() && #[trigger] adj[x][k] < x && next[adj[x][k] as int] as int == c;
            assert(next[adj[x][k] as int] == prev[adj[x][k] as int]);
        }
    }
    lemma_free_from_frame(adj, prev, next, x, 0);
}

proof fn lemma_free_from_frame(adj: Seq<Seq<usize>>, prev: Seq<u32>, next: Seq<u32>, x: int, d: int)
    requires
        forall|c: int| lower_neighbor_has(adj, prev, x, c) <==> lower_neighbor_has(adj, next, x, c),
    ensures
        free_color_from(adj, prev, x, d) == free_color_from(adj, next, x, d),
    decreases x + 1 - d,
{
    if !(d > x || !lower_neighbor_has(adj, prev, x, d)) {
        lemma_free_from_frame(adj, prev, next, x, d + 1);
    }
}

/// A least free colour is at most the node's index: colours `0..c` are all
/// taken by lower neighbours, whose colours are bounded by their indices.
proof fn lemma_least_free_bounded(adj: Seq<Seq<usize>>, colors: Seq<u32>, i: int, c: int)
    requires
        0 <= i < adj.len(),
        colors.len() >= i,
        forall|x: int| 0 <= x < i ==> colors[x] <= x,
        0 <= c,
        forall|d: int| 0 <= d < c ==> #[trigger] lower_neighbor_has(adj, colors, i, d),
    ensures
        c <= i,
{
    if c > i {
        // colour i would be held by a neighbour x < i, whose colour is at most x
        assert(lower_neighbor_has(adj, colors, i, i));
        let k = choose|k: int|
            0 <= k < adj[i].len() && #[trigger] adj[i][k] < i && colors[adj[i][k] as int] as int == i;
        assert(colors[adj[i][k] as int] <= adj[i][k]);
    }
}


/// The adjacency lists built from constraint pairs: for each pair `(i, j)`
/// in order, `j` is appended to the list of `i` and then `i` to the list of `j`.
pub open spec fn adjacency_of(n: nat, pairs: Seq<(usize, usize)>) -> Seq<Seq<usize>>
    decreases pairs.len(),
{
    if pairs.len() == 0 {
        Seq::new(n, |k: int| Seq::<usize>::empty())
    } else {
        let prev = adjacency_of(n, pairs.drop_last());
        let (i, j) = pairs.last();
        let a = prev.update(i as int, prev[i as int].push(j));
        a.update(j as int, a[j as int].push(i))
    }
}

/// The pairs of bodies joined by two-body constraints, in constraint order.
pub open spec fn two_body_pairs(constraints: Seq<Seq<usize>>) -> Seq<(usize, usize)>
    decreases constraints.len(),
{
    if constraints.len() == 0 {
        Seq::empty()
    } else {
        let prev = two_body_pairs(constraints.drop_last());
        let c = constraints.last();
        if c.len() == 2 {
            prev.push((c[0], c[1]))
        } else {
            prev
        }
    }
}

/// Every pair names bodies below `n`.
pub open spec fn pairs_in_range(n: nat, pairs: Seq<(usize, usize)>) -> bool {
    forall|k: int| 0 <= k < pairs.len() ==> (#[trigger] pairs[k]).0 < n && pairs[k].1 < n
}

proof fn lemma_adjacency_len(n: nat, pairs: Seq<(usize, usize)>)
    requires
        pairs_in_range(n, pairs),
    ensures
        adjacency_of(n, pairs).len() == n,
    decreases pairs.len(),
{
    if pairs.len() > 0 {
        assert(pairs_in_range(n, pairs.drop_last())) by {
            assert forall|k: int| 0 <= k < pairs.drop_last().len() implies (#[trigger] pairs.drop_last()[k]).0
                < n && pairs.drop_last()[k].1 < n by {
                assert(pairs.drop_last()[k] == pairs[k]);
            }
        }
        lemma_adjacency_len(n, pairs.drop_last());
    }
}

/// Both ends of every pair list each other.
proof fn lemma_adjacency_symmetric(n: nat, pairs: Seq<(usize, usize)>)
    requires
        pairs_in_range(n, pairs),
    ensures
        forall|k: int|
            0 <= k < pairs.len() ==> adjacency_of(n, pairs)[(#[trigger] pairs[k]).0 as int].contains(
                pairs[k].1,
            ) && adjacency_of(n, pairs)[pairs[k].1 as int].contains(pairs[k].0),
    decreases pairs.len(),
{
    if pairs.len() > 0 {
        let rest = pairs.drop_last();
        assert(pairs_in_range(n, rest)) by {
            assert forall|k: int| 0 <= k < rest.len() implies (#[trigger] rest[k]).0 < n && rest[k].1 < n by {
                assert(rest[k] == pairs[k]);
            }
        }
        lemma_adjacency_symmetric(n, rest);
        lemma_adjacency_len(n, rest);
        let prev = adjacency_of(n, rest);
        let (i, j) = pairs.last();
        let a = prev.update(i as int, prev[i as int].push(j));
        let b = a.update(j as int, a[j as int].push(i));
        assert(adjacency_of(n, pairs) == b);
        // lists only grow
        assert forall|x: int, v: usize| 0 <= x < n && #[trigger] prev[x].contains(v) implies b[x].contains(v) by {
            let t = choose|t: int| 0 <= t < prev[x].len() && prev[x][t] == v;
            if x == i as int {
                assert(a[x][t] == v);
            } else {
                assert(a[x] == prev[x]);
            }
            if x == j as int {
                assert(b[x][t] == v);
            } else {
                assert(b[x] == a[x]);
            }
        }
        assert forall|k: int| 0 <= k < pairs.len() implies b[(#[trigger] pairs[k]).0 as int].contains(pairs[k].1)
            && b[pairs[k].1 as int].contains(pairs[k].0) by {
            if k < rest.len() {
                assert(rest[k] == pairs[k]);
                assert(prev[pairs[k].0 as int].contains(pairs[k].1));
                assert(prev[pairs[k].1 as int].contains(pairs[k].0));
            } else {
                assert(pairs[k] == (i, j));
                assert(a[i as int][a[i as int].len() - 1] == j);
                if j == i {
                    assert(b[i as int] == a[i as int].push(i));
                    assert(b[i as int][a[i as int].len() - 1] == j);
                } else {
                    assert(b[i as int] == a[i as int]);
                }
                assert(b[j as int][b[j as int].len() - 1] == i);
            }
        }
    }
}

/// Builds the adjacency lists of `body_count` bodies from constraint pairs.
pub fn build_adjacency(body_count: usize, pairs: &Vec<(usize, usize)>) -> (adj: Vec<Vec<usize>>)
    requires
        pairs_in_range(body_count as nat, pairs@),
    ensures
        adj@.map_values(|v: Vec<usize>| v@) == adjacency_of(body_count as nat, pairs@),
{
    let mut adj: Vec<Vec<usize>> = Vec::new();
    let mut k: usize = 0;
    while k < body_count
        invariant
            k <= body_count,
            adj@.len() == k,
            forall|x: int| 0 <= x < k ==> (#[trigger] adj@[x])@ == Seq::<usize>::empty(),
        decreases body_count - k,
    {
        adj.push(Vec::new());
        k = k + 1;
    }
    proof {
        assert(adj@.map_values(|v: Vec<usize>| v@) =~= adjacency_of(body_count as nat, pairs@.subrange(0, 0)));
    }
    let mut p: usize = 0;
    while p < pairs.len()
        invariant
            p <= pairs@.len(),
            pairs_in_range(body_count as nat, pairs@),
            adj@.len() == body_count,
            adj@.map_values(|v: Vec<usize>| v@) == adjacency_of(body_count as nat, pairs@.subrange(0, p as int)),
        decreases pairs@.len() - p,
    {
        let (i, j) = pairs[p];
        assert(pairs@[p as int].0 < body_count && pairs@[p as int].1 < body_count);
        let ghost before = adj@.map_values(|v: Vec<usize>| v@);
        let mut li = Vec::new();
        std::mem::swap(&mut li, &mut adj[i]);
        li.push(j);
        std::mem::swap(&mut li, &mut adj[i]);
        let ghost mid = adj@.map_values(|v: Vec<usize>| v@);
        assert(mid =~= before.update(i as int, before[i as int].push(j)));
        let mut lj = Vec::new();
        std::mem::swap(&mut lj, &mut adj[j]);
        lj.push(i);
        std::mem::swap(&mut lj, &mut adj[j]);
        proof {
            assert(adj@.map_values(|v: Vec<usize>| v@) =~= mid.update(j as int, mid[j as int].push(i)));
            assert(pairs@.subrange(0, p + 1).drop_last() =~= pairs@.subrange(0, p as int));
            assert(pairs@.subrange(0, p + 1).last() == pairs@[p as int]);
        }
        p = p + 1;
    }
    proof {
        assert(pairs@.subrange(0, pairs@.len() as int) =~= pairs@);
    }
    adj
}

/// The two-body pairs of a list of constraints (given by their body indices).
pub fn constraint_pairs(constraints: &Vec<Vec<usize>>) -> (pairs: Vec<(usize, usize)>)
    ensures
        pairs@ == two_body_pairs(constraints@.map_values(|v: Vec<usize>| v@)),
{
    let ghost cs = constraints@.map_values(|v: Vec<usize>| v@);
    let mut pairs: Vec<(usize, usize)> = Vec::new();
    let mut k: usize = 0;
    while k < constraints.len()
        invariant
            k <= constraints@.len(),
            cs == constraints@.map_values(|v: Vec<usize>| v@),
            pairs@ == two_body_pairs(cs.subrange(0, k as int)),
        decreases constraints@.len() - k,
    {
        proof {
            assert(cs.subrange(0, k + 1).drop_last() =~= cs.subrange(0, k as int));
            assert(cs.subrange(0, k + 1).last() == constraints@[k as int]@);
        }
        let c = &constraints[k];
        if c.len() == 2 {
            pairs.push((c[0], c[1]));
        }
        k = k + 1;
    }
    proof {
        assert(cs.subrange(0, constraints@.len() as int) =~= cs);
    }
    pairs
}

/// Colours the bodies from the constraints that join two bodies.
pub fn coloring_for_constraints(body_count: usize, constraints: &Vec<Vec<usize>>) -> (r: VertexColoring)
    requires
        pairs_in_range(body_count as nat, two_body_pairs(constraints@.map_values(|v: Vec<usize>| v@))),
    ensures
        greedy_coloring(
            adjacency_of(body_count as nat, two_body_pairs(constraints@.map_values(|v: Vec<usize>| v@))),
            r.colors@,
        ),
        r.max_color == max_of(r.colors@),
        body_count <= 0x1_0000_0000 ==> forall|k: int|
            0 <= k < constraints@.len() && (#[trigger] constraints@[k])@.len() == 2 && constraints@[k]@[0]
                != constraints@[k]@[1] ==> r.colors@[constraints@[k]@[0] as int] != r.colors@[constraints@[k]@[1] as int],
{
    let pairs = constraint_pairs(constraints);
    let adj = build_adjacency(body_count, &pairs);
    let r = VertexColoring::greedy(&adj);
    proof {
        let cs = constraints@.map_values(|v: Vec<usize>| v@);
        if body_count <= 0x1_0000_0000 {
            assert forall|k: int|
                0 <= k < constraints@.len() && (#[trigger] constraints@[k])@.len() == 2 && constraints@[k]@[0]
                    != constraints@[k]@[1] implies r.colors@[constraints@[k]@[0] as int]
                    != r.colors@[constraints@[k]@[1] as int] by {
                assert(cs[k] == constraints@[k]@);
                lemma_two_body_constraint_paired(cs, k);
                let t = choose|t: int| 0 <= t < pairs@.len() && pairs@[t] == (cs[k][0], cs[k][1]);
                lemma_constraint_coloring_proper(body_count as nat, pairs@, r.colors@, t);
            }
        }
    }
    r
}

/// The bodies of one colour, in index order.
pub fn color_class(coloring: &VertexColoring, color: u32) -> (bodies: Vec<usize>)
    ensures
        forall|k: int| 0 <= k < bodies@.len() ==> (#[trigger] bodies@[k]) < coloring.colors@.len()
            && coloring.colors@[bodies@[k] as int] == color,
        forall|x: int|
            0 <= x < coloring.colors@.len() && coloring.colors@[x] == color ==> bodies@.contains(x as usize),
        forall|a: int, b: int| 0 <= a < b < bodies@.len() ==> bodies@[a] < bodies@[b],
{
    let mut bodies: Vec<usize> = Vec::new();
    let mut x: usize = 0;
    while x < coloring.colors.len()
        invariant
            x <= coloring.colors@.len(),
            forall|k: int| 0 <= k < bodies@.len() ==> (#[trigger] bodies@[k]) < x
                && coloring.colors@[bodies@[k] as int] == color,
            forall|y: int| 0 <= y < x && coloring.colors@[y] == color ==> bodies@.contains(y as usize),
            forall|a: int, b: int| 0 <= a < b < bodies@.len() ==> bodies@[a] < bodies@[b],
        decreases coloring.colors@.len() - x,
    {
        if coloring.colors[x] == color {
            let ghost prev = bodies@;
            bodies.push(x);
            assert(bodies@[bodies@.len() - 1] == x);
            assert forall|y: int| 0 <= y < x && coloring.colors@[y] == color implies bodies@.contains(y as usize) by {
                let t = choose|t: int| 0 <= t < prev.len() && prev[t] == y as usize;
                assert(bodies@[t] == y as usize);
            }
        }
        x = x + 1;
    }
    bodies
}

proof fn lemma_greedy_bounded(adj: Seq<Seq<usize>>, colors: Seq<u32>, x: int)
    requires
        greedy_coloring(adj, colors),
        0 <= x < adj.len(),
    ensures
        least_free_color(adj, colors, x) <= x,
        !lower_neighbor_has(adj, colors, x, least_free_color(adj, colors, x)),
        colors[x] as int <= x,
    decreases x,
{
    // every earlier body is bounded by its index
    assert forall|y: int| 0 <= y < x implies colors[y] <= y by {
        lemma_greedy_bounded(adj, colors, y);
    }
    lemma_free_from_props(adj, colors, x, 0);
    let c = least_free_color(adj, colors, x);
    assert forall|d: int| 0 <= d < c implies #[trigger] lower_neighbor_has(adj, colors.subrange(0, x), x, d) by {
        lemma_lower_prefix(adj, colors, x, d);
    }
    lemma_least_free_bounded(adj, colors.subrange(0, x), x, c);
    lemma_lower_prefix(adj, colors, x, c);
    assert(colors[x] == c as u32);
}

proof fn lemma_lower_prefix(adj: Seq<Seq<usize>>, colors: Seq<u32>, x: int, d: int)
    requires
        0 <= x <= colors.len(),
    ensures
        lower_neighbor_has(adj, colors, x, d) <==> lower_neighbor_has(adj, colors.subrange(0, x), x, d),
{
    if lower_neighbor_has(adj, colors, x, d) {
        let k = choose|k: int| 0 <= k < adj[x].len() && #[trigger] adj[x][k] < x && colors[adj[x][k] as int] as int == d;
        assert(colors.subrange(0, x)[adj[x][k] as int] == colors[adj[x][k] as int]);
    }
    if lower_neighbor_has(adj, colors.subrange(0, x), x, d) {
        let k = choose|k: int| 0 <= k < adj[x].len() && #[trigger] adj[x][k] < x && colors.subrange(0, x)[adj[x][k] as int] as int == d;
        assert(colors.subrange(0, x)[adj[x][k] as int] == colors[adj[x][k] as int]);
    }
}

/// The search from `d` returns a colour at least `d` above which every
/// colour from `d` is taken, and which is free or past `i`.
proof fn lemma_free_from_props(adj: Seq<Seq<usize>>, colors: Seq<u32>, i: int, d: int)
    requires
        0 <= d,
    ensures
        d <= free_color_from(adj, colors, i, d),
        forall|e: int| d <= e < free_color_from(adj, colors, i, d) ==> #[trigger] lower_neighbor_has(adj, colors, i, e),
        free_color_from(adj, colors, i, d) > i || !lower_neighbor_has(adj, colors, i, free_color_from(adj, colors, i, d)),
    decreases i + 1 - d,
{
    if !(d > i || !lower_neighbor_has(adj, colors, i, d)) {
        lemma_free_from_props(adj, colors, i, d + 1);
    }
}

/// Law: the greedy colouring is proper. A body never shares its colour with a
/// neighbour listed before it (up to 2^32 bodies, where colours fit in `u32`).
pub proof fn lemma_greedy_coloring_proper(adj: Seq<Seq<usize>>, colors: Seq<u32>, a: int, b: int)
    requires
        greedy_coloring(adj, colors),
        adj.len() <= 0x1_0000_0000,
        0 <= a < b < adj.len(),
        adj[b].contains(a as usize),
    ensures
        colors[a] != colors[b],
{
    lemma_greedy_bounded(adj, colors, b);
    let k = choose|k: int| 0 <= k < adj[b].len() && adj[b][k] == a as usize;
    assert(adj[b][k] < b);
    let c = least_free_color(adj, colors, b);
    lemma_free_from_props(adj, colors, b, 0);
    if colors[a] == colors[b] {
        assert(c < 0x1_0000_0000);
        assert((c as u32) as int == c);
        assert(colors[b] as int == c);
        assert(lower_neighbor_has(adj, colors, b, c));
    }
}

/// Every neighbour listed for a body is a body that lists it back.
pub open spec fn symmetric_adjacency(adj: Seq<Seq<usize>>) -> bool {
    forall|i: int, k: int|
        0 <= i < adj.len() && 0 <= k < adj[i].len() ==> (#[trigger] adj[i][k]) < adj.len()
            && adj[adj[i][k] as int].contains(i as usize)
}

/// Law: on a symmetric adjacency the greedy colouring is proper: two distinct
/// neighbouring bodies never share a colour (up to 2^32 bodies, where colours
/// fit in `u32`).
pub proof fn lemma_greedy_proper_symmetric(adj: Seq<Seq<usize>>, colors: Seq<u32>, a: int, b: int)
    requires
        greedy_coloring(adj, colors),
        adj.len() <= 0x1_0000_0000,
        symmetric_adjacency(adj),
        0 <= a < adj.len(),
        0 <= b < adj.len(),
        a != b,
        adj[a].contains(b as usize),
    ensures
        colors[a] != colors[b],
{
    if a < b {
        let k = choose|k: int| 0 <= k < adj[a].len() && adj[a][k] == b as usize;
        assert(adj[adj[a][k] as int].contains(a as usize));
        lemma_greedy_coloring_proper(adj, colors, a, b);
    } else {
        lemma_greedy_coloring_proper(adj, colors, b, a);
    }
}

/// Law: colouring from constraints separates the two bodies of every
/// two-body constraint that joins distinct bodies.
pub proof fn lemma_constraint_coloring_proper(n: nat, pairs: Seq<(usize, usize)>, colors: Seq<u32>, k: int)
    requires
        pairs_in_range(n, pairs),
        n <= 0x1_0000_0000,
        greedy_coloring(adjacency_of(n, pairs), colors),
        0 <= k < pairs.len(),
        pairs[k].0 != pairs[k].1,
    ensures
        colors[pairs[k].0 as int] != colors[pairs[k].1 as int],
{
    lemma_adjacency_len(n, pairs);
    lemma_adjacency_symmetric(n, pairs);
    let adj = adjacency_of(n, pairs);
    let (i, j) = pairs[k];
    if i < j {
        assert(adj[j as int].contains(i));
        lemma_greedy_coloring_proper(adj, colors, i as int, j as int);
    } else {
        assert(adj[i as int].contains(j));
        lemma_greedy_coloring_proper(adj, colors, j as int, i as int);
    }
}

/// The pair of a two-entry body list.
pub open spec fn pair_of(c: Seq<usize>) -> (usize, usize) {
    (c[0], c[1])
}

/// Law: the pair list is, in constraint order, the two bodies of each
/// constraint whose body list has exactly two entries, whatever their order.
pub proof fn lemma_two_body_pairs_exact(cs: Seq<Seq<usize>>)
    ensures
        two_body_pairs(cs) == cs.filter(|c: Seq<usize>| c.len() == 2).map_values(|c: Seq<usize>| pair_of(c)),
    decreases cs.len(),
{
    reveal(Seq::filter);
    if cs.len() > 0 {
        lemma_two_body_pairs_exact(cs.drop_last());
        let f = |c: Seq<usize>| pair_of(c);
        let rest = cs.drop_last().filter(|c: Seq<usize>| c.len() == 2);
        if cs.last().len() == 2 {
            assert(rest.push(cs.last()).map_values(f) =~= rest.map_values(f).push(pair_of(cs.last())));
        }
    }
}

/// Law: every constraint with exactly two bodies contributes its pair.
pub proof fn lemma_two_body_constraint_paired(cs: Seq<Seq<usize>>, k: int)
    requires
        0 <= k < cs.len(),
        cs[k].len() == 2,
    ensures
        two_body_pairs(cs).contains((cs[k][0], cs[k][1])),
    decreases cs.len(),
{
    if k == cs.len() - 1 {
        assert(two_body_pairs(cs).last() == (cs[k][0], cs[k][1]));
    } else {
        lemma_two_body_constraint_paired(cs.drop_last(), k);
        let rest = two_body_pairs(cs.drop_last());
        let t = choose|t: int| 0 <= t < rest.len() && rest[t] == (cs[k][0], cs[k][1]);
        assert(cs.drop_last()[k] == cs[k]);
        if cs.last().len() == 2 {
            assert(two_body_pairs(cs)[t] == rest[t]);
        }
    }
}

/// Every pair comes from a constraint whose bodies are below `n`.
proof fn lemma_two_body_pairs_in_range(n: nat, cs: Seq<Seq<usize>>)
    requires
        forall|k: int| 0 <= k < cs.len() && (#[trigger] cs[k]).len() == 2 ==> cs[k][0] < n && cs[k][1] < n,
    ensures
        pairs_in_range(n, two_body_pairs(cs)),
    decreases cs.len(),
{
    if cs.len() > 0 {
        assert forall|k: int| 0 <= k < cs.drop_last().len() && (#[trigger] cs.drop_last()[k]).len() == 2 implies
            cs.drop_last()[k][0] < n && cs.drop_last()[k][1] < n by {
            assert(cs.drop_last()[k] == cs[k]);
        }
        lemma_two_body_pairs_in_range(n, cs.drop_last());
        let rest = two_body_pairs(cs.drop_last());
        let all = two_body_pairs(cs);
        assert forall|t: int| 0 <= t < all.len() implies (#[trigger] all[t]).0 < n && all[t].1 < n by {
            if t < rest.len() {
                assert(all[t] == rest[t]);
            } else {
                assert(cs[cs.len() - 1] == cs.last());
            }
        }
    }
}

/// Law: colouring from constraints gives the two bodies of every two-body
/// constraint that joins distinct bodies different colours, in whichever
/// order the constraint lists them (bodies below `n`, up to 2^32 bodies).
pub proof fn lemma_constrained_bodies_differ(n: nat, cs: Seq<Seq<usize>>, colors: Seq<u32>, k: int)
    requires
        n <= 0x1_0000_0000,
        forall|m: int| 0 <= m < cs.len() && (#[trigger] cs[m]).len() == 2 ==> cs[m][0] < n && cs[m][1] < n,
        greedy_coloring(adjacency_of(n, two_body_pairs(cs)), colors),
        0 <= k < cs.len(),
        cs[k].len() == 2,
        cs[k][0] != cs[k][1],
    ensures
        colors[cs[k][0] as int] != colors[cs[k][1] as int],
{
    let pairs = two_body_pairs(cs);
    lemma_two_body_pairs_in_range(n, cs);
    lemma_two_body_constraint_paired(cs, k);
    let t = choose|t: int| 0 <= t < pairs.len() && pairs[t] == (cs[k][0], cs[k][1]);
    lemma_constraint_coloring_proper(n, pairs, colors, t);
}

/// The bodies a contact between `body_a` and `body_b` acts on: each side
/// that is a body, in order (`usize::MAX` stands for the static world).
pub open spec fn contact_bodies(body_a: usize, body_b: usize) -> Seq<usize> {
    let a = if body_a != usize::MAX { seq![body_a] } else { Seq::empty() };
    let b = if body_b != usize::MAX { seq![body_b] } else { Seq::empty() };
    a + b
}

/// The body indices of a contact constraint.
pub fn contact_body_indices(body_a: usize, body_b: usize) -> (v: Vec<usize>)
    ensures
        v@ == contact_bodies(body_a, body_b),
{
    let mut v: Vec<usize> = Vec::new();
    if body_a != usize::MAX {
        v.push(body_a);
    }
    if body_b != usize::MAX {
        v.push(body_b);
    }
    proof {
        assert(v@ =~= contact_bodies(body_a, body_b));
    }
    v
}

} // verus!
