//! Triangle index lists of the primitive meshes. Vertex positions are
//! computed elsewhere; these lists only say which vertices form triangles.

use vstd::prelude::*;

verus! {

/// Index `k` of the cube: face `k / 6`, two triangles over its four vertices.
pub open spec fn cube_index(k: int) -> u32 {
    let base = (k / 6) * 4;
    let t = k % 6;
    (if t == 0 || t == 3 {
        base
    } else if t == 1 {
        base + 1
    } else if t == 4 || t == 2 {
        base + 2
    } else {
        base + 3
    }) as u32
}

/// Indices of the cube: 6 faces of 4 vertices, 2 triangles each.
pub fn cube_indices() -> (ix: Vec<u32>)
    ensures
        ix@.len() == 36,
        forall|k: int| 0 <= k < 36 ==> #[trigger] ix@[k] == cube_index(k),
        forall|k: int| 0 <= k < 36 ==> #[trigger] ix@[k] < 24,
{
    let mut ix: Vec<u32> = Vec::new();
    let mut i: u32 = 0;
    while i < 6
        invariant
            i <= 6,
            ix@.len() == 6 * i,
            forall|k: int| 0 <= k < ix@.len() ==> #[trigger] ix@[k] == cube_index(k),
        decreases 6 - i,
    {
        let base = i * 4;
        ix.push(base);
        ix.push(base + 1);
        ix.push(base + 2);
        ix.push(base);
        ix.push(base + 2);
        ix.push(base + 3);
        proof {
            assert forall|k: int| 6 * i <= k < 6 * i + 6 implies #[trigger] ix@[k] == cube_index(k) by {
                assert(k / 6 == i);
                assert(k % 6 == k - 6 * i);
            }
        }
        i = i + 1;
    }
    proof {
        assert forall|k: int| 0 <= k < 36 implies #[trigger] ix@[k] < 24 by {
            assert(k / 6 <= 5);
        }
    }
    ix
}

/// Indices of the double-sided plane: the two triangles of the top face and
/// the same triangles wound the other way.
pub fn plane_indices() -> (ix: Vec<u32>)
    ensures
        ix@ == seq![0u32, 1, 2, 0, 2, 3, 0, 2, 1, 0, 3, 2],
{
    let mut ix: Vec<u32> = Vec::new();
    ix.push(0);
    ix.push(1);
    ix.push(2);
    ix.push(0);
    ix.push(2);
    ix.push(3);
    ix.push(0);
    ix.push(2);
    ix.push(1);
    ix.push(0);
    ix.push(3);
    ix.push(2);
    assert(ix@ =~= seq![0u32, 1, 2, 0, 2, 3, 0, 2, 1, 0, 3, 2]);
    ix
}

/// The sphere's sector and stack counts after the minimums (3 and 2) apply.
pub open spec fn sphere_dims(sectors: u32, stacks: u32) -> (int, int) {
    (if sectors >= 3 { sectors as int } else { 3 }, if stacks >= 2 { stacks as int } else { 2 })
}

/// Index `k` of the UV sphere with `s` sectors: quad `k / 6` at stack
/// `q / s` and sector `q % s`, split into two triangles.
pub open spec fn sphere_index(s: int, k: int) -> int {
    let q = k / 6;
    let i = q / s;
    let j = q % s;
    let first = i * (s + 1) + j;
    let second = first + s + 1;
    let t = k % 6;
    if t == 0 {
        first
    } else if t == 1 || t == 3 {
        second
    } else if t == 4 {
        second + 1
    } else {
        first + 1
    }
}

/// Indices of the UV sphere (sectors at least 3, stacks at least 2). The
/// vertex grid has `(stacks + 1) * (sectors + 1)` vertices.
pub fn sphere_indices(sectors: u32, stacks: u32) -> (ix: Vec<u32>)
    requires
        (sphere_dims(sectors, stacks).0 + 1) * (sphere_dims(sectors, stacks).1 + 1) <= u32::MAX,
    ensures
        ix@.len() == 6 * sphere_dims(sectors, stacks).0 * sphere_dims(sectors, stacks).1,
        forall|k: int|
            0 <= k < ix@.len() ==> #[trigger] ix@[k] as int == sphere_index(sphere_dims(sectors, stacks).0, k),
        forall|k: int|
            0 <= k < ix@.len() ==> (#[trigger] ix@[k]) < (sphere_dims(sectors, stacks).0 + 1) * (
            sphere_dims(sectors, stacks).1 + 1),
{
    let s: u32 = if sectors >= 3 {
        sectors
    } else {
        3
    };
    let st: u32 = if stacks >= 2 {
        stacks
    } else {
        2
    };
    let ghost total = (s as int + 1) * (st as int + 1);
    let mut ix: Vec<u32> = Vec::new();
    let mut i: u32 = 0;
    while i < st
        invariant
            s == sphere_dims(sectors, stacks).0,
            st == sphere_dims(sectors, stacks).1,
            s >= 3,
            (s + 1) * (st + 1) <= u32::MAX,
            i <= st,
            ix@.len() == 6 * s * i,
            forall|k: int| 0 <= k < ix@.len() ==> #[trigger] ix@[k] as int == sphere_index(s as int, k),
        decreases st - i,
    {
        let mut j: u32 = 0;
        while j < s
            invariant
                s == sphere_dims(sectors, stacks).0,
                st == sphere_dims(sectors, stacks).1,
                s >= 3,
                (s + 1) * (st + 1) <= u32::MAX,
                i < st,
                j <= s,
                ix@.len() == 6 * s * i + 6 * j,
                forall|k: int| 0 <= k < ix@.len() ==> #[trigger] ix@[k] as int == sphere_index(s as int, k),
            decreases s - j,
        {
            proof {
                assert((i + 1) * (s + 1) <= (st + 1) * (s + 1)) by (nonlinear_arith)
                    requires
                        i < st,
                ;
                assert(i * (s + 1) + j + s + 2 <= (i + 1) * (s + 1) + s + 1) by (nonlinear_arith)
                    requires
                        j < s,
                ;
                assert((i + 1) * (s + 1) + s + 1 <= (st + 1) * (s + 1)) by (nonlinear_arith)
                    requires
                        i + 1 < st + 1,
                ;
                assert((s + 1) * (st + 1) == (st + 1) * (s + 1)) by (nonlinear_arith);
            }
            let first = i * (s + 1) + j;
            let second = first + s + 1;
            let ghost start = ix@.len() as int;
            ix.push(first);
            ix.push(second);
            ix.push(first + 1);
            ix.push(second);
            ix.push(second + 1);
            ix.push(first + 1);
            proof {
                assert(start == 6 * (s * i + j)) by (nonlinear_arith)
                    requires
                        start == 6 * s * i + 6 * j,
                ;
                assert forall|k: int| start <= k < start + 6 implies #[trigger] ix@[k] as int == sphere_index(
                    s as int,
                    k,
                ) by {
                    let q = s * i + j;
                    assert(k / 6 == q);
                    assert(k % 6 == k - start);
                    assert(q / (s as int) == i as int && q % (s as int) == j as int) by (nonlinear_arith)
                        requires
                            q == s * i + j,
                            0 <= j < s,
                            0 <= i,
                    {
                        vstd::arithmetic::div_mod::lemma_fundamental_div_mod_converse(
                            q as int,
                            s as int,
                            i as int,
                            j as int,
                        );
                    }
                }
                assert(ix@.len() == 6 * s * i + 6 * (j + 1)) by (nonlinear_arith)
                    requires
                        ix@.len() == start + 6,
                        start == 6 * s * i + 6 * j,
                ;
            }
            j = j + 1;
        }
        proof {
            assert(ix@.len() == 6 * s * (i + 1)) by (nonlinear_arith)
                requires
                    ix@.len() == 6 * s * i + 6 * s,
            ;
        }
        i = i + 1;
    }
    proof {
        assert forall|k: int| 0 <= k < ix@.len() implies (#[trigger] ix@[k]) < total by {
            lemma_sphere_index_bound(s as int, st as int, k);
        }
    }
    ix
}

/// Law: quad `(i, j)` of the sphere (stack `i`, sector `j`) is the six
/// indices from `6 * (i * s + j)` on: the triangles `(first, second, first + 1)`
/// and `(second, second + 1, first + 1)`, where `first = i * (s + 1) + j` and
/// `second = first + s + 1`. Together they cover the quad's four corners.
pub proof fn lemma_sphere_quad(s: int, i: int, j: int)
    requires
        s >= 1,
        0 <= i,
        0 <= j < s,
    ensures
        ({
            let base = 6 * (i * s + j);
            let first = i * (s + 1) + j;
            let second = first + s + 1;
            &&& sphere_index(s, base) == first
            &&& sphere_index(s, base + 1) == second
            &&& sphere_index(s, base + 2) == first + 1
            &&& sphere_index(s, base + 3) == second
            &&& sphere_index(s, base + 4) == second + 1
            &&& sphere_index(s, base + 5) == first + 1
        }),
{
    let q = i * s + j;
    assert(q / s == i && q % s == j) by (nonlinear_arith)
        requires
            q == i * s + j,
            0 <= j < s,
            0 <= i,
    {
        vstd::arithmetic::div_mod::lemma_fundamental_div_mod_converse(q, s, i, j);
    }
    assert forall|t: int| 0 <= t < 6 implies (#[trigger] ((6 * q + t) / 6)) == q && (6 * q + t) % 6 == t by {
        vstd::arithmetic::div_mod::lemma_fundamental_div_mod_converse(6 * q + t, 6, q, t);
    }
    assert((6 * q + 0) / 6 == q);
    assert((6 * q + 1) / 6 == q);
    assert((6 * q + 2) / 6 == q);
    assert((6 * q + 3) / 6 == q);
    assert((6 * q + 4) / 6 == q);
    assert((6 * q + 5) / 6 == q);
}

proof fn lemma_sphere_index_bound(s: int, st: int, k: int)
    requires
        s >= 3,
        st >= 2,
        0 <= k < 6 * s * st,
    ensures
        0 <= sphere_index(s, k) < (s + 1) * (st + 1),
{
    let q = k / 6;
    assert(0 <= q < s * st) by (nonlinear_arith)
        requires
            0 <= k < 6 * s * st,
            q == k / 6,
    ;
    let i = q / s;
    let j = q % s;
    assert(0 <= i < st && 0 <= j < s) by (nonlinear_arith)
        requires
            0 <= q < s * st,
            s >= 3,
            i == q / s,
            j == q % s,
    ;
    assert(i * (s + 1) + j + s + 2 < (st + 1) * (s + 1)) by (nonlinear_arith)
        requires
            0 <= i < st,
            0 <= j < s,
    ;
    assert(sphere_index(s, k) <= i * (s + 1) + j + s + 2);
    assert(0 <= i * (s + 1) + j) by (nonlinear_arith)
        requires
            0 <= i,
            0 <= j,
            s >= 3,
    ;
    assert((st + 1) * (s + 1) == (s + 1) * (st + 1)) by (nonlinear_arith);
}

} // verus!
