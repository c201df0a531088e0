//! Parent/child hierarchy: the once-per-frame update gate and the
//! breadth-first plan in which global transforms are computed.
//!
//! The plan is a list of steps; each step names an entity (by its position in
//! the node list handed in) and the earlier step whose entity is its parent.
//! Applying the steps in order, each child's world matrix is its parent's world
//! matrix times its own local matrix.

use vstd::prelude::*;

verus! {

/// Frame counters that keep the hierarchy from being updated twice in a frame.
pub struct FrameCounters {
    /// The frame the main loop is in.
    pub current_frame: u64,
    /// The frame of the last hierarchy update.
    pub last_hierarchy_update_frame: u64,
}

impl FrameCounters {
    /// Counters at frame zero, with no update recorded.
    pub fn new() -> (c: FrameCounters)
        ensures
            c.current_frame == 0,
            c.last_hierarchy_update_frame == 0,
    {
        FrameCounters { current_frame: 0, last_hierarchy_update_frame: 0 }
    }

    /// Decides whether the hierarchy is updated now; records the update if so.
    pub fn begin_hierarchy_update(&mut self) -> (run: bool)
        ensures
            run == (old(self).current_frame != old(self).last_hierarchy_update_frame),
            final(self).current_frame == old(self).current_frame,
            final(self).last_hierarchy_update_frame == old(self).current_frame,
    {
        if self.current_frame == self.last_hierarchy_update_frame {
            false
        } else {
            self.last_hierarchy_update_frame = self.current_frame;
            true
        }
    }
}

/// Advances to the next frame (the counter wraps around at its limit).
pub fn advance_frame(counters: &mut FrameCounters)
    ensures
        final(counters).current_frame == (old(counters).current_frame + 1) % 0x1_0000_0000_0000_0000,
        final(counters).last_hierarchy_update_frame == old(counters).last_hierarchy_update_frame,
{
    counters.current_frame = counters.current_frame.wrapping_add(1);
}

/// Resets both counters to zero.
pub fn reset_frame_counters(counters: &mut FrameCounters)
    ensures
        final(counters).current_frame == 0,
        final(counters).last_hierarchy_update_frame == 0,
{
    counters.current_frame = 0;
    counters.last_hierarchy_update_frame = 0;
}

/// Law: within one frame the hierarchy is updated at most once. Whatever the
/// first gate decides, a second gate in the same frame declines.
pub proof fn lemma_at_most_one_update_per_frame(c0: FrameCounters, c1: FrameCounters, c2: FrameCounters)
    requires
        c1.current_frame == c0.current_frame,
        c1.last_hierarchy_update_frame == c0.current_frame,
        c2.current_frame == c1.current_frame,
        c2.last_hierarchy_update_frame == c1.current_frame,
    ensures
        !(c1.current_frame != c1.last_hierarchy_update_frame),
{
}

/// Law: after an update, advancing the frame makes the next gate run.
pub proof fn lemma_advance_enables_update(before: FrameCounters, after: FrameCounters)
    requires
        before.last_hierarchy_update_frame == before.current_frame,
        after.current_frame == (before.current_frame + 1) % 0x1_0000_0000_0000_0000,
        after.last_hierarchy_update_frame == before.last_hierarchy_update_frame,
    ensures
        after.current_frame != after.last_hierarchy_update_frame,
{
}

/// What the planner knows of one entity.
pub struct HierarchyNode {
    /// The entity's id.
    pub entity: u64,
    /// The id named by the entity's `Parent` component, if it has one.
    pub parent: Option<u64>,
    /// Whether the entity has a `Transform`.
    pub has_transform: bool,
    /// Whether the entity has a `WorldTransform`.
    pub has_world_transform: bool,
}

/// The two hierarchy passes.
#[derive(PartialEq, Eq, Structural, Clone, Copy)]
pub enum HierarchyPass {
    /// Single-precision `Transform` hierarchy.
    Regular,
    /// High-precision `WorldTransform` hierarchy (children of any kind).
    World,
}

/// One step of the plan.
#[derive(PartialEq, Eq, Structural, Clone, Copy)]
pub struct PlanStep {
    /// Position of the entity in the node list.
    pub node: usize,
    /// The earlier step whose entity is this entity's parent; `None` for a root.
    pub parent_step: Option<usize>,
}

/// Whether a node starts a tree in the given pass.
pub open spec fn is_root(n: HierarchyNode, pass: HierarchyPass) -> bool {
    &&& n.parent is None
    &&& match pass {
        HierarchyPass::Regular => n.has_transform,
        HierarchyPass::World => n.has_world_transform,
    }
}

/// Whether a node is taken in as a child in the given pass.
pub open spec fn admits_child(n: HierarchyNode, pass: HierarchyPass) -> bool {
    match pass {
        HierarchyPass::Regular => n.has_transform,
        HierarchyPass::World => true,
    }
}

/// Whether `c` names, as its parent, the entity of node `p`.
pub open spec fn names_parent(nodes: Seq<HierarchyNode>, c: int, p: int) -> bool {
    nodes[c].parent == Some(nodes[p].entity)
}

/// Number of roots among the first `k` nodes.
pub open spec fn root_count(nodes: Seq<HierarchyNode>, pass: HierarchyPass, k: int) -> nat
    decreases k,
{
    if k <= 0 {
        0
    } else {
        root_count(nodes, pass, k - 1) + if is_root(nodes[k - 1], pass) { 1nat } else { 0nat }
    }
}

/// The plan is well formed: it visits nodes at most once, starts with every
/// root in node order, and attaches each other node to the first earlier step
/// whose entity it names as parent.
pub open spec fn plan_shape(nodes: Seq<HierarchyNode>, pass: HierarchyPass, plan: Seq<PlanStep>) -> bool {
    let r = root_count(nodes, pass, nodes.len() as int);
    &&& r <= plan.len()
    // nodes are in range and distinct
    &&& forall|i: int| 0 <= i < plan.len() ==> #[trigger] plan[i].node < nodes.len()
    &&& forall|i: int, j: int|
        0 <= i < j < plan.len() ==> #[trigger] plan[i].node != #[trigger] plan[j].node
    // the roots come first, in node order, all of them
    &&& forall|i: int| 0 <= i < r ==> (#[trigger] plan[i]).parent_step is None
    &&& forall|i: int| 0 <= i < r ==> is_root(nodes[(#[trigger] plan[i]).node as int], pass)
    &&& forall|i: int, j: int| 0 <= i < j < r ==> plan[i].node < plan[j].node
    // every other step hangs below an earlier step
    &&& forall|i: int|
        r <= i < plan.len() ==> {
            let s = #[trigger] plan[i];
            &&& s.parent_step is Some
            &&& s.parent_step->0 < i
            &&& admits_child(nodes[s.node as int], pass)
            &&& names_parent(nodes, s.node as int, plan[s.parent_step->0 as int].node as int)
            &&& forall|q: int|
                0 <= q < s.parent_step->0 ==> !names_parent(nodes, s.node as int, #[trigger] plan[q].node as int)
        }
    // breadth-first order: by parent step, then by node position
    &&& forall|i: int, j: int|
        r <= i < j < plan.len() ==> {
            let a = #[trigger] plan[i];
            let b = #[trigger] plan[j];
            a.parent_step->0 < b.parent_step->0 || (a.parent_step->0 == b.parent_step->0 && a.node
                < b.node)
        }
}

/// Every child that names the entity of a planned step is planned too.
pub open spec fn plan_closed(nodes: Seq<HierarchyNode>, pass: HierarchyPass, plan: Seq<PlanStep>) -> bool {
    forall|i: int, c: int|
        0 <= i < plan.len() && 0 <= c < nodes.len() && admits_child(nodes[c], pass)
            && #[trigger] names_parent(nodes, c, plan[i].node as int) ==> exists|j: int|
            0 <= j < plan.len() && #[trigger] plan[j].node == c
}

/// Whether node `c` appears in the plan.
pub open spec fn planned(plan: Seq<PlanStep>, c: int) -> bool {
    exists|j: int| 0 <= j < plan.len() && #[trigger] plan[j].node == c
}

proof fn lemma_root_count_step(nodes: Seq<HierarchyNode>, pass: HierarchyPass, k: int)
    requires
        0 <= k,
    ensures
        root_count(nodes, pass, k + 1) == root_count(nodes, pass, k) + if is_root(nodes[k], pass) {
            1nat
        } else {
            0nat
        },
{
}

proof fn lemma_distinct_nodes_bounded(plan: Seq<PlanStep>, n: int)
    requires
        0 <= n,
        forall|i: int| 0 <= i < plan.len() ==> #[trigger] plan[i].node < n,
        forall|i: int, j: int| 0 <= i < j < plan.len() ==> #[trigger] plan[i].node != #[trigger] plan[j].node,
    ensures
        plan.len() <= n,
{
    let s = plan.map_values(|st: PlanStep| st.node as int);
    assert(s.no_duplicates()) by {
        assert forall|i: int, j: int| 0 <= i < s.len() && 0 <= j < s.len() && i != j implies s[i] != s[j] by {
            if i < j {
                assert(plan[i].node != plan[j].node);
            } else {
                assert(plan[j].node != plan[i].node);
            }
        }
    }
    s.unique_seq_to_set();
    let range = vstd::set_lib::set_int_range(0, n);
    vstd::set_lib::lemma_int_range(0, n);
    assert(s.to_set().subset_of(range)) by {
        assert forall|x: int| s.to_set().contains(x) implies range.contains(x) by {
            let i = choose|i: int| 0 <= i < s.len() && s[i] == x;
            assert(plan[i].node < n);
        }
    }
    vstd::set_lib::lemma_len_subset(s.to_set(), range);
}

/// Collects the roots of the pass, in node order.
fn plan_roots(nodes: &Vec<HierarchyNode>, pass: HierarchyPass, visited: &mut Vec<bool>) -> (plan: Vec<PlanStep>)
    requires
        old(visited)@.len() == nodes@.len(),
        forall|k: int| 0 <= k < nodes@.len() ==> !old(visited)@[k],
    ensures
        plan@.len() == root_count(nodes@, pass, nodes@.len() as int),
        final(visited)@.len() == nodes@.len(),
        forall|i: int| 0 <= i < plan@.len() ==> #[trigger] plan@[i].node < nodes@.len(),
        forall|i: int, j: int| 0 <= i < j < plan@.len() ==> plan@[i].node < plan@[j].node,
        forall|i: int| 0 <= i < plan@.len() ==> (#[trigger] plan@[i]).parent_step is None,
        forall|i: int| 0 <= i < plan@.len() ==> is_root(nodes@[(#[trigger] plan@[i]).node as int], pass),
        forall|k: int| 0 <= k < nodes@.len() ==> (final(visited)@[k] <==> planned(plan@, k)),
        forall|k: int| 0 <= k < nodes@.len() ==> (final(visited)@[k] <==> is_root(nodes@[k], pass)),
{
    let mut plan: Vec<PlanStep> = Vec::new();
    let n = nodes.len();
    let mut k: usize = 0;
    while k < n
        invariant
            n == nodes@.len(),
            k <= n,
            visited@.len() == n,
            plan@.len() == root_count(nodes@, pass, k as int),
            forall|i: int| 0 <= i < plan@.len() ==> #[trigger] plan@[i].node < k,
            forall|i: int, j: int| 0 <= i < j < plan@.len() ==> plan@[i].node < plan@[j].node,
            forall|i: int| 0 <= i < plan@.len() ==> (#[trigger] plan@[i]).parent_step is None,
            forall|i: int| 0 <= i < plan@.len() ==> is_root(nodes@[(#[trigger] plan@[i]).node as int], pass),
            forall|x: int| 0 <= x < k ==> (visited@[x] <==> planned(plan@, x)),
            forall|x: int| 0 <= x < k ==> (visited@[x] <==> is_root(nodes@[x], pass)),
            forall|x: int| k <= x < n ==> !visited@[x],
        decreases n - k,
    {
        proof {
            lemma_root_count_step(nodes@, pass, k as int);
        }
        let node = &nodes[k];
        let root = node.parent.is_none() && match pass {
            HierarchyPass::Regular => node.has_transform,
            HierarchyPass::World => node.has_world_transform,
        };
        let ghost old_plan = plan@;
        if root {
            plan.push(PlanStep { node: k, parent_step: None });
            visited.set(k, true);
            proof {
                assert(plan@[plan@.len() - 1].node == k);
                assert forall|x: int| 0 <= x < k + 1 implies (visited@[x] <==> planned(plan@, x)) by {
                    if x < k {
                        if planned(old_plan, x) {
                            let j = choose|j: int| 0 <= j < old_plan.len() && #[trigger] old_plan[j].node == x;
                            assert(plan@[j].node == x);
                        }
                        if planned(plan@, x) {
                            let j = choose|j: int| 0 <= j < plan@.len() && #[trigger] plan@[j].node == x;
                            assert(j < old_plan.len());
                            assert(old_plan[j].node == x);
                        }
                    } else {
                        assert(plan@[plan@.len() - 1].node == x);
                    }
                }
            }
        } else {
            proof {
                assert forall|x: int| 0 <= x < k + 1 implies (visited@[x] <==> planned(plan@, x)) by {
                    if x == k {
                        if planned(plan@, x) {
                            let j = choose|j: int| 0 <= j < plan@.len() && #[trigger] plan@[j].node == x;
                            assert(plan@[j].node < k);
                        }
                    }
                }
            }
        }
        k = k + 1;
    }
    plan
}

/// The breadth-first plan of a hierarchy pass.
///
/// Roots are the nodes without a parent that carry the pass's transform.
/// Children are visited level by level: for each planned step in order, the
/// nodes naming its entity as parent, in node order. A node already planned is
/// not planned again, so cycles and repeated ids cannot loop.
#[verifier::rlimit(60)]
#[verifier::spinoff_prover]
pub fn hierarchy_plan(nodes: &Vec<HierarchyNode>, pass: HierarchyPass) -> (plan: Vec<PlanStep>)
    ensures
        plan_shape(nodes@, pass, plan@),
        plan_closed(nodes@, pass, plan@),
{
    let n = nodes.len();
    let mut visited: Vec<bool> = Vec::new();
    let mut k: usize = 0;
    while k < n
        invariant
            k <= n,
            visited@.len() == k,
            forall|x: int| 0 <= x < k ==> !visited@[x],
        decreases n - k,
    {
        visited.push(false);
        k = k + 1;
    }
    let mut plan = plan_roots(nodes, pass, &mut visited);
    let ghost r: int = plan@.len() as int;
    proof {
        assert forall|i: int, j: int| 0 <= i < j < plan@.len() implies #[trigger] plan@[i].node
            != #[trigger] plan@[j].node by {
            assert(plan@[i].node < plan@[j].node);
        }
        lemma_distinct_nodes_bounded(plan@, n as int);
    }
    let mut head: usize = 0;
    while head < plan.len()
        invariant
            n == nodes@.len(),
            visited@.len() == n,
            r == root_count(nodes@, pass, n as int),
            r <= plan@.len(),
            head <= plan@.len(),
            plan@.len() <= n,
            forall|i: int| 0 <= i < plan@.len() ==> #[trigger] plan@[i].node < n,
            forall|i: int, j: int|
                0 <= i < j < plan@.len() ==> #[trigger] plan@[i].node != #[trigger] plan@[j].node,
            forall|i: int| 0 <= i < r ==> (#[trigger] plan@[i]).parent_step is None,
            forall|i: int| 0 <= i < r ==> is_root(nodes@[(#[trigger] plan@[i]).node as int], pass),
            forall|i: int, j: int| 0 <= i < j < r ==> plan@[i].node < plan@[j].node,
            forall|x: int| 0 <= x < n ==> (visited@[x] <==> planned(plan@, x)),
            forall|x: int| 0 <= x < n && is_root(nodes@[x], pass) ==> visited@[x],
            forall|i: int|
                r <= i < plan@.len() ==> {
                    let s = #[trigger] plan@[i];
                    &&& s.parent_step is Some
                    &&& s.parent_step->0 < i
                    &&& s.parent_step->0 < head
                    &&& admits_child(nodes@[s.node as int], pass)
                    &&& names_parent(nodes@, s.node as int, plan@[s.parent_step->0 as int].node as int)
                    &&& forall|q: int|
                        0 <= q < s.parent_step->0 ==> !names_parent(
                            nodes@,
                            s.node as int,
                            #[trigger] plan@[q].node as int,
                        )
                },
            forall|i: int, j: int|
                r <= i < j < plan@.len() ==> {
                    let a = #[trigger] plan@[i];
                    let b = #[trigger] plan@[j];
                    a.parent_step->0 < b.parent_step->0 || (a.parent_step->0 == b.parent_step->0
                        && a.node < b.node)
                },
            // every step before `head` has had all its children planned
            forall|q: int, c: int|
                0 <= q < head && 0 <= c < n && admits_child(nodes@[c], pass) && #[trigger] names_parent(nodes@, c, plan@[q].node as int) ==> visited@[c],
        decreases n - head,
    {
        let parent_entity = nodes[plan[head].node].entity;
        let ghost before = plan@;
        let mut c: usize = 0;
        while c < n
            invariant
                n == nodes@.len(),
                visited@.len() == n,
                r == root_count(nodes@, pass, n as int),
                r <= before.len(),
                head < before.len(),
                before.len() <= plan@.len(),
                plan@.subrange(0, before.len() as int) == before,
                c <= n,
                parent_entity == nodes@[plan@[head as int].node as int].entity,
                forall|i: int| 0 <= i < plan@.len() ==> #[trigger] plan@[i].node < n,
                forall|i: int, j: int|
                    0 <= i < j < plan@.len() ==> #[trigger] plan@[i].node != #[trigger] plan@[j].node,
                forall|x: int| 0 <= x < n ==> (visited@[x] <==> planned(plan@, x)),
                forall|x: int| 0 <= x < n && is_root(nodes@[x], pass) ==> visited@[x],
                forall|i: int|
                    before.len() <= i < plan@.len() ==> {
                        let s = #[trigger] plan@[i];
                        &&& s.parent_step == Some(head)
                        &&& s.node < c
                        &&& admits_child(nodes@[s.node as int], pass)
                        &&& names_parent(nodes@, s.node as int, plan@[head as int].node as int)
                        &&& forall|q: int|
                            0 <= q < head ==> !names_parent(
                                nodes@,
                                s.node as int,
                                #[trigger] plan@[q].node as int,
                            )
                    },
                forall|i: int, j: int|
                    before.len() <= i < j < plan@.len() ==> (#[trigger] plan@[i]).node
                        < (#[trigger] plan@[j]).node,
                forall|i: int|
                    r <= i < before.len() ==> {
                        let s = #[trigger] plan@[i];
                        &&& s.parent_step is Some
                        &&& s.parent_step->0 < i
                        &&& s.parent_step->0 < head
                        &&& admits_child(nodes@[s.node as int], pass)
                        &&& names_parent(nodes@, s.node as int, plan@[s.parent_step->0 as int].node as int)
                        &&& forall|q: int|
                            0 <= q < s.parent_step->0 ==> !names_parent(
                                nodes@,
                                s.node as int,
                                #[trigger] plan@[q].node as int,
                            )
                    },
                forall|i: int, j: int|
                    r <= i < j < before.len() ==> {
                        let a = #[trigger] plan@[i];
                        let b = #[trigger] plan@[j];
                        a.parent_step->0 < b.parent_step->0 || (a.parent_step->0 == b.parent_step->0
                            && a.node < b.node)
                    },
                forall|i: int| 0 <= i < r ==> (#[trigger] plan@[i]).parent_step is None,
                forall|i: int| 0 <= i < r ==> is_root(nodes@[(#[trigger] plan@[i]).node as int], pass),
                forall|i: int, j: int| 0 <= i < j < r ==> plan@[i].node < plan@[j].node,
                forall|q: int, x: int|
                    0 <= q < head && 0 <= x < n && admits_child(nodes@[x], pass) && #[trigger] names_parent(nodes@, x, plan@[q].node as int) ==> visited@[x],
                forall|x: int|
                    0 <= x < c && admits_child(nodes@[x], pass) && names_parent(
                        nodes@,
                        x,
                        plan@[head as int].node as int,
                    ) ==> visited@[x],
            decreases n - c,
        {
            let child = &nodes[c];
            let admitted = match pass {
                HierarchyPass::Regular => child.has_transform,
                HierarchyPass::World => true,
            };
            let names = match child.parent {
                Some(p) => p == parent_entity,
                None => false,
            };
            if names && admitted && !visited[c] {
                let ghost prev = plan@;
                plan.push(PlanStep { node: c, parent_step: Some(head) });
                visited.set(c, true);
                proof {
                    assert(plan@[plan@.len() - 1].node == c);
                    assert forall|q: int| 0 <= q < head implies !names_parent(
                        nodes@,
                        c as int,
                        #[trigger] plan@[q].node as int,
                    ) by {
                        assert(plan@[q] == prev[q]);
                    }
                    assert forall|x: int| 0 <= x < n implies (visited@[x] <==> planned(plan@, x)) by {
                        if x != c {
                            if planned(prev, x) {
                                let j = choose|j: int| 0 <= j < prev.len() && #[trigger] prev[j].node == x;
                                assert(plan@[j].node == x);
                            }
                            if planned(plan@, x) {
                                let j = choose|j: int| 0 <= j < plan@.len() && #[trigger] plan@[j].node == x;
                                assert(j < prev.len());
                                assert(prev[j].node == x);
                            }
                        } else {
                            assert(plan@[plan@.len() - 1].node == x);
                        }
                    }
                    assert forall|i: int, j: int|
                        0 <= i < j < plan@.len() implies #[trigger] plan@[i].node
                        != #[trigger] plan@[j].node by {
                        if j == plan@.len() - 1 {
                            assert(planned(prev, plan@[i].node as int));
                        }
                    }
                    assert(plan@.subrange(0, before.len() as int) =~= before);
                }
            }
            c = c + 1;
        }
        proof {
            lemma_distinct_nodes_bounded(plan@, n as int);
        }
        head = head + 1;
    }
    plan
}

/// Nodes that name a parent but carry neither kind of transform, in node order.
pub open spec fn orphaned_transforms(nodes: Seq<HierarchyNode>) -> Seq<usize>
    decreases nodes.len(),
{
    if nodes.len() == 0 {
        Seq::empty()
    } else {
        let n = nodes.last();
        let rest = orphaned_transforms(nodes.drop_last());
        if n.parent is Some && !n.has_transform && !n.has_world_transform {
            rest.push((nodes.len() - 1) as usize)
        } else {
            rest
        }
    }
}

/// The hierarchy check: positions of the nodes that have a parent but no
/// transform of either kind (each such node is one issue).
pub fn validate_hierarchy(nodes: &Vec<HierarchyNode>) -> (issues: Vec<usize>)
    ensures
        issues@ == orphaned_transforms(nodes@),
{
    let mut issues: Vec<usize> = Vec::new();
    let mut i: usize = 0;
    while i < nodes.len()
        invariant
            i <= nodes.len(),
            issues@ == orphaned_transforms(nodes@.subrange(0, i as int)),
        decreases nodes.len() - i,
    {
        proof {
            assert(nodes@.subrange(0, i + 1).drop_last() =~= nodes@.subrange(0, i as int));
        }
        let n = &nodes[i];
        if n.parent.is_some() && !n.has_transform && !n.has_world_transform {
            issues.push(i);
        }
        i = i + 1;
    }
    proof {
        assert(nodes@.subrange(0, nodes@.len() as int) =~= nodes@);
    }
    issues
}

} // verus!
