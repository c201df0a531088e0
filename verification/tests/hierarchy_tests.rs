use engine::hierarchy::{advance_frame, hierarchy_plan, reset_frame_counters, FrameCounters, HierarchyNode, HierarchyPass, PlanStep};

fn node(entity: u64, parent: Option<u64>, has_transform: bool) -> HierarchyNode {
    HierarchyNode { entity, parent, has_transform, has_world_transform: false }
}

fn step(node: usize, parent_step: Option<usize>) -> PlanStep {
    PlanStep { node, parent_step }
}

#[test]
fn frame_tracking_allows_one_update_per_frame() {
    let mut counters = FrameCounters::new();
    reset_frame_counters(&mut counters);
    advance_frame(&mut counters);
    assert!(counters.begin_hierarchy_update());
    assert!(!counters.begin_hierarchy_update());
    advance_frame(&mut counters);
    assert!(counters.begin_hierarchy_update());
    assert!(!counters.begin_hierarchy_update());
}

#[test]
fn no_update_before_the_first_frame_advance() {
    let mut counters = FrameCounters::new();
    assert!(!counters.begin_hierarchy_update());
}

#[test]
fn frame_counter_wraps_around() {
    let mut counters = FrameCounters { current_frame: u64::MAX, last_hierarchy_update_frame: u64::MAX };
    advance_frame(&mut counters);
    assert_eq!(counters.current_frame, 0);
    assert!(counters.begin_hierarchy_update());
}

#[test]
fn plan_visits_levels_in_order() {
    // 0: root a, 1: child of c, 2: c child of a, 3: b child of a, 4: second root
    let nodes = vec![
        node(10, None, true),
        node(11, Some(12), true),
        node(12, Some(10), true),
        node(13, Some(10), true),
        node(14, None, true),
    ];
    let plan = hierarchy_plan(&nodes, HierarchyPass::Regular);
    assert!(plan == vec![step(0, None), step(4, None), step(2, Some(0)), step(3, Some(0)), step(1, Some(2))]);
}

#[test]
fn cycles_and_orphans_are_not_planned() {
    // a and b name each other as parent; d names a missing entity.
    let nodes = vec![node(1, Some(2), true), node(2, Some(1), true), node(3, None, true), node(4, Some(99), true)];
    let plan = hierarchy_plan(&nodes, HierarchyPass::Regular);
    assert!(plan == vec![step(2, None)]);
}

#[test]
fn regular_pass_skips_nodes_without_transform() {
    let nodes = vec![node(1, None, true), node(2, Some(1), false), node(3, None, false)];
    let plan = hierarchy_plan(&nodes, HierarchyPass::Regular);
    assert!(plan == vec![step(0, None)]);
}

#[test]
fn world_pass_takes_any_child_of_a_world_root() {
    let nodes = vec![
        HierarchyNode { entity: 1, parent: None, has_transform: false, has_world_transform: true },
        HierarchyNode { entity: 2, parent: Some(1), has_transform: true, has_world_transform: false },
        HierarchyNode { entity: 3, parent: None, has_transform: true, has_world_transform: false },
    ];
    let plan = hierarchy_plan(&nodes, HierarchyPass::World);
    assert!(plan == vec![step(0, None), step(1, Some(0))]);
}
