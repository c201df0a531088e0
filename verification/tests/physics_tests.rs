use engine::body_registry::BodyRegistry;
use engine::coloring::{build_adjacency, color_class, coloring_for_constraints, constraint_pairs, VertexColoring};
use engine::spatial_hash::SpatialHash;

#[test]
fn test_vertex_coloring() {
    let adjacency = vec![
        vec![1, 2],
        vec![0, 2],
        vec![0, 1, 3],
        vec![2],
    ];

    let coloring = VertexColoring::greedy(&adjacency);

    for (i, neighbors) in adjacency.iter().enumerate() {
        for &j in neighbors {
            assert_ne!(coloring.colors[i], coloring.colors[j]);
        }
    }
}

#[test]
fn greedy_coloring_takes_smallest_free_colors() {
    let adjacency = vec![vec![1, 2], vec![0, 2], vec![0, 1, 3], vec![2]];
    let coloring = VertexColoring::greedy(&adjacency);
    assert_eq!(coloring.colors, vec![0, 1, 2, 0]);
    assert_eq!(coloring.max_color, 2);
}

#[test]
fn sequential_coloring_uses_one_color() {
    let coloring = VertexColoring::sequential(3);
    assert_eq!(coloring.colors, vec![0, 0, 0]);
    assert_eq!(coloring.max_color, 0);
}

#[test]
fn empty_graph_has_no_colors() {
    let coloring = VertexColoring::greedy(&Vec::new());
    assert!(coloring.colors.is_empty());
    assert_eq!(coloring.max_color, 0);
}

#[test]
fn constraints_between_two_bodies_make_edges() {
    let constraints = vec![vec![0, 1], vec![1, 2], vec![3], vec![0, 2, 3]];
    let pairs = constraint_pairs(&constraints);
    assert_eq!(pairs, vec![(0, 1), (1, 2)]);

    let adjacency = build_adjacency(4, &pairs);
    assert_eq!(adjacency[1].len(), 2);
    assert!(adjacency[0].contains(&1));
    assert!(adjacency[2].contains(&1));
    assert!(adjacency[3].is_empty());

    let coloring = coloring_for_constraints(4, &constraints);
    assert_ne!(coloring.colors[0], coloring.colors[1]);
    assert_ne!(coloring.colors[1], coloring.colors[2]);
    let class0 = color_class(&coloring, coloring.colors[0]);
    assert!(class0.contains(&0));
    assert!(!class0.contains(&1));
}

fn cell_of(x: f32, cell_size: f32) -> i32 {
    (x / cell_size).floor() as i32
}

fn cell_box(min: f32, max: f32, cell_size: f32) -> ((i32, i32, i32), (i32, i32, i32)) {
    let lo = cell_of(min, cell_size);
    let hi = cell_of(max, cell_size);
    ((lo, lo, lo), (hi, hi, hi))
}

#[test]
fn test_spatial_hash() {
    let mut hash = SpatialHash::new();

    let (a1, b1) = cell_box(0.0, 1.0, 1.0);
    let (a2, b2) = cell_box(0.5, 1.5, 1.0);
    let (a3, b3) = cell_box(10.0, 11.0, 1.0);

    hash.insert(0, a1, b1);
    hash.insert(1, a2, b2);
    hash.insert(2, a3, b3);

    let query = hash.query(a1, b1);
    assert!(query.contains(&0));
    assert!(query.contains(&1));
    assert!(!query.contains(&2));
}

#[test]
fn spatial_hash_query_reports_each_entry_once_in_first_met_order() {
    let mut hash = SpatialHash::new();
    hash.insert(5, (0, 0, 0), (1, 0, 0));
    hash.insert(3, (1, 0, 0), (1, 0, 0));
    hash.insert(9, (4, 4, 4), (4, 4, 4));
    assert_eq!(hash.query((0, 0, 0), (2, 0, 0)), vec![5, 3]);
    assert_eq!(hash.query((1, 0, 0), (1, 0, 0)), vec![5, 3]);
    assert!(hash.query((2, 2, 2), (3, 3, 3)).is_empty());
    assert_eq!(hash.query((4, 4, 4), (4, 4, 4)), vec![9]);
}

#[test]
fn spatial_hash_empty_boxes_and_clear() {
    let mut hash = SpatialHash::new();
    // A box whose upper corner lies below its lower corner covers no cell.
    hash.insert(1, (2, 0, 0), (1, 0, 0));
    assert!(hash.query((-5, -5, -5), (5, 5, 5)).is_empty());
    hash.insert(2, (-1, -1, -1), (-1, -1, -1));
    assert_eq!(hash.query((-1, -1, -1), (0, 0, 0)), vec![2]);
    hash.clear();
    assert!(hash.query((-1, -1, -1), (0, 0, 0)).is_empty());
}

#[test]
fn spatial_hash_extreme_cells() {
    let mut hash = SpatialHash::new();
    hash.insert(4, (i32::MAX, i32::MIN, 0), (i32::MAX, i32::MIN, 0));
    assert_eq!(hash.query((i32::MAX - 1, i32::MIN, 0), (i32::MAX, i32::MIN + 1, 0)), vec![4]);
}

#[test]
fn body_registration_round_trip() {
    let mut registry = BodyRegistry::new();
    registry.register_body(10, 100);
    registry.register_body(11, 101);
    assert_eq!(registry.get_body_handle(10), Some(100));
    assert_eq!(registry.get_entity_for_body(101), Some(11));
    assert_eq!(registry.get_body_handle(12), None);

    assert_eq!(registry.unregister_body(10), Some(100));
    assert_eq!(registry.get_body_handle(10), None);
    assert_eq!(registry.get_entity_for_body(100), None);
    assert_eq!(registry.unregister_body(10), None);
    assert_eq!(registry.get_entity_for_body(101), Some(11));
}

#[test]
fn collider_registration_round_trip() {
    let mut registry = BodyRegistry::default();
    registry.register_collider(7, 1);
    registry.register_collider(7, 2);
    registry.register_collider(8, 3);
    assert_eq!(registry.get_collider_handles(7), &[1, 2]);
    assert_eq!(registry.get_collider_handles(9), &[] as &[u64]);

    assert_eq!(registry.unregister_colliders(7), vec![1, 2]);
    assert!(registry.get_collider_handles(7).is_empty());
    assert!(registry.unregister_colliders(7).is_empty());
    assert_eq!(registry.get_collider_handles(8), &[3]);
}

use engine::broad_phase::{sort_dedup_pairs, sweep_candidates};

#[test]
fn test_sweep_and_prune() {
    // Intervals along the sweep axis: [0, 1], [0.5, 1.5], [10, 11].
    let mut endpoints: Vec<(f32, usize, bool)> = vec![
        (0.0, 0, true),
        (1.0, 0, false),
        (0.5, 1, true),
        (1.5, 1, false),
        (10.0, 2, true),
        (11.0, 2, false),
    ];
    endpoints.sort_by(|a, b| a.0.partial_cmp(&b.0).unwrap());
    let order: Vec<(usize, bool)> = endpoints.iter().map(|&(_, i, m)| (i, m)).collect();
    let pairs = sort_dedup_pairs(&sweep_candidates(&order));
    assert_eq!(pairs, vec![(0, 1)]);
}

#[test]
fn sweep_pairs_nested_and_chained_intervals() {
    // 0 spans everything; 1 and 2 touch only 0; 3 opens while 2 is open.
    let order = vec![(0, true), (1, true), (1, false), (2, true), (3, true), (2, false), (3, false), (0, false)];
    let mut candidates = sweep_candidates(&order);
    candidates.push((0, 1));
    assert_eq!(sort_dedup_pairs(&candidates), vec![(0, 1), (0, 2), (0, 3), (2, 3)]);
}

#[test]
fn sorted_pairs_are_canonical() {
    let pairs = vec![(3, 4), (0, 2), (3, 4), (0, 1), (2, 9), (0, 2)];
    assert_eq!(sort_dedup_pairs(&pairs), vec![(0, 1), (0, 2), (2, 9), (3, 4)]);
    assert!(sort_dedup_pairs(&Vec::new()).is_empty());
}

#[test]
fn cleanup_returns_what_the_entity_held() {
    let mut registry = BodyRegistry::new();
    registry.register_body(1, 10);
    registry.register_collider(1, 100);
    registry.register_collider(1, 101);
    registry.register_body(2, 20);
    let (body, colliders) = registry.cleanup_entity(1);
    assert_eq!(body, Some(10));
    assert_eq!(colliders, vec![100, 101]);
    assert_eq!(registry.get_body_handle(1), None);
    assert_eq!(registry.get_entity_for_body(10), None);
    assert!(registry.get_collider_handles(1).is_empty());
    assert_eq!(registry.cleanup_entity(1), (None, Vec::new()));

    registry.register_body(3, 30);
    let mut all = registry.registered_entities();
    all.sort();
    assert_eq!(all, vec![2, 3]);
    assert_eq!(registry.stale_entities(&vec![3, 7]), vec![2]);
    assert!(registry.stale_entities(&vec![2, 3]).is_empty());
}

#[test]
fn greedy_coloring_separates_neighbours_of_symmetric_graph() {
    // a five-cycle with a chord, each edge listed from both ends
    let edges = vec![(0usize, 1usize), (1, 2), (2, 3), (3, 4), (4, 0), (1, 3)];
    let mut adjacency: Vec<Vec<usize>> = vec![Vec::new(); 5];
    for &(a, b) in &edges {
        adjacency[a].push(b);
        adjacency[b].push(a);
    }
    let coloring = VertexColoring::greedy(&adjacency);
    for (a, list) in adjacency.iter().enumerate() {
        for &b in list {
            assert_ne!(coloring.colors[a], coloring.colors[b]);
        }
    }
    assert_eq!(coloring.colors, vec![0, 1, 0, 2, 1]);
}
