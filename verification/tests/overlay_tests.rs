use engine::census::{check_scene_health, collect_debug_info, default_mesh_assignments, scene_stats, EntityComponents};
use engine::debug_overlay::{tally_mesh_usage, DebugOverlay, MeshUsage, PerformanceMetrics, SceneDebugInfo};
use engine::dev::{DevLogLevel, DevTools};
use engine::hot_reload::{ReloadGate, WatcherAction, WatcherConfig, WatcherEvent};
use engine::input::{script_button_id, ElementState, MouseButton, PressedInputs};
use engine::text::decimal_string;

fn entity(transform: bool, global: bool, camera: bool, material: bool, mesh: Option<&str>) -> EntityComponents {
    EntityComponents {
        has_transform: transform,
        has_global_transform: global,
        has_camera: camera,
        has_parent: false,
        has_material: material,
        mesh: mesh.map(|m| m.to_string()),
    }
}

#[test]
fn test_scene_debug_info_collection() {
    let entities = vec![
        entity(true, false, false, false, None),
        entity(true, false, false, false, None),
    ];
    let timings = PerformanceMetrics { entity_query_time_ns: 1_500, component_query_time_ns: 2_500 };
    let debug_info = collect_debug_info(&entities, Some(timings));
    assert_eq!(debug_info.total_entities, 2);
    assert!(debug_info.performance_metrics.is_some());
    assert_eq!(debug_info.transforms, 2);
    assert_eq!(debug_info.performance_summary(), "Query time: 1µs entities, 2µs components");
}

#[test]
fn test_debug_overlay_update() {
    let mut overlay = DebugOverlay::new(0);
    overlay.force_update(10, collect_debug_info(&Vec::new(), None));
    assert!(overlay.debug_info().is_some());

    let info = overlay.debug_info().unwrap();
    assert_eq!(info.total_entities, 0);
}

#[test]
fn test_scene_health_check() {
    let mut overlay = DebugOverlay::new(0);
    overlay.force_update(10, collect_debug_info(&Vec::new(), None));
    let warnings = overlay.check_scene_health();
    assert!(warnings.iter().any(|w| w.contains("No camera")));
}

#[test]
fn test_debug_info_formatting() {
    let debug_info = SceneDebugInfo {
        total_entities: 5,
        renderable_entities: 3,
        cameras: 1,
        transforms: 4,
        global_transforms: 4,
        parent_relationships: 2,
        mesh_usage: tally_mesh_usage(&vec!["cube".to_string(), "cube".to_string(), "sphere".to_string()]),
        materials: 3,
        performance_metrics: None,
    };

    let summary = debug_info.summary();
    assert!(summary.contains("Entities: 5"));
    assert!(summary.contains("Renderable: 3"));
    assert!(summary.contains("Cameras: 1"));

    let mesh_summary = debug_info.mesh_usage_summary();
    assert!(mesh_summary.contains("cube"));
    assert!(mesh_summary.contains("sphere"));
}

#[test]
fn debug_texts_are_exact() {
    let debug_info = SceneDebugInfo {
        total_entities: 5,
        renderable_entities: 3,
        cameras: 1,
        transforms: 4,
        global_transforms: 4,
        parent_relationships: 2,
        mesh_usage: tally_mesh_usage(&vec!["cube".to_string(), "sphere".to_string(), "cube".to_string()]),
        materials: 3,
        performance_metrics: None,
    };
    assert_eq!(debug_info.summary(), "Entities: 5, Renderable: 3, Cameras: 1, Meshes: 2");
    assert_eq!(debug_info.mesh_usage_summary(), "cube: 2, sphere: 1");
    assert_eq!(debug_info.performance_summary(), "No performance data");

    let mut overlay = DebugOverlay::new(0);
    assert_eq!(overlay.format_debug_info(), "Debug info not available");
    overlay.force_update(1, debug_info);
    assert_eq!(
        overlay.format_debug_info(),
        "Scene Debug Info:\n- Total Entities: 5\n- Renderable: 3\n- Cameras: 1\n- Transforms: 4\n- Unique Meshes: 2\n- Materials: 3\n- Parent Relationships: 2"
    );
}

#[test]
fn overlay_refreshes_only_after_the_interval() {
    let mut overlay = DebugOverlay::new(1_000);
    assert!(!overlay.is_update_due(1_000 + 499_999_999));
    overlay.update(1_000 + 499_999_999, collect_debug_info(&Vec::new(), None));
    assert!(overlay.debug_info().is_none());
    assert!(overlay.is_update_due(1_000 + 500_000_000));
    overlay.update(1_000 + 500_000_000, collect_debug_info(&vec![entity(true, true, true, true, Some("cube"))], None));
    assert_eq!(overlay.debug_info().unwrap().total_entities, 1);
    overlay.set_update_interval(10);
    assert!(!overlay.is_update_due(1_000 + 500_000_009));
    assert!(overlay.is_update_due(1_000 + 500_000_010));
    // A clock reading before the last refresh counts as no time passed.
    assert!(!overlay.is_update_due(0));
}

#[test]
fn health_warnings_cover_every_check() {
    let info = SceneDebugInfo {
        total_entities: 10,
        renderable_entities: 2,
        cameras: 3,
        transforms: 7,
        global_transforms: 5,
        parent_relationships: 0,
        mesh_usage: tally_mesh_usage(&vec!["a".to_string(), "b".to_string(), "a".to_string(), "c".to_string()]),
        materials: 1,
        performance_metrics: Some(PerformanceMetrics { entity_query_time_ns: 2_500_000, component_query_time_ns: 0 }),
    };
    let mut overlay = DebugOverlay::new(0);
    overlay.force_update(0, info);
    assert_eq!(
        overlay.check_scene_health(),
        vec![
            "3 entities without Transform components".to_string(),
            "2 entities with Transform but no GlobalTransform".to_string(),
            "3 camera entities found (multiple cameras)".to_string(),
            "3 entities with meshes but possibly missing materials".to_string(),
            "Slow entity queries: 2ms".to_string(),
        ]
    );
}

#[test]
fn scene_statistics_count_components() {
    let entities = vec![
        entity(true, true, false, true, Some("cube")),
        entity(true, true, false, false, Some("cube")),
        entity(true, true, true, false, None),
        entity(false, false, false, true, Some("sphere")),
    ];
    let stats = scene_stats(&entities);
    assert_eq!(stats.entity_count, 4);
    assert_eq!(stats.renderable_count, 1);
    assert_eq!(stats.camera_count, 1);
    assert_eq!(stats.material_count, 2);
    assert_eq!(stats.mesh_types.count_of("cube"), 2);
    assert_eq!(stats.mesh_types.count_of("sphere"), 1);
    assert_eq!(stats.mesh_types.count_of("plane"), 0);
    assert_eq!(stats.mesh_types.len(), 2);
}

#[test]
fn world_health_messages() {
    let entities = vec![
        entity(true, true, false, false, None),
        entity(true, true, false, false, None),
    ];
    let stats = scene_stats(&entities);
    let records = check_scene_health(&stats, 2);
    let texts: Vec<(bool, String)> = records
        .iter()
        .map(|r| (r.level == DevLogLevel::Warning, r.message.clone()))
        .collect();
    assert_eq!(
        texts,
        vec![
            (true, "No camera entities found in scene".to_string()),
            (true, "Entities present but none are renderable".to_string()),
            (false, "2 entities with transforms could have default meshes assigned".to_string()),
        ]
    );

    let cameras = vec![
        entity(true, true, true, true, Some("cube")),
        entity(false, false, true, false, None),
    ];
    let records = check_scene_health(&scene_stats(&cameras), 1);
    assert_eq!(records.len(), 1);
    assert_eq!(records[0].message, "Multiple cameras found: 2");
}

#[test]
fn default_meshes_go_to_transformed_entities_without_mesh() {
    let entities = vec![
        entity(true, true, false, false, None),
        entity(true, true, false, true, None),
        entity(true, false, false, false, None),
        entity(true, true, false, false, Some("cube")),
    ];
    assert_eq!(default_mesh_assignments(&entities), vec![(0, true), (1, false)]);
}

#[test]
fn dev_log_records_carry_their_level() {
    let info = DevTools::log_dev_info("hello").unwrap();
    assert!(info.level == DevLogLevel::Info);
    assert_eq!(info.message, "hello");
    assert!(DevTools::log_dev_warning("w").unwrap().level == DevLogLevel::Warning);
    assert!(DevTools::log_dev_error("e").unwrap().level == DevLogLevel::Error);
}

#[test]
fn decimal_text() {
    assert_eq!(decimal_string(0), "0");
    assert_eq!(decimal_string(907), "907");
    assert_eq!(decimal_string(u64::MAX), "18446744073709551615");
}

#[test]
fn reload_gate_debounces_rapid_changes() {
    let config = WatcherConfig::default();
    let mut gate = ReloadGate::new(0);
    let change = |t: u64| WatcherEvent::FileChanged { touches_scene: true, now_ns: t };

    assert!(gate.step(&config, change(100_000_000)) == WatcherAction::Debounced);
    assert!(gate.step(&config, change(300_000_000)) == WatcherAction::Reload);
    assert_eq!(gate.last_reload_ns, 300_000_000);
    assert!(gate.step(&config, change(599_999_999)) == WatcherAction::Debounced);
    assert!(gate.step(&config, change(600_000_000)) == WatcherAction::Reload);
    assert!(gate.step(&config, WatcherEvent::FileChanged { touches_scene: false, now_ns: 2_000_000_000 }) == WatcherAction::Continue);
    assert!(gate.step(&config, WatcherEvent::Timeout) == WatcherAction::Continue);
    assert!(gate.step(&config, WatcherEvent::Stop) == WatcherAction::Exit);
    assert!(gate.step(&config, WatcherEvent::Disconnected) == WatcherAction::Exit);
    assert_eq!(gate.last_reload_ns, 600_000_000);
    // A clock reading before the last reload counts as no time passed.
    assert!(gate.step(&config, change(5)) == WatcherAction::Debounced);
}

#[test]
fn mouse_buttons_are_numbered_for_scripts() {
    assert_eq!(script_button_id(MouseButton::Left), 0);
    assert_eq!(script_button_id(MouseButton::Right), 1);
    assert_eq!(script_button_id(MouseButton::Middle), 2);
    assert_eq!(script_button_id(MouseButton::Back), 3);
    assert_eq!(script_button_id(MouseButton::Forward), 4);
    assert_eq!(script_button_id(MouseButton::Other(7)), 7);
    assert_eq!(script_button_id(MouseButton::Other(300)), 44);
}

#[test]
fn keys_and_buttons_are_held_until_released() {
    let mut inputs = PressedInputs::new();
    inputs.handle_key(17, ElementState::Pressed);
    inputs.handle_key(57, ElementState::Pressed);
    assert!(inputs.is_key_pressed(17));
    inputs.handle_key(17, ElementState::Released);
    assert!(!inputs.is_key_pressed(17));
    assert_eq!(inputs.pressed_keys(), vec![57]);

    inputs.handle_mouse_button(MouseButton::Left, ElementState::Pressed);
    inputs.handle_mouse_button(MouseButton::Left, ElementState::Pressed);
    inputs.handle_mouse_button(MouseButton::Other(256), ElementState::Pressed);
    assert!(inputs.is_mouse_button_pressed(MouseButton::Left));
    let ids = inputs.pressed_button_ids();
    assert_eq!(ids, vec![0]);
    inputs.handle_mouse_button(MouseButton::Left, ElementState::Released);
    assert!(!inputs.is_mouse_button_pressed(MouseButton::Left));
    assert!(inputs.is_mouse_button_pressed(MouseButton::Other(256)));
    assert_eq!(inputs.pressed_button_ids(), vec![0]);
    inputs.handle_mouse_button(MouseButton::Other(256), ElementState::Released);
    assert!(inputs.pressed_button_ids().is_empty());
}

#[test]
fn mesh_usage_records_a_repeated_name_once() {
    let mut usage = MeshUsage::new();
    usage.record("cube");
    usage.record("sphere");
    usage.record("cube");
    assert_eq!(usage.len(), 2);
    assert_eq!(usage.total_count(), 3);
    assert_eq!(usage.count_of("cube"), 2);
    let (first, n) = usage.entry(0);
    assert_eq!(first.as_str(), "cube");
    assert_eq!(n, 2);
    let (second, m) = usage.entry(1);
    assert_eq!(second.as_str(), "sphere");
    assert_eq!(m, 1);
}
