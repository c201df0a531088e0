use engine::asset_manager::{mesh_source, AssetManager, MeshSource};
use engine::assets::{AssetValidationReport, MeshId};
use engine::debug_overlay::AssetValidationDebug;
use engine::mesh_topology::{cube_indices, plane_indices, sphere_indices};
use engine::scissor::{clamp_scissor_to_target, safe_scissor_rect, RenderTargetInfo, ScissorRect};

fn to_physical(v: f32, scale: f32) -> u32 {
    (v * scale).round() as u32
}

#[test]
fn test_scissor_clamping() {
    let target = RenderTargetInfo { width: 800, height: 600 };

    let (x, y, w, h) = clamp_scissor_to_target(
        to_physical(100.0, 1.0),
        to_physical(100.0, 1.0),
        to_physical(200.0, 1.0),
        to_physical(200.0, 1.0),
        target,
    );
    assert_eq!((x, y, w, h), (100, 100, 200, 200));

    let (x, y, w, h) = clamp_scissor_to_target(
        to_physical(700.0, 1.0),
        to_physical(500.0, 1.0),
        to_physical(200.0, 1.0),
        to_physical(200.0, 1.0),
        target,
    );
    assert_eq!((x, y, w, h), (700, 500, 100, 100));

    let (x, y, w, h) = clamp_scissor_to_target(
        to_physical(50.0, 2.0),
        to_physical(50.0, 2.0),
        to_physical(100.0, 2.0),
        to_physical(100.0, 2.0),
        target,
    );
    assert_eq!((x, y, w, h), (100, 100, 200, 200));
}

#[test]
fn scissor_origin_outside_target_is_pulled_in() {
    let target = RenderTargetInfo { width: 800, height: 600 };
    assert_eq!(clamp_scissor_to_target(5000, 7000, 10, 10, target), (799, 599, 1, 1));
    assert_eq!(clamp_scissor_to_target(0, 0, 0, 0, target), (0, 0, 1, 1));
}

#[test]
fn zero_sized_target_gets_no_scissor() {
    assert!(safe_scissor_rect(0, 0, 10, 10, RenderTargetInfo { width: 0, height: 600 }).is_none());
    assert!(safe_scissor_rect(0, 0, 10, 10, RenderTargetInfo { width: 800, height: 0 }).is_none());
    let r = safe_scissor_rect(790, 10, 100, 100, RenderTargetInfo { width: 800, height: 600 }).unwrap();
    assert!(r == ScissorRect { x: 790, y: 10, width: 10, height: 100 });
}

#[test]
fn cube_index_topology() {
    let indices = cube_indices();
    assert_eq!(indices.len(), 36);
    assert!(indices.iter().all(|&i| i < 24));
    assert_eq!(&indices[0..6], &[0, 1, 2, 0, 2, 3]);
}

#[test]
fn plane_index_topology() {
    let indices = plane_indices();
    assert_eq!(indices.len(), 12);
    assert!(indices.iter().all(|&i| i < 4));
}

#[test]
fn sphere_index_topology() {
    let indices = sphere_indices(16, 8);
    assert_eq!(indices.len(), 16 * 8 * 6);
    assert!(indices.iter().all(|&i| (i as usize) < (16 + 1) * (8 + 1)));
}

#[test]
fn test_validation_report() {
    let mut report = AssetValidationReport::new("test.json".to_string());

    report.add_mesh_reference(0, "cube".to_string(), true);
    report.add_mesh_reference(1, "invalid".to_string(), false);
    report.add_material_reference(0, true);
    report.add_error(2, "Test error".to_string());

    assert!(!report.is_valid());
    assert_eq!(report.invalid_meshes().len(), 1);

    let summary = report.summary();
    assert_eq!(summary.total_mesh_references, 2);
    assert_eq!(summary.valid_mesh_references, 1);
    assert_eq!(summary.total_material_references, 1);
    assert_eq!(summary.valid_material_references, 1);
    assert_eq!(summary.total_errors, 1);
    assert!(!summary.is_valid);
}

#[test]
fn empty_report_is_valid() {
    let report = AssetValidationReport::new("scenes/empty.json".to_string());
    assert!(report.is_valid());
    assert!(report.summary().is_valid);
    assert!(report.invalid_meshes().is_empty());
}

#[test]
fn validation_report_text_lists_problems() {
    let mut report = AssetValidationReport::new("scenes/level1.json".to_string());
    report.add_mesh_reference(0, "cube".to_string(), true);
    report.add_mesh_reference(3, "teapot".to_string(), false);
    report.add_material_reference(0, true);
    report.add_error(4, "Invalid MeshId format".to_string());
    let text = AssetValidationDebug::format_validation_report(&report);
    assert_eq!(
        text,
        "Asset Validation Report for \"level1.json\"\nValid: false\nMeshes: 1/2\nMaterials: 1/1\nErrors: 1\n\
         \nInvalid Meshes:\n  Entity 3: teapot\n\
         \nErrors:\n  Entity 4: Invalid MeshId format\n"
    );
}

#[test]
fn validation_report_text_without_problems() {
    let mut report = AssetValidationReport::new("ok.json".to_string());
    report.add_mesh_reference(0, "sphere".to_string(), true);
    let text = AssetValidationDebug::format_validation_report(&report);
    assert_eq!(
        text,
        "Asset Validation Report for \"ok.json\"\nValid: true\nMeshes: 1/1\nMaterials: 0/0\nErrors: 0\n"
    );
}

#[test]
fn test_asset_manager_creation() {
    let manager = AssetManager::new();

    assert!(manager.has_mesh("cube"));
    assert!(manager.has_mesh("sphere"));
    assert!(manager.has_mesh("plane"));
    assert!(manager.has_mesh("error_mesh"));
    assert!(!manager.has_mesh("nonexistent"));
}

#[test]
fn test_mesh_validation() {
    let mut manager = AssetManager::new();

    assert!(manager.validate_mesh("cube"));
    assert!(manager.validate_mesh("sphere"));

    assert!(!manager.validate_mesh("nonexistent"));

    assert!(manager.is_cached("cube"));
    assert!(manager.is_cached("nonexistent"));
}

#[test]
fn registering_a_mesh_refreshes_its_cached_validation() {
    let mut manager = AssetManager::new();
    assert!(!manager.validate_mesh("custom_triangle"));
    assert!(manager.is_cached("custom_triangle"));
    manager.register_mesh("custom_triangle");
    assert!(!manager.is_cached("custom_triangle"));
    assert!(manager.has_mesh("custom_triangle"));
    assert!(manager.validate_mesh("custom_triangle"));
    assert!(manager.validate_mesh("custom_triangle"));
}

#[test]
fn available_meshes_lists_each_name_once() {
    let mut manager = AssetManager::new();
    manager.register_mesh("cube");
    manager.register_mesh("torus");
    let mut meshes = manager.available_meshes();
    meshes.sort();
    assert_eq!(meshes, vec!["cube", "error_mesh", "plane", "sphere", "torus"]);
}

#[test]
fn unknown_mesh_resolves_to_error_mesh() {
    let mut manager = AssetManager::new();
    assert_eq!(manager.resolve_mesh(&MeshId("sphere".to_string())).0, "sphere");
    assert_eq!(manager.resolve_mesh(&MeshId("dragon".to_string())).0, "error_mesh");
}

#[test]
fn mesh_sources() {
    let manager = AssetManager::new();
    assert!(mesh_source("models/ship.obj", &manager) == MeshSource::File);
    assert!(mesh_source("ship.obj", &manager) == MeshSource::File);
    assert!(mesh_source("assets\\rock", &manager) == MeshSource::File);
    assert!(mesh_source("cube", &manager) == MeshSource::Library);
    assert!(mesh_source("dragon", &manager) == MeshSource::Fallback);
    assert!(mesh_source("obj", &manager) == MeshSource::Fallback);
}

use engine::asset_manager::get_available_meshes;
use engine::text::str_less;

#[test]
fn available_meshes_merge_library_and_uploads_sorted() {
    let library = vec!["sphere".to_string(), "cube".to_string(), "plane".to_string(), "error_mesh".to_string()];
    let uploaded = vec!["models/ship.obj".to_string(), "cube".to_string(), "Zeta".to_string()];
    assert_eq!(
        get_available_meshes(&library, &uploaded),
        vec!["Zeta", "cube", "error_mesh", "models/ship.obj", "plane", "sphere"]
    );
    assert!(get_available_meshes(&Vec::new(), &Vec::new()).is_empty());
}

#[test]
fn text_order_matches_string_order() {
    let words = ["", "a", "ab", "b", "B", "é", "z", "za"];
    for x in words.iter() {
        for y in words.iter() {
            assert_eq!(str_less(x, y), x.to_string() < y.to_string());
        }
    }
}
