use engine::entity::{EntityMapper, Name, Parent, ParentData};
use engine::scene::{
    classify_component, last_position, map_spawned, parent_scene_ids, unreadable_mesh_fallback, ComponentKind,
};
use hecs::{Entity, World};

#[test]
fn test_entity_mapper_basic() {
    let mut mapper = EntityMapper::new();
    assert!(mapper.is_empty());
    assert_eq!(mapper.len(), 0);

    let entity = Entity::DANGLING;
    mapper.register(42, entity);

    assert!(!mapper.is_empty());
    assert_eq!(mapper.len(), 1);
    assert_eq!(mapper.remap(42), Some(entity));
    assert_eq!(mapper.remap(99), None);
}

#[test]
fn test_entity_mapper_multiple() {
    let mut mapper = EntityMapper::new();
    let entity1 = Entity::DANGLING;
    let entity2 = Entity::DANGLING;

    mapper.register(1, entity1);
    mapper.register(2, entity2);

    assert_eq!(mapper.len(), 2);
    assert_eq!(mapper.remap(1), Some(entity1));
    assert_eq!(mapper.remap(2), Some(entity2));
    assert_eq!(mapper.remap(3), None);
}

#[test]
fn test_entity_mapper_clear() {
    let mut mapper = EntityMapper::new();
    mapper.register(1, Entity::DANGLING);
    mapper.register(2, Entity::DANGLING);

    assert_eq!(mapper.len(), 2);
    mapper.clear();
    assert_eq!(mapper.len(), 0);
    assert!(mapper.is_empty());
}

#[test]
fn test_entity_mapper_iterators() {
    let mut mapper = EntityMapper::new();
    let entity1 = Entity::DANGLING;
    let entity2 = Entity::DANGLING;

    mapper.register(10, entity1);
    mapper.register(20, entity2);

    let old_ids: Vec<u64> = mapper.old_ids();
    assert_eq!(old_ids.len(), 2);
    assert!(old_ids.contains(&10));
    assert!(old_ids.contains(&20));

    let entities: Vec<Entity> = mapper.new_entities();
    assert_eq!(entities.len(), 2);
    assert!(entities.contains(&entity1));
    assert!(entities.contains(&entity2));

    let pairs: Vec<(u64, Entity)> = mapper.iter();
    assert_eq!(pairs.len(), 2);
    assert!(pairs.contains(&(10, entity1)));
    assert!(pairs.contains(&(20, entity2)));
}

#[test]
fn test_entity_mapper_overwrite() {
    let mut mapper = EntityMapper::new();
    let entity1 = Entity::DANGLING;
    let entity2 = Entity::DANGLING;

    mapper.register(1, entity1);
    mapper.register(1, entity2);

    assert_eq!(mapper.len(), 1);
    assert_eq!(mapper.remap(1), Some(entity2));
}

#[test]
fn overwriting_an_id_keeps_the_later_entity() {
    let mut world = World::new();
    let entity1 = world.spawn(());
    let entity2 = world.spawn(());
    let mut mapper = EntityMapper::new();

    mapper.register(1, entity1);
    mapper.register(1, entity2);

    assert_eq!(mapper.len(), 1);
    assert_eq!(mapper.remap(1), Some(entity2));
}

#[test]
fn mapper_with_real_entities_keeps_them_apart() {
    let mut world = World::new();
    let a = world.spawn(());
    let b = world.spawn(());
    let mut mapper = EntityMapper::default();
    mapper.register(7, a);
    mapper.register(8, b);
    assert_eq!(mapper.remap(7), Some(a));
    assert_eq!(mapper.remap(8), Some(b));
    let mut ids = mapper.old_ids();
    ids.sort();
    assert_eq!(ids, vec![7, 8]);
}

#[test]
fn parent_data_round_trip_through_mapper() {
    let mut world = World::new();
    let parent = world.spawn(());
    let data = ParentData::from_parent_with_id(Parent(parent), 3);
    assert_eq!(data.entity_id, 3);

    let mut mapper = EntityMapper::new();
    assert!(data.try_to_parent(&mapper).is_none());
    mapper.register(3, parent);
    let restored = data.try_to_parent(&mapper).unwrap();
    assert_eq!(restored.0, parent);
}

#[test]
fn name_component_holds_text() {
    let name = Name::new("Player");
    assert_eq!(name.0, "Player");
}

#[test]
fn spawned_entities_get_their_positions_as_ids() {
    let mut world = World::new();
    let spawned: Vec<Entity> = (0..3).map(|_| world.spawn(())).collect();
    let mapper = map_spawned(&spawned);
    assert_eq!(mapper.len(), 3);
    assert_eq!(mapper.remap(0), Some(spawned[0]));
    assert_eq!(mapper.remap(1), Some(spawned[1]));
    assert_eq!(mapper.remap(2), Some(spawned[2]));
    assert_eq!(mapper.remap(3), None);
}

#[test]
fn parent_chain_is_remapped() {
    // grandparent <- parent <- child, saved with ids 0, 1, 2.
    let saved_parents: Vec<Option<ParentData>> = vec![
        None,
        Some(ParentData { entity_id: 0 }),
        Some(ParentData { entity_id: 1 }),
    ];
    let mut world = World::new();
    let spawned: Vec<Entity> = (0..3).map(|_| world.spawn(())).collect();
    let mapper = map_spawned(&spawned);
    let child_parent = saved_parents[2].as_ref().unwrap().try_to_parent(&mapper).unwrap();
    assert_eq!(child_parent.0, mapper.remap(1).unwrap());
    let parent_parent = saved_parents[1].as_ref().unwrap().try_to_parent(&mapper).unwrap();
    assert_eq!(parent_parent.0, mapper.remap(0).unwrap());
}

#[test]
fn component_names_are_classified() {
    assert!(classify_component("Transform") == ComponentKind::Transform);
    assert!(classify_component("GlobalTransform") == ComponentKind::GlobalTransform);
    assert!(classify_component("Camera") == ComponentKind::Camera);
    assert!(classify_component("Parent") == ComponentKind::Parent);
    assert!(classify_component("MeshId") == ComponentKind::MeshId);
    assert!(classify_component("Material") == ComponentKind::Material);
    assert!(classify_component("Name") == ComponentKind::Name);
    assert!(classify_component("Velocity") == ComponentKind::Unknown);
    assert!(classify_component("transform") == ComponentKind::Unknown);
    assert!(classify_component("") == ComponentKind::Unknown);
}

#[test]
fn unreadable_mesh_becomes_error_mesh() {
    assert_eq!(unreadable_mesh_fallback().0, "error_mesh");
}

#[test]
fn defaults_of_name_and_mesh() {
    assert_eq!(Name::default().0, "");
    assert_eq!(engine::assets::MeshId::default().0, "cube");
}

#[test]
fn test_parent_scene_ids_by_position() {
    let entities = vec![70u64, 10, 30];
    let parents = vec![None, Some(70u64), Some(30), Some(99)];
    let ids = parent_scene_ids(&entities, &parents);
    assert_eq!(ids, vec![None, Some(0u64), Some(2), None]);
}

#[test]
fn test_parent_scene_ids_from_world() {
    let mut world = World::new();
    let root = world.spawn(());
    let child = world.spawn(());
    let order: Vec<Entity> = vec![root, child];
    let bits: Vec<u64> = order.iter().map(|e| e.to_bits().get()).collect();
    let parents = vec![None, Some(root.to_bits().get())];
    assert_eq!(parent_scene_ids(&bits, &parents), vec![None, Some(0u64)]);
}

#[test]
fn test_last_position_takes_last() {
    assert_eq!(last_position(&vec![5u64, 7, 5, 9], 5), Some(2));
    assert_eq!(last_position(&vec![5u64, 7], 8), None);
    assert_eq!(last_position(&vec![], 1), None);
}
