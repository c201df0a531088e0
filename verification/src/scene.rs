//! Decisions taken while instantiating a saved scene: which component a
//! serialized entry names, and which scene id each spawned entity receives.

use vstd::prelude::*;
use hecs::Entity;
use crate::assets::MeshId;
use crate::entity::EntityMapper;
use crate::text::str_eq;

verus! {

/// Component types a scene file can hold.
#[derive(Clone, Copy, PartialEq, Eq, Structural)]
pub enum ComponentKind {
    Transform,
    GlobalTransform,
    Camera,
    Parent,
    MeshId,
    Material,
    Name,
    /// A name the loader does not know; the entry is skipped.
    Unknown,
}

/// The component kind a serialized type name denotes.
pub open spec fn kind_of(name: Seq<char>) -> ComponentKind {
    if name == "Transform"@ {
        ComponentKind::Transform
    } else if name == "GlobalTransform"@ {
        ComponentKind::GlobalTransform
    } else if name == "Camera"@ {
        ComponentKind::Camera
    } else if name == "Parent"@ {
        ComponentKind::Parent
    } else if name == "MeshId"@ {
        ComponentKind::MeshId
    } else if name == "Material"@ {
        ComponentKind::Material
    } else if name == "Name"@ {
        ComponentKind::Name
    } else {
        ComponentKind::Unknown
    }
}

/// Classifies a serialized component type name.
pub fn classify_component(component_name: &str) -> (k: ComponentKind)
    ensures
        k == kind_of(component_name@),
{
    proof {
        reveal_strlit("Transform");
        reveal_strlit("GlobalTransform");
        reveal_strlit("Camera");
        reveal_strlit("Parent");
        reveal_strlit("MeshId");
        reveal_strlit("Material");
        reveal_strlit("Name");
    }
    if str_eq(component_name, "Transform") {
        ComponentKind::Transform
    } else if str_eq(component_name, "GlobalTransform") {
        ComponentKind::GlobalTransform
    } else if str_eq(component_name, "Camera") {
        ComponentKind::Camera
    } else if str_eq(component_name, "Parent") {
        ComponentKind::Parent
    } else if str_eq(component_name, "MeshId") {
        ComponentKind::MeshId
    } else if str_eq(component_name, "Material") {
        ComponentKind::Material
    } else if str_eq(component_name, "Name") {
        ComponentKind::Name
    } else {
        ComponentKind::Unknown
    }
}

/// The mapper of a freshly spawned scene: the entity spawned for the scene's
/// `i`-th entry gets scene id `i`.
pub fn map_spawned(spawned: &Vec<Entity>) -> (m: EntityMapper)
    ensures
        forall|id: u64| #[trigger] m@.contains_key(id) <==> id < spawned.len(),
        forall|id: u64| id < spawned.len() ==> #[trigger] m@[id] == spawned@[id as int],
{
    let mut m = EntityMapper::new();
    let mut i: usize = 0;
    while i < spawned.len()
        invariant
            i <= spawned.len(),
            spawned.len() <= u64::MAX,
            forall|id: u64| #[trigger] m@.contains_key(id) <==> id < i,
            forall|id: u64| id < i ==> #[trigger] m@[id] == spawned@[id as int],
        decreases spawned.len() - i,
    {
        m.register(i as u64, spawned[i]);
        i = i + 1;
    }
    m
}

/// The mesh given to an entity whose mesh entry could not be read.
pub fn unreadable_mesh_fallback() -> (m: MeshId)
    ensures
        m.0@ == seq!['e', 'r', 'r', 'o', 'r', '_', 'm', 'e', 's', 'h'],
{
    proof {
        reveal_strlit("error_mesh");
    }
    MeshId(String::from_str("error_mesh"))
}

/// `id` is the last position at which `e` occurs in `entities`.
pub open spec fn is_last_position(entities: Seq<u64>, e: u64, id: int) -> bool {
    &&& 0 <= id < entities.len()
    &&& entities[id] == e
    &&& forall|j: int| id < j < entities.len() ==> entities[j] != e
}

/// The last position of `e` in `entities`, if it occurs.
pub fn last_position(entities: &Vec<u64>, e: u64) -> (r: Option<usize>)
    ensures
        r matches Some(id) ==> is_last_position(entities@, e, id as int),
        r is None ==> forall|j: int| 0 <= j < entities@.len() ==> entities@[j] != e,
{
    let mut k: usize = entities.len();
    while k > 0
        invariant
            k <= entities@.len(),
            forall|j: int| k <= j < entities@.len() ==> entities@[j] != e,
        decreases k,
    {
        if entities[k - 1] == e {
            return Some(k - 1);
        }
        k = k - 1;
    }
    None
}

/// Scene ids of the parents when a world is saved: entity `entities[i]` is
/// saved under id `i`, and entry `i` of the result is the id under which
/// `parents[i]` is saved (for an entity listed twice, its last position),
/// or `None` where there is no parent or the parent is not in the scene.
pub fn parent_scene_ids(entities: &Vec<u64>, parents: &Vec<Option<u64>>) -> (ids: Vec<Option<u64>>)
    ensures
        ids@.len() == parents@.len(),
        forall|i: int| 0 <= i < parents@.len() ==> match #[trigger] parents@[i] {
            None => ids@[i] is None,
            Some(p) => match ids@[i] {
                Some(id) => is_last_position(entities@, p, id as int),
                None => forall|j: int| 0 <= j < entities@.len() ==> entities@[j] != p,
            },
        },
{
    let mut ids: Vec<Option<u64>> = Vec::new();
    let mut i: usize = 0;
    while i < parents.len()
        invariant
            i <= parents@.len(),
            ids@.len() == i,
            forall|x: int| 0 <= x < i ==> match #[trigger] parents@[x] {
                None => ids@[x] is None,
                Some(p) => match ids@[x] {
                    Some(id) => is_last_position(entities@, p, id as int),
                    None => forall|j: int| 0 <= j < entities@.len() ==> entities@[j] != p,
                },
            },
        decreases parents@.len() - i,
    {
        let id = match parents[i] {
            None => None,
            Some(p) => match last_position(entities, p) {
                Some(pos) => Some(pos as u64),
                None => None,
            },
        };
        ids.push(id);
        proof {
            assert(ids@[i as int] == id);
        }
        i = i + 1;
    }
    ids
}

/// Parent remapping: in a freshly spawned scene, a parent saved under scene
/// id `p` (an id of the scene) is restored as the entity spawned for entry `p`.
pub proof fn lemma_parent_restored(spawned: Seq<Entity>, mapping: Map<u64, Entity>, p: u64)
    requires
        forall|id: u64| #[trigger] mapping.contains_key(id) <==> id < spawned.len(),
        forall|id: u64| id < spawned.len() ==> #[trigger] mapping[id] == spawned[id as int],
        p < spawned.len(),
    ensures
        mapping.contains_key(p),
        mapping[p] == spawned[p as int],
{
}

} // verus!
