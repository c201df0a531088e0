//! Counting what a scene holds: component census per entity, scene
//! statistics, debug-overlay statistics, health messages, and which entities
//! still need a default mesh.

use vstd::prelude::*;
use crate::debug_overlay::{MeshUsage, PerformanceMetrics, SceneDebugInfo, first_uses, tally_mesh_usage, occurrences, usage_count};
use crate::dev::{DevLogLevel, DevLogRecord, DevTools, DEV_TOOLS_ENABLED};
use crate::text::{decimal, push_decimal};

verus! {

/// The components one entity carries, as far as scene statistics look at them.
pub struct EntityComponents {
    pub has_transform: bool,
    pub has_global_transform: bool,
    pub has_camera: bool,
    pub has_parent: bool,
    pub has_material: bool,
    /// The entity's mesh name, if it has a mesh.
    pub mesh: Option<String>,
}

/// An entity is renderable when it has a mesh, a material and a global transform.
pub open spec fn renderable(e: EntityComponents) -> bool {
    e.mesh is Some && e.has_material && e.has_global_transform
}

/// Number of entities satisfying `p`.
pub open spec fn count_where(s: Seq<EntityComponents>, p: spec_fn(EntityComponents) -> bool) -> nat
    decreases s.len(),
{
    if s.len() == 0 {
        0
    } else {
        count_where(s.drop_last(), p) + if p(s.last()) {
            1nat
        } else {
            0nat
        }
    }
}

/// The mesh names of the entities that have a mesh, in entity order.
pub open spec fn mesh_names(s: Seq<EntityComponents>) -> Seq<Seq<char>>
    decreases s.len(),
{
    if s.len() == 0 {
        Seq::empty()
    } else {
        match s.last().mesh {
            Some(m) => mesh_names(s.drop_last()).push(m@),
            None => mesh_names(s.drop_last()),
        }
    }
}

proof fn lemma_count_bound(s: Seq<EntityComponents>, p: spec_fn(EntityComponents) -> bool)
    ensures
        count_where(s, p) <= s.len(),
    decreases s.len(),
{
    if s.len() > 0 {
        lemma_count_bound(s.drop_last(), p);
    }
}

/// Counts the entities satisfying the predicate `flag_of(which)`.
fn count_flag(entities: &Vec<EntityComponents>, which: u8) -> (n: usize)
    requires
        which < 6,
    ensures
        n == count_where(entities@, flag_of(which)),
{
    let mut n: usize = 0;
    let mut i: usize = 0;
    while i < entities.len()
        invariant
            i <= entities.len(),
            which < 6,
            n == count_where(entities@.subrange(0, i as int), flag_of(which)),
        decreases entities.len() - i,
    {
        proof {
            assert(entities@.subrange(0, i + 1).drop_last() =~= entities@.subrange(0, i as int));
            lemma_count_bound(entities@.subrange(0, i as int), flag_of(which));
        }
        let e = &entities[i];
        let hit = match which {
            0 => true,
            1 => e.has_transform,
            2 => e.has_global_transform,
            3 => e.has_camera,
            4 => e.has_parent,
            _ => e.has_material,
        };
        if hit {
            n = n + 1;
        }
        i = i + 1;
    }
    proof {
        assert(entities@.subrange(0, entities@.len() as int) =~= entities@);
    }
    n
}

/// The predicate behind each counter of `count_flag`.
pub open spec fn flag_of(which: u8) -> spec_fn(EntityComponents) -> bool {
    |e: EntityComponents| {
        if which == 0 {
            true
        } else if which == 1 {
            e.has_transform
        } else if which == 2 {
            e.has_global_transform
        } else if which == 3 {
            e.has_camera
        } else if which == 4 {
            e.has_parent
        } else {
            e.has_material
        }
    }
}

/// Number of renderable entities.
fn count_renderable(entities: &Vec<EntityComponents>) -> (n: usize)
    ensures
        n == count_where(entities@, |e: EntityComponents| renderable(e)),
{
    let mut n: usize = 0;
    let mut i: usize = 0;
    while i < entities.len()
        invariant
            i <= entities.len(),
            n == count_where(entities@.subrange(0, i as int), |e: EntityComponents| renderable(e)),
        decreases entities.len() - i,
    {
        proof {
            assert(entities@.subrange(0, i + 1).drop_last() =~= entities@.subrange(0, i as int));
            lemma_count_bound(entities@.subrange(0, i as int), |e: EntityComponents| renderable(e));
        }
        let e = &entities[i];
        if e.mesh.is_some() && e.has_material && e.has_global_transform {
            n = n + 1;
        }
        i = i + 1;
    }
    proof {
        assert(entities@.subrange(0, entities@.len() as int) =~= entities@);
    }
    n
}

/// The mesh names of the entities, in entity order.
fn collect_mesh_names(entities: &Vec<EntityComponents>) -> (names: Vec<String>)
    ensures
        names@.map_values(|s: String| s@) == mesh_names(entities@),
{
    let mut names: Vec<String> = Vec::new();
    let mut i: usize = 0;
    while i < entities.len()
        invariant
            i <= entities.len(),
            names@.map_values(|s: String| s@) == mesh_names(entities@.subrange(0, i as int)),
        decreases entities.len() - i,
    {
        proof {
            assert(entities@.subrange(0, i + 1).drop_last() =~= entities@.subrange(0, i as int));
        }
        match &entities[i].mesh {
            Some(m) => {
                let ghost before = names@;
                names.push(m.clone());
                proof {
                    assert(names@.map_values(|s: String| s@) =~= before.map_values(|s: String| s@).push(m@));
                }
            },
            None => {},
        }
        i = i + 1;
    }
    proof {
        assert(entities@.subrange(0, entities@.len() as int) =~= entities@);
    }
    names
}

/// Statistics about a scene's content.
pub struct SceneStats {
    /// Total number of entities.
    pub entity_count: usize,
    /// Entities with a mesh, a material and a global transform.
    pub renderable_count: usize,
    /// Camera entities.
    pub camera_count: usize,
    /// How many entities use each mesh.
    pub mesh_types: MeshUsage,
    /// Entities with a material.
    pub material_count: usize,
}

/// Statistics of the scene whose entities carry `entities`.
pub fn scene_stats(entities: &Vec<EntityComponents>) -> (s: SceneStats)
    ensures
        s.entity_count == entities@.len(),
        s.renderable_count == count_where(entities@, |e: EntityComponents| renderable(e)),
        s.camera_count == count_where(entities@, |e: EntityComponents| e.has_camera),
        s.material_count == count_where(entities@, |e: EntityComponents| e.has_material),
        s.mesh_types.wf(),
        forall|x: Seq<char>| #![trigger usage_count(s.mesh_types@, x)]
            usage_count(s.mesh_types@, x) == occurrences(mesh_names(entities@), x),
        s.mesh_types@.map_values(|e: (Seq<char>, nat)| e.0) == first_uses(mesh_names(entities@)),
{
    let names = collect_mesh_names(entities);
    let cameras = count_flag(entities, 3);
    let materials = count_flag(entities, 5);
    proof {
        assert(flag_of(3) =~= (|e: EntityComponents| e.has_camera));
        assert(flag_of(5) =~= (|e: EntityComponents| e.has_material));
    }
    SceneStats {
        entity_count: entities.len(),
        renderable_count: count_renderable(entities),
        camera_count: cameras,
        mesh_types: tally_mesh_usage(&names),
        material_count: materials,
    }
}

/// Debug-overlay statistics of the scene whose entities carry `entities`,
/// with the query timings measured while collecting them.
pub fn collect_debug_info(entities: &Vec<EntityComponents>, timings: Option<PerformanceMetrics>) -> (i: SceneDebugInfo)
    ensures
        i.total_entities == entities@.len(),
        i.renderable_entities == count_where(entities@, |e: EntityComponents| renderable(e)),
        i.cameras == count_where(entities@, |e: EntityComponents| e.has_camera),
        i.transforms == count_where(entities@, |e: EntityComponents| e.has_transform),
        i.global_transforms == count_where(entities@, |e: EntityComponents| e.has_global_transform),
        i.parent_relationships == count_where(entities@, |e: EntityComponents| e.has_parent),
        i.materials == count_where(entities@, |e: EntityComponents| e.has_material),
        i.mesh_usage.wf(),
        forall|x: Seq<char>| #![trigger usage_count(i.mesh_usage@, x)]
            usage_count(i.mesh_usage@, x) == occurrences(mesh_names(entities@), x),
        i.mesh_usage@.map_values(|e: (Seq<char>, nat)| e.0) == first_uses(mesh_names(entities@)),
        i.performance_metrics == timings,
{
    let names = collect_mesh_names(entities);
    let cameras = count_flag(entities, 3);
    let transforms = count_flag(entities, 1);
    let globals = count_flag(entities, 2);
    let parents = count_flag(entities, 4);
    let materials = count_flag(entities, 5);
    proof {
        assert(flag_of(1) =~= (|e: EntityComponents| e.has_transform));
        assert(flag_of(2) =~= (|e: EntityComponents| e.has_global_transform));
        assert(flag_of(3) =~= (|e: EntityComponents| e.has_camera));
        assert(flag_of(4) =~= (|e: EntityComponents| e.has_parent));
        assert(flag_of(5) =~= (|e: EntityComponents| e.has_material));
    }
    SceneDebugInfo {
        total_entities: entities.len(),
        renderable_entities: count_renderable(entities),
        cameras,
        transforms,
        global_transforms: globals,
        parent_relationships: parents,
        mesh_usage: tally_mesh_usage(&names),
        materials,
        performance_metrics: timings,
    }
}

/// The messages of the scene health check, with their levels, in the order
/// the checks run; none when developer tools are disabled.
pub open spec fn scene_health_messages(
    entity_count: nat,
    renderable_count: nat,
    camera_count: nat,
    transform_count: nat,
) -> Seq<(DevLogLevel, Seq<char>)> {
    if !DEV_TOOLS_ENABLED {
        Seq::empty()
    } else {
        let m0 = Seq::<(DevLogLevel, Seq<char>)>::empty();
        let m1 = if camera_count == 0 {
            m0.push((DevLogLevel::Warning, "No camera entities found in scene"@))
        } else {
            m0
        };
        let m2 = if camera_count > 1 {
            m1.push((DevLogLevel::Warning, "Multiple cameras found: "@ + decimal(camera_count)))
        } else {
            m1
        };
        let m3 = if renderable_count == 0 && entity_count > 0 {
            m2.push((DevLogLevel::Warning, "Entities present but none are renderable"@))
        } else {
            m2
        };
        if transform_count > renderable_count {
            m3.push((DevLogLevel::Info, decimal((transform_count - renderable_count) as nat)
                + " entities with transforms could have default meshes assigned"@))
        } else {
            m3
        }
    }
}

/// The health check of a scene with statistics `stats` in which
/// `transform_count` entities have a transform.
pub fn check_scene_health(stats: &SceneStats, transform_count: usize) -> (r: Vec<DevLogRecord>)
    ensures
        r@.map_values(|d: DevLogRecord| (d.level, d.message@)) == scene_health_messages(
            stats.entity_count as nat,
            stats.renderable_count as nat,
            stats.camera_count as nat,
            transform_count as nat,
        ),
{
    let mut r: Vec<DevLogRecord> = Vec::new();
    let ghost spec_msgs = scene_health_messages(
        stats.entity_count as nat,
        stats.renderable_count as nat,
        stats.camera_count as nat,
        transform_count as nat,
    );
    if !DevTools::is_enabled() {
        proof {
            assert(r@.map_values(|d: DevLogRecord| (d.level, d.message@)) =~= spec_msgs);
        }
        return r;
    }
    proof {
        reveal_strlit("No camera entities found in scene");
        reveal_strlit("Multiple cameras found: ");
        reveal_strlit("Entities present but none are renderable");
        reveal_strlit(" entities with transforms could have default meshes assigned");
    }
    let ghost m0 = Seq::<(DevLogLevel, Seq<char>)>::empty();
    let ghost m1 = if stats.camera_count == 0 {
        m0.push((DevLogLevel::Warning, "No camera entities found in scene"@))
    } else {
        m0
    };
    let ghost m2 = if stats.camera_count > 1 {
        m1.push((DevLogLevel::Warning, "Multiple cameras found: "@ + decimal(stats.camera_count as nat)))
    } else {
        m1
    };
    let ghost m3 = if stats.renderable_count == 0 && stats.entity_count > 0 {
        m2.push((DevLogLevel::Warning, "Entities present but none are renderable"@))
    } else {
        m2
    };
    if stats.camera_count == 0 {
        r.push(DevLogRecord { level: DevLogLevel::Warning, message: String::from_str("No camera entities found in scene") });
    }
    proof {
        assert(r@.map_values(|d: DevLogRecord| (d.level, d.message@)) =~= m1);
    }
    if stats.camera_count > 1 {
        let mut msg = String::from_str("Multiple cameras found: ");
        push_decimal(&mut msg, stats.camera_count as u64);
        let ghost before = r@;
        r.push(DevLogRecord { level: DevLogLevel::Warning, message: msg });
        proof {
            assert(r@.map_values(|d: DevLogRecord| (d.level, d.message@)) =~= before.map_values(
                |d: DevLogRecord| (d.level, d.message@),
            ).push((DevLogLevel::Warning, "Multiple cameras found: "@ + decimal(stats.camera_count as nat))));
        }
    }
    proof {
        assert(r@.map_values(|d: DevLogRecord| (d.level, d.message@)) =~= m2);
    }
    if stats.renderable_count == 0 && stats.entity_count > 0 {
        let ghost before = r@;
        r.push(DevLogRecord { level: DevLogLevel::Warning, message: String::from_str("Entities present but none are renderable") });
        proof {
            assert(r@.map_values(|d: DevLogRecord| (d.level, d.message@)) =~= before.map_values(
                |d: DevLogRecord| (d.level, d.message@),
            ).push((DevLogLevel::Warning, "Entities present but none are renderable"@)));
        }
    }
    proof {
        assert(r@.map_values(|d: DevLogRecord| (d.level, d.message@)) =~= m3);
    }
    if transform_count > stats.renderable_count {
        let mut msg = String::new();
        push_decimal(&mut msg, (transform_count - stats.renderable_count) as u64);
        msg.append(" entities with transforms could have default meshes assigned");
        let ghost before = r@;
        r.push(DevLogRecord { level: DevLogLevel::Info, message: msg });
        proof {
            assert(r@.map_values(|d: DevLogRecord| (d.level, d.message@)) =~= before.map_values(
                |d: DevLogRecord| (d.level, d.message@),
            ).push((DevLogLevel::Info, decimal((transform_count - stats.renderable_count) as nat)
                + " entities with transforms could have default meshes assigned"@)));
        }
    }
    proof {
        assert(r@.map_values(|d: DevLogRecord| (d.level, d.message@)) =~= spec_msgs);
    }
    r
}

/// Entities that get the default mesh: those with both transforms and no
/// mesh, each with whether it also lacks a material (and so gets the
/// default material too), in entity order.
pub open spec fn default_mesh_targets(s: Seq<EntityComponents>) -> Seq<(usize, bool)>
    decreases s.len(),
{
    if s.len() == 0 {
        Seq::empty()
    } else {
        let e = s.last();
        let rest = default_mesh_targets(s.drop_last());
        if e.has_transform && e.has_global_transform && e.mesh is None {
            rest.push(((s.len() - 1) as usize, !e.has_material))
        } else {
            rest
        }
    }
}

/// The entities to which default meshes (and, where missing, default
/// materials) are assigned.
pub fn default_mesh_assignments(entities: &Vec<EntityComponents>) -> (r: Vec<(usize, bool)>)
    ensures
        r@ == default_mesh_targets(entities@),
{
    let mut r: Vec<(usize, bool)> = Vec::new();
    let mut i: usize = 0;
    while i < entities.len()
        invariant
            i <= entities.len(),
            r@ == default_mesh_targets(entities@.subrange(0, i as int)),
        decreases entities.len() - i,
    {
        proof {
            assert(entities@.subrange(0, i + 1).drop_last() =~= entities@.subrange(0, i as int));
        }
        let e = &entities[i];
        if e.has_transform && e.has_global_transform && e.mesh.is_none() {
            r.push((i, !e.has_material));
        }
        i = i + 1;
    }
    proof {
        assert(entities@.subrange(0, entities@.len() as int) =~= entities@);
    }
    r
}

/// The debug-log lines describing a scene: a summary line, then one line
/// per mesh in use; none when developer tools are disabled.
pub open spec fn scene_debug_lines(
    entity_count: nat,
    renderable_count: nat,
    camera_count: nat,
    meshes: Seq<(Seq<char>, nat)>,
) -> Seq<Seq<char>> {
    if !DEV_TOOLS_ENABLED {
        Seq::empty()
    } else {
        seq!["Scene: "@ + decimal(entity_count) + " entities, "@ + decimal(renderable_count)
            + " renderable, "@ + decimal(camera_count) + " cameras"@] + meshes.map_values(
            |m: (Seq<char>, nat)| "Mesh '"@ + m.0 + "': "@ + decimal(m.1) + " instances"@,
        )
    }
}

/// The information records logged about a scene with statistics `stats`.
pub fn log_debug_info(stats: &SceneStats) -> (r: Vec<DevLogRecord>)
    ensures
        forall|k: int| 0 <= k < r@.len() ==> (#[trigger] r@[k]).level == DevLogLevel::Info,
        r@.map_values(|d: DevLogRecord| d.message@) == scene_debug_lines(
            stats.entity_count as nat,
            stats.renderable_count as nat,
            stats.camera_count as nat,
            stats.mesh_types@,
        ),
{
    let mut r: Vec<DevLogRecord> = Vec::new();
    if !DevTools::is_enabled() {
        proof {
            assert(r@.map_values(|d: DevLogRecord| d.message@) =~= scene_debug_lines(
                stats.entity_count as nat,
                stats.renderable_count as nat,
                stats.camera_count as nat,
                stats.mesh_types@,
            ));
        }
        return r;
    }
    let mut head = String::from_str("Scene: ");
    push_decimal(&mut head, stats.entity_count as u64);
    head.append(" entities, ");
    push_decimal(&mut head, stats.renderable_count as u64);
    head.append(" renderable, ");
    push_decimal(&mut head, stats.camera_count as u64);
    head.append(" cameras");
    r.push(DevLogRecord { level: DevLogLevel::Info, message: head });
    let ghost lines = stats.mesh_types@.map_values(
        |m: (Seq<char>, nat)| "Mesh '"@ + m.0 + "': "@ + decimal(m.1) + " instances"@,
    );
    let n = stats.mesh_types.len();
    let mut k: usize = 0;
    while k < n
        invariant
            n == stats.mesh_types@.len(),
            k <= n,
            r@.len() == k + 1,
            forall|j: int| 0 <= j < r@.len() ==> (#[trigger] r@[j]).level == DevLogLevel::Info,
            r@[0].message@ == "Scene: "@ + decimal(stats.entity_count as nat) + " entities, "@ + decimal(
                stats.renderable_count as nat,
            ) + " renderable, "@ + decimal(stats.camera_count as nat) + " cameras"@,
            forall|j: int| 0 <= j < k ==> (#[trigger] r@[j + 1]).message@ == lines[j],
            lines == stats.mesh_types@.map_values(
                |m: (Seq<char>, nat)| "Mesh '"@ + m.0 + "': "@ + decimal(m.1) + " instances"@,
            ),
        decreases n - k,
    {
        let (name, count) = stats.mesh_types.entry(k);
        let mut line = String::from_str("Mesh '");
        line.append(name.as_str());
        line.append("': ");
        push_decimal(&mut line, count as u64);
        line.append(" instances");
        r.push(DevLogRecord { level: DevLogLevel::Info, message: line });
        k = k + 1;
    }
    proof {
        let got = r@.map_values(|d: DevLogRecord| d.message@);
        let want = scene_debug_lines(
            stats.entity_count as nat,
            stats.renderable_count as nat,
            stats.camera_count as nat,
            stats.mesh_types@,
        );
        assert(want.len() == got.len());
        assert forall|j: int| 0 <= j < got.len() implies got[j] == want[j] by {
            if j > 0 {
                assert(r@[(j - 1) + 1].message@ == lines[j - 1]);
            }
        }
        assert(got =~= want);
    }
    r
}

/// Entities that carry graphics components, with which ones to remove
/// (mesh, material), in entity order.
pub open spec fn graphics_holders(s: Seq<EntityComponents>) -> Seq<(usize, bool, bool)>
    decreases s.len(),
{
    if s.len() == 0 {
        Seq::empty()
    } else {
        let e = s.last();
        let rest = graphics_holders(s.drop_last());
        if e.mesh is Some || e.has_material {
            rest.push(((s.len() - 1) as usize, e.mesh is Some, e.has_material))
        } else {
            rest
        }
    }
}

/// Law: the clear list names, in entity order, exactly the entities that hold
/// a mesh or a material, and for each says to remove its mesh exactly when it
/// holds one and its material exactly when it holds one; so clearing leaves no
/// entity with a mesh or a material.
pub proof fn lemma_graphics_holders_exact(s: Seq<EntityComponents>)
    requires
        s.len() <= usize::MAX,
    ensures
        forall|r: int|
            #![trigger graphics_holders(s)[r]]
            0 <= r < graphics_holders(s).len() ==> {
                let h = graphics_holders(s)[r];
                &&& h.0 < s.len()
                &&& h.1 == s[h.0 as int].mesh is Some
                &&& h.2 == s[h.0 as int].has_material
            },
        forall|i: int|
            0 <= i < s.len() && ((#[trigger] s[i]).mesh is Some || s[i].has_material) ==> exists|r: int|
                0 <= r < graphics_holders(s).len() && graphics_holders(s)[r].0 == i,
        forall|a: int, b: int|
            0 <= a < b < graphics_holders(s).len() ==> graphics_holders(s)[a].0 < graphics_holders(s)[b].0,
    decreases s.len(),
{
    if s.len() > 0 {
        let p = s.drop_last();
        lemma_graphics_holders_exact(p);
        let rest = graphics_holders(p);
        let all = graphics_holders(s);
        assert forall|i: int| 0 <= i < p.len() implies #[trigger] p[i] == s[i] by {}
        assert forall|r: int| 0 <= r < rest.len() implies #[trigger] all[r] == rest[r] by {}
        assert forall|r: int| 0 <= r < rest.len() implies (#[trigger] rest[r]).0 < p.len() by {}
        assert forall|i: int|
            0 <= i < s.len() && ((#[trigger] s[i]).mesh is Some || s[i].has_material) implies exists|r: int|
                0 <= r < all.len() && all[r].0 == i by {
            if i < p.len() {
                assert(p[i] == s[i]);
                let r = choose|r: int| 0 <= r < rest.len() && rest[r].0 == i;
                assert(all[r] == rest[r]);
            } else {
                assert(all[all.len() - 1] == all.last());
            }
        }
    }
}

/// The graphics components to clear: for each entity holding a mesh or a
/// material, its position and whether it holds each.
pub fn graphics_to_clear(entities: &Vec<EntityComponents>) -> (r: Vec<(usize, bool, bool)>)
    ensures
        r@ == graphics_holders(entities@),
{
    let mut r: Vec<(usize, bool, bool)> = Vec::new();
    let mut i: usize = 0;
    while i < entities.len()
        invariant
            i <= entities.len(),
            r@ == graphics_holders(entities@.subrange(0, i as int)),
        decreases entities.len() - i,
    {
        proof {
            assert(entities@.subrange(0, i + 1).drop_last() =~= entities@.subrange(0, i as int));
        }
        let e = &entities[i];
        if e.mesh.is_some() || e.has_material {
            r.push((i, e.mesh.is_some(), e.has_material));
        }
        i = i + 1;
    }
    proof {
        assert(entities@.subrange(0, entities@.len() as int) =~= entities@);
    }
    r
}

} // verus!
