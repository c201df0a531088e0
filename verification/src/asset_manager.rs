//! Mesh name resolution with a validation cache and fallback to the error mesh.
//!
//! The manager knows which mesh names the mesh library can generate and
//! remembers which names it has already validated. The mesh generators
//! themselves, which build vertex data, live outside this module.

use vstd::prelude::*;
use crate::assets::{AssetValidationReport, MeshId};
use crate::text::{contains_char, ends_with, str_eq, str_less, text_less, lemma_text_less_total, lemma_text_less_transitive};

verus! {

/// Name of the mesh used in place of a missing one.
pub open spec fn error_mesh_name() -> Seq<char> {
    seq!['e', 'r', 'r', 'o', 'r', '_', 'm', 'e', 's', 'h']
}

/// Names the mesh library can generate from the start.
pub open spec fn default_mesh_names() -> Set<Seq<char>> {
    set![
        seq!['c', 'u', 'b', 'e'],
        seq!['s', 'p', 'h', 'e', 'r', 'e'],
        seq!['p', 'l', 'a', 'n', 'e'],
        error_mesh_name(),
    ]
}

/// Mesh availability and the cache of validated mesh names.
pub struct AssetManager {
    mesh_names: Vec<String>,
    validated_meshes: Vec<(String, bool)>,
}

impl AssetManager {
    /// Names of the meshes that can be generated.
    pub closed spec fn meshes(&self) -> Set<Seq<char>> {
        self.mesh_names@.map_values(|s: String| s@).to_set()
    }

    /// Names whose validation result is cached.
    pub closed spec fn cached(&self) -> Set<Seq<char>> {
        self.validated_meshes@.map_values(|p: (String, bool)| p.0@).to_set()
    }

    /// Internal consistency: each name listed once, and every cached result
    /// agrees with the current mesh names.
    pub closed spec fn wf(&self) -> bool {
        &&& self.mesh_names@.map_values(|s: String| s@).no_duplicates()
        &&& forall|i: int| 0 <= i < self.validated_meshes.len() ==>
            (#[trigger] self.validated_meshes@[i]).1 == self.meshes().contains(self.validated_meshes@[i].0@)
    }

    /// A manager knowing the default meshes, with nothing validated yet.
    pub fn new() -> (m: AssetManager)
        ensures
            m.wf(),
            m.meshes() == default_mesh_names(),
            m.cached() == Set::<Seq<char>>::empty(),
    {
        let mut names: Vec<String> = Vec::new();
        names.push(String::from_str("cube"));
        names.push(String::from_str("sphere"));
        names.push(String::from_str("plane"));
        names.push(String::from_str("error_mesh"));
        proof {
            reveal_strlit("cube");
            reveal_strlit("sphere");
            reveal_strlit("plane");
            reveal_strlit("error_mesh");
        }
        let m = AssetManager { mesh_names: names, validated_meshes: Vec::new() };
        proof {
            let v = m.mesh_names@.map_values(|s: String| s@);
            assert(v[0] =~= seq!['c', 'u', 'b', 'e']);
            assert(v[1] =~= seq!['s', 'p', 'h', 'e', 'r', 'e']);
            assert(v[2] =~= seq!['p', 'l', 'a', 'n', 'e']);
            assert(v[3] =~= error_mesh_name());
            assert(v[0].len() == 4 && v[1].len() == 6 && v[2].len() == 5 && v[3].len() == 10);
            assert(v.to_set() =~= default_mesh_names()) by {
                assert forall|s: Seq<char>| v.to_set().contains(s) <==> default_mesh_names().contains(s) by {
                    if default_mesh_names().contains(s) {
                        if s == v[0] { assert(v.contains(s)); }
                        else if s == v[1] { assert(v.contains(s)); }
                        else if s == v[2] { assert(v.contains(s)); }
                        else { assert(v[3] == s); assert(v.contains(s)); }
                    }
                }
            }
            assert(m.cached() =~= Set::<Seq<char>>::empty());
        }
        m
    }

    /// Position of `name` among the mesh names, if present.
    fn find_mesh(&self, name: &str) -> (r: Option<usize>)
        ensures
            match r {
                Some(i) => i < self.mesh_names.len() && self.mesh_names@[i as int]@ == name@,
                None => !self.meshes().contains(name@),
            },
    {
        let mut i: usize = 0;
        while i < self.mesh_names.len()
            invariant
                i <= self.mesh_names.len(),
                forall|j: int| 0 <= j < i ==> self.mesh_names@[j]@ != name@,
            decreases self.mesh_names.len() - i,
        {
            if str_eq(self.mesh_names[i].as_str(), name) {
                return Some(i);
            }
            i = i + 1;
        }
        proof {
            if self.meshes().contains(name@) {
                let k = self.mesh_names@.map_values(|s: String| s@).index_of(name@);
                assert(self.mesh_names@[k]@ == name@);
            }
        }
        None
    }

    /// Whether the library can generate a mesh called `name`.
    pub fn has_mesh(&self, name: &str) -> (r: bool)
        ensures
            r == self.meshes().contains(name@),
    {
        match self.find_mesh(name) {
            Some(i) => {
                proof {
                    let v = self.mesh_names@.map_values(|s: String| s@);
                    assert(v[i as int] == name@);
                }
                true
            },
            None => false,
        }
    }

    /// Whether a mesh called `name` is available; the answer is cached.
    pub fn validate_mesh(&mut self, name: &str) -> (r: bool)
        requires
            old(self).wf(),
        ensures
            final(self).wf(),
            r == old(self).meshes().contains(name@),
            final(self).meshes() == old(self).meshes(),
            final(self).cached() == old(self).cached().insert(name@),
    {
        let mut i: usize = 0;
        while i < self.validated_meshes.len()
            invariant
                self.wf(),
                i <= self.validated_meshes.len(),
                forall|j: int| 0 <= j < i ==> self.validated_meshes@[j].0@ != name@,
            decreases self.validated_meshes.len() - i,
        {
            if str_eq(self.validated_meshes[i].0.as_str(), name) {
                let r = self.validated_meshes[i].1;
                proof {
                    let c = self.validated_meshes@.map_values(|p: (String, bool)| p.0@);
                    assert(c[i as int] == name@);
                    assert(self.cached().insert(name@) =~= self.cached());
                }
                return r;
            }
            i = i + 1;
        }
        let r = self.has_mesh(name);
        let ghost before = self.validated_meshes@;
        self.validated_meshes.push((String::from_str(name), r));
        proof {
            let c0 = before.map_values(|p: (String, bool)| p.0@);
            let c1 = self.validated_meshes@.map_values(|p: (String, bool)| p.0@);
            assert(c1 =~= c0.push(name@));
            c0.lemma_push_to_set_commute(name@);
            assert(c1.to_set() =~= c0.to_set().insert(name@));
            assert forall|j: int| 0 <= j < self.validated_meshes.len() implies
                (#[trigger] self.validated_meshes@[j]).1 == self.meshes().contains(self.validated_meshes@[j].0@) by {
                if j < before.len() {
                    assert(self.validated_meshes@[j] == before[j]);
                }
            }
        }
        r
    }

    /// Whether a validation result for `name` is cached.
    pub fn is_cached(&self, name: &str) -> (r: bool)
        ensures
            r == self.cached().contains(name@),
    {
        let mut i: usize = 0;
        while i < self.validated_meshes.len()
            invariant
                i <= self.validated_meshes.len(),
                forall|j: int| 0 <= j < i ==> self.validated_meshes@[j].0@ != name@,
            decreases self.validated_meshes.len() - i,
        {
            if str_eq(self.validated_meshes[i].0.as_str(), name) {
                proof {
                    let c = self.validated_meshes@.map_values(|p: (String, bool)| p.0@);
                    assert(c[i as int] == name@);
                }
                return true;
            }
            i = i + 1;
        }
        proof {
            let c = self.validated_meshes@.map_values(|p: (String, bool)| p.0@);
            if c.contains(name@) {
                let k = c.index_of(name@);
                assert(self.validated_meshes@[k].0@ == name@);
            }
        }
        false
    }

    /// Makes `name` available (a generator was registered for it) and drops
    /// any cached validation of that name.
    pub fn register_mesh(&mut self, name: &str)
        requires
            old(self).wf(),
        ensures
            final(self).wf(),
            final(self).meshes() == old(self).meshes().insert(name@),
            final(self).cached() == old(self).cached().remove(name@),
    {
        if !self.has_mesh(name) {
            let ghost before = self.mesh_names@;
            self.mesh_names.push(String::from_str(name));
            proof {
                let v0 = before.map_values(|s: String| s@);
                let v1 = self.mesh_names@.map_values(|s: String| s@);
                assert(v1 =~= v0.push(name@));
                v0.lemma_push_to_set_commute(name@);
                assert(v1.to_set() =~= v0.to_set().insert(name@));
                assert(!v0.contains(name@));
                assert forall|a: int, b: int| 0 <= a < b < v1.len() implies v1[a] != v1[b] by {
                    if b == v0.len() {
                        assert(v0[a] == v1[a]);
                    }
                }
            }
        } else {
            proof {
                assert(self.meshes().insert(name@) =~= self.meshes());
            }
        }
        let ghost names_now = self.meshes();
        let mut kept: Vec<(String, bool)> = Vec::new();
        let mut i: usize = 0;
        while i < self.validated_meshes.len()
            invariant
                i <= self.validated_meshes.len(),
                self.meshes() == names_now,
                names_now == old(self).meshes().insert(name@),
                self.mesh_names@.map_values(|s: String| s@).no_duplicates(),
                self.validated_meshes@ == old(self).validated_meshes@,
                old(self).wf(),
                forall|j: int| 0 <= j < kept.len() ==> (#[trigger] kept@[j]).1 == names_now.contains(kept@[j].0@),
                kept@.map_values(|p: (String, bool)| p.0@).to_set()
                    == self.validated_meshes@.take(i as int).map_values(|p: (String, bool)| p.0@).to_set().remove(name@),
            decreases self.validated_meshes.len() - i,
        {
            let ghost prev = kept@;
            let ghost k0 = prev.map_values(|p: (String, bool)| p.0@);
            let ghost t0 = self.validated_meshes@.take(i as int).map_values(|p: (String, bool)| p.0@);
            let ghost t1 = self.validated_meshes@.take(i + 1).map_values(|p: (String, bool)| p.0@);
            let ghost entry = self.validated_meshes@[i as int];
            proof {
                assert(t1 =~= t0.push(entry.0@));
                t0.lemma_push_to_set_commute(entry.0@);
                assert(t1.to_set() =~= t0.to_set().insert(entry.0@));
                assert(old(self).wf());
                assert(entry == old(self).validated_meshes@[i as int]);
                assert(entry.1 == old(self).meshes().contains(entry.0@));
            }
            if !str_eq(self.validated_meshes[i].0.as_str(), name) {
                let name_i = self.validated_meshes[i].0.clone();
                let valid_i = self.validated_meshes[i].1;
                kept.push((name_i, valid_i));
                proof {
                    let k1 = kept@.map_values(|p: (String, bool)| p.0@);
                    assert(k1 =~= k0.push(entry.0@));
                    k0.lemma_push_to_set_commute(entry.0@);
                    assert(k1.to_set() =~= k0.to_set().insert(entry.0@));
                    assert(k1.to_set() =~= t1.to_set().remove(name@));
                    assert forall|j: int| 0 <= j < kept.len() implies
                        (#[trigger] kept@[j]).1 == names_now.contains(kept@[j].0@) by {
                        if j < prev.len() {
                            assert(kept@[j] == prev[j]);
                        }
                    }
                }
            } else {
                proof {
                    assert(k0.to_set() =~= t1.to_set().remove(name@));
                }
            }
            i = i + 1;
        }
        proof {
            assert(self.validated_meshes@.take(self.validated_meshes.len() as int) =~= self.validated_meshes@);
        }
        self.validated_meshes = kept;
    }

    /// All mesh names that can be generated, each once.
    pub fn available_meshes(&self) -> (r: Vec<String>)
        requires
            self.wf(),
        ensures
            r@.map_values(|s: String| s@).to_set() == self.meshes(),
            r@.map_values(|s: String| s@).no_duplicates(),
    {
        let mut r: Vec<String> = Vec::new();
        let mut i: usize = 0;
        while i < self.mesh_names.len()
            invariant
                i <= self.mesh_names.len(),
                r.len() == i,
                forall|j: int| 0 <= j < i ==> (#[trigger] r@[j])@ == self.mesh_names@[j]@,
            decreases self.mesh_names.len() - i,
        {
            r.push(self.mesh_names[i].clone());
            i = i + 1;
        }
        proof {
            assert(r@.map_values(|s: String| s@) =~= self.mesh_names@.map_values(|s: String| s@));
        }
        r
    }

    /// The mesh to use for a requested one: the request itself if it can be
    /// generated, otherwise the error mesh.
    pub fn resolve_mesh(&mut self, requested: &MeshId) -> (m: MeshId)
        requires
            old(self).wf(),
        ensures
            final(self).wf(),
            m.0@ == (if old(self).meshes().contains(requested.0@) {
                requested.0@
            } else {
                error_mesh_name()
            }),
            final(self).meshes() == old(self).meshes(),
            final(self).cached() == old(self).cached().insert(requested.0@),
    {
        if self.validate_mesh(requested.0.as_str()) {
            MeshId(requested.0.clone())
        } else {
            proof {
                reveal_strlit("error_mesh");
            }
            MeshId(String::from_str("error_mesh"))
        }
    }
}

/// The asset entries of one scene entity, as read from the scene file.
pub struct SceneAssetEntry {
    /// The entity's `MeshId` entry: the mesh name, or why it could not be read.
    pub mesh: Option<Result<String, String>>,
    /// The entity's `Material` entry: readable, or why it could not be read.
    pub material: Option<Result<(), String>>,
}

/// The mesh references of the entries: entity index, mesh name, and whether
/// the mesh can be generated.
pub open spec fn mesh_refs_of(s: Seq<SceneAssetEntry>, meshes: Set<Seq<char>>) -> Seq<(usize, Seq<char>, bool)>
    decreases s.len(),
{
    if s.len() == 0 {
        Seq::empty()
    } else {
        let rest = mesh_refs_of(s.drop_last(), meshes);
        match s.last().mesh {
            Some(Ok(name)) => rest.push(((s.len() - 1) as usize, name@, meshes.contains(name@))),
            _ => rest,
        }
    }
}

/// The material references of the entries (each readable material is valid).
pub open spec fn material_refs_of(s: Seq<SceneAssetEntry>) -> Seq<(usize, bool)>
    decreases s.len(),
{
    if s.len() == 0 {
        Seq::empty()
    } else {
        let rest = material_refs_of(s.drop_last());
        match s.last().material {
            Some(Ok(_)) => rest.push(((s.len() - 1) as usize, true)),
            _ => rest,
        }
    }
}

/// The errors of the entries: for each entity, an unreadable mesh entry, then
/// an unreadable material entry.
pub open spec fn entry_errors_of(s: Seq<SceneAssetEntry>) -> Seq<(usize, Seq<char>)>
    decreases s.len(),
{
    if s.len() == 0 {
        Seq::empty()
    } else {
        let i = (s.len() - 1) as usize;
        let rest = entry_errors_of(s.drop_last());
        let with_mesh = match s.last().mesh {
            Some(Err(e)) => rest.push((i, "Invalid MeshId format: "@ + e@)),
            _ => rest,
        };
        match s.last().material {
            Some(Err(e)) => with_mesh.push((i, "Invalid Material format: "@ + e@)),
            _ => with_mesh,
        }
    }
}

/// The mesh names the entries read successfully.
pub open spec fn read_mesh_names(s: Seq<SceneAssetEntry>) -> Set<Seq<char>>
    decreases s.len(),
{
    if s.len() == 0 {
        Set::empty()
    } else {
        let rest = read_mesh_names(s.drop_last());
        match s.last().mesh {
            Some(Ok(name)) => rest.insert(name@),
            _ => rest,
        }
    }
}

/// The mesh name an entry's `MeshId` was read as, if it could be read.
pub open spec fn read_mesh(e: SceneAssetEntry) -> Option<Seq<char>> {
    match e.mesh {
        Some(Ok(name)) => Some(name@),
        _ => None,
    }
}

/// Law: each mesh reference of a scene report indexes an entity whose mesh
/// entry was read, names that mesh, and is marked valid exactly when the
/// manager can generate the mesh; every entity whose mesh entry was read has
/// such a reference, and the references come in entity order.
pub proof fn lemma_mesh_refs_exact(s: Seq<SceneAssetEntry>, meshes: Set<Seq<char>>)
    requires
        s.len() <= usize::MAX,
    ensures
        forall|r: int|
            #![trigger mesh_refs_of(s, meshes)[r]]
            0 <= r < mesh_refs_of(s, meshes).len() ==> {
                let m = mesh_refs_of(s, meshes)[r];
                &&& m.0 < s.len()
                &&& read_mesh(s[m.0 as int]) == Some(m.1)
                &&& m.2 == meshes.contains(m.1)
            },
        forall|i: int|
            0 <= i < s.len() && (#[trigger] read_mesh(s[i])) is Some ==> exists|r: int|
                0 <= r < mesh_refs_of(s, meshes).len() && mesh_refs_of(s, meshes)[r] == (
                i as usize,
                read_mesh(s[i])->0,
                meshes.contains(read_mesh(s[i])->0),
            ),
        forall|a: int, b: int|
            0 <= a < b < mesh_refs_of(s, meshes).len() ==> mesh_refs_of(s, meshes)[a].0 < mesh_refs_of(
                s,
                meshes,
            )[b].0,
    decreases s.len(),
{
    if s.len() > 0 {
        let p = s.drop_last();
        lemma_mesh_refs_exact(p, meshes);
        let rest = mesh_refs_of(p, meshes);
        let all = mesh_refs_of(s, meshes);
        assert forall|i: int| 0 <= i < p.len() implies #[trigger] p[i] == s[i] by {}
        assert forall|r: int| 0 <= r < rest.len() implies #[trigger] all[r] == rest[r] by {}
        assert forall|r: int| 0 <= r < rest.len() implies (#[trigger] rest[r]).0 < p.len() by {}
        assert forall|i: int|
            0 <= i < s.len() && (#[trigger] read_mesh(s[i])) is Some implies exists|r: int|
                0 <= r < all.len() && all[r] == (i as usize, read_mesh(s[i])->0, meshes.contains(read_mesh(s[i])->0)) by {
            if i < p.len() {
                assert(p[i] == s[i]);
                assert(read_mesh(p[i]) is Some);
                let name = read_mesh(s[i])->0;
                let r = choose|r: int| 0 <= r < rest.len() && rest[r] == (i as usize, name, meshes.contains(name));
                assert(all[r] == rest[r]);
            } else {
                assert(all[all.len() - 1] == all.last());
            }
        }
    }
}

impl AssetManager {
    /// The validation report of a scene at `scene_path` whose entities hold
    /// `entities`: each readable mesh is validated (and its answer cached),
    /// each readable material counts as valid, and each unreadable entry is
    /// an error.
    pub fn validate_scene_entries(&mut self, scene_path: String, entities: &Vec<SceneAssetEntry>) -> (report: AssetValidationReport)
        requires
            old(self).wf(),
        ensures
            final(self).wf(),
            final(self).meshes() == old(self).meshes(),
            final(self).cached() == old(self).cached().union(read_mesh_names(entities@)),
            report.scene_path == scene_path,
            report.mesh_references@.map_values(|m: (usize, String, bool)| (m.0, m.1@, m.2))
                == mesh_refs_of(entities@, old(self).meshes()),
            report.material_references@ == material_refs_of(entities@),
            report.errors@.map_values(|e: (usize, String)| (e.0, e.1@)) == entry_errors_of(entities@),
            forall|r: int|
                0 <= r < report.mesh_references@.len() ==> (#[trigger] report.mesh_references@[r]).2
                    == old(self).meshes().contains(report.mesh_references@[r].1@),
    {
        let mut report = AssetValidationReport::new(scene_path);
        let ghost meshes0 = self.meshes();
        let ghost cached0 = self.cached();
        proof {
            assert(cached0.union(read_mesh_names(entities@.subrange(0, 0))) =~= cached0);
        }
        let mut i: usize = 0;
        while i < entities.len()
            invariant
                i <= entities.len(),
                self.wf(),
                self.meshes() == meshes0,
                self.cached() == cached0.union(read_mesh_names(entities@.subrange(0, i as int))),
                report.scene_path == scene_path,
                report.mesh_references@.map_values(|m: (usize, String, bool)| (m.0, m.1@, m.2))
                    == mesh_refs_of(entities@.subrange(0, i as int), meshes0),
                report.material_references@ == material_refs_of(entities@.subrange(0, i as int)),
                report.errors@.map_values(|e: (usize, String)| (e.0, e.1@))
                    == entry_errors_of(entities@.subrange(0, i as int)),
            decreases entities.len() - i,
        {
            let ghost prefix = entities@.subrange(0, i + 1);
            proof {
                assert(prefix.drop_last() =~= entities@.subrange(0, i as int));
                assert(prefix.last() == entities@[i as int]);
            }
            let ghost meshes_before = report.mesh_references@;
            let ghost errors_before = report.errors@;
            let ghost cached_before = self.cached();
            match &entities[i].mesh {
                Some(Ok(name)) => {
                    let valid = self.validate_mesh(name.as_str());
                    report.add_mesh_reference(i, name.clone(), valid);
                    proof {
                        assert(report.mesh_references@.map_values(|m: (usize, String, bool)| (m.0, m.1@, m.2))
                            =~= meshes_before.map_values(|m: (usize, String, bool)| (m.0, m.1@, m.2)).push((i, name@, valid)));
                        assert(self.cached() =~= cached0.union(read_mesh_names(prefix)));
                    }
                },
                Some(Err(e)) => {
                    let mut msg = String::from_str("Invalid MeshId format: ");
                    msg.append(e.as_str());
                    report.add_error(i, msg);
                    proof {
                        reveal_strlit("Invalid MeshId format: ");
                        assert(report.errors@.map_values(|e: (usize, String)| (e.0, e.1@)) =~= errors_before.map_values(
                            |e: (usize, String)| (e.0, e.1@),
                        ).push((i, "Invalid MeshId format: "@ + e@)));
                    }
                },
                None => {},
            }
            let ghost errors_mid = report.errors@;
            match &entities[i].material {
                Some(Ok(_)) => {
                    report.add_material_reference(i, true);
                },
                Some(Err(e)) => {
                    let mut msg = String::from_str("Invalid Material format: ");
                    msg.append(e.as_str());
                    report.add_error(i, msg);
                    proof {
                        reveal_strlit("Invalid Material format: ");
                        assert(report.errors@.map_values(|e: (usize, String)| (e.0, e.1@)) =~= errors_mid.map_values(
                            |e: (usize, String)| (e.0, e.1@),
                        ).push((i, "Invalid Material format: "@ + e@)));
                    }
                },
                None => {},
            }
            i = i + 1;
        }
        proof {
            assert(entities@.subrange(0, entities@.len() as int) =~= entities@);
            lemma_mesh_refs_exact(entities@, meshes0);
            let refs = mesh_refs_of(entities@, meshes0);
            assert forall|r: int| 0 <= r < report.mesh_references@.len() implies (#[trigger] report.mesh_references@[r]).2
                == meshes0.contains(report.mesh_references@[r].1@) by {
                let m = report.mesh_references@[r];
                assert(refs[r] == (m.0, m.1@, m.2));
            }
        }
        report
    }
}

/// Where the renderer takes a mesh from.
#[derive(Clone, Copy, PartialEq, Eq, Structural)]
pub enum MeshSource {
    /// A model file at the path the mesh id names.
    File,
    /// A generator of the mesh library.
    Library,
    /// The error mesh, standing in for an unknown name.
    Fallback,
}

/// A mesh id is read as a file path when it holds a path separator or ends in `.obj`.
pub open spec fn looks_like_path(name: Seq<char>) -> bool {
    ||| name.contains('/')
    ||| name.contains('\\')
    ||| (".obj"@.len() <= name.len() && name.subrange(name.len() - ".obj"@.len(), name.len() as int) == ".obj"@)
}

/// Where the mesh called `mesh_name` comes from, given the library's meshes.
pub fn mesh_source(mesh_name: &str, library: &AssetManager) -> (src: MeshSource)
    ensures
        src == (if looks_like_path(mesh_name@) {
            MeshSource::File
        } else if library.meshes().contains(mesh_name@) {
            MeshSource::Library
        } else {
            MeshSource::Fallback
        }),
{
    proof {
        reveal_strlit(".obj");
    }
    if contains_char(mesh_name, '/') || contains_char(mesh_name, '\\') || ends_with(mesh_name, ".obj") {
        MeshSource::File
    } else if library.has_mesh(mesh_name) {
        MeshSource::Library
    } else {
        MeshSource::Fallback
    }
}

/// Strictly increasing in text order (hence without repeats).
pub open spec fn names_sorted(s: Seq<Seq<char>>) -> bool {
    forall|i: int, j: int| 0 <= i < j < s.len() ==> text_less(#[trigger] s[i], #[trigger] s[j])
}

/// Inserts `name` into the sorted list unless it is already there.
fn insert_sorted(out: &mut Vec<String>, name: &String)
    requires
        names_sorted(old(out)@.map_values(|s: String| s@)),
    ensures
        names_sorted(final(out)@.map_values(|s: String| s@)),
        final(out)@.map_values(|s: String| s@).to_set() == old(out)@.map_values(|s: String| s@).to_set().insert(name@),
{
    let ghost before = out@.map_values(|s: String| s@);
    let mut i: usize = 0;
    while i < out.len() && str_less(out[i].as_str(), name.as_str())
        invariant
            i <= out.len(),
            before == out@.map_values(|s: String| s@),
            forall|j: int| 0 <= j < i ==> text_less(#[trigger] before[j], name@),
        decreases out.len() - i,
    {
        i = i + 1;
    }
    if i < out.len() && str_eq(out[i].as_str(), name.as_str()) {
        proof {
            assert(before[i as int] == name@);
            assert(before.to_set().insert(name@) =~= before.to_set());
        }
        return;
    }
    proof {
        if i < out.len() {
            assert(!text_less(before[i as int], name@));
            assert(before[i as int] != name@);
            lemma_text_less_total(before[i as int], name@);
        }
    }
    out.insert(i, name.clone());
    proof {
        let after = out@.map_values(|s: String| s@);
        assert(after =~= before.take(i as int).push(name@) + before.skip(i as int));
        assert forall|a: int, b: int| 0 <= a < b < after.len() implies text_less(#[trigger] after[a], #[trigger] after[b]) by {
            if b < i {
                assert(after[a] == before[a] && after[b] == before[b]);
            } else if b == i {
                assert(after[a] == before[a]);
            } else if a == i {
                assert(after[b] == before[b - 1]);
                if b - 1 > i {
                    assert(text_less(before[i as int], before[b - 1]));
                    lemma_text_less_transitive(name@, before[i as int], before[b - 1]);
                }
            } else if a < i {
                assert(after[a] == before[a] && after[b] == before[b - 1]);
                assert(text_less(before[a], name@));
                if b - 1 == i as int {
                    lemma_text_less_transitive(before[a], name@, before[i as int]);
                } else {
                    assert(text_less(before[a], before[b - 1]));
                }
            } else {
                assert(after[a] == before[a - 1] && after[b] == before[b - 1]);
            }
        }
        assert forall|q: Seq<char>| after.to_set().contains(q) <==> #[trigger] before.to_set().insert(name@).contains(q) by {
            if after.contains(q) {
                let j = choose|j: int| 0 <= j < after.len() && after[j] == q;
                if j < i {
                    assert(before[j] == q);
                } else if j > i {
                    assert(before[j - 1] == q);
                }
            }
            if before.contains(q) {
                let j = choose|j: int| 0 <= j < before.len() && before[j] == q;
                if j < i {
                    assert(after[j] == q);
                } else {
                    assert(after[j + 1] == q);
                }
            }
            if q == name@ {
                assert(after[i as int] == name@);
            }
        }
        assert(after.to_set() =~= before.to_set().insert(name@));
    }
}

/// The mesh names the renderer can draw: the library's meshes and those
/// already uploaded, each once, in text order.
pub fn get_available_meshes(library: &Vec<String>, uploaded: &Vec<String>) -> (names: Vec<String>)
    ensures
        names@.map_values(|s: String| s@).to_set() == library@.map_values(|s: String| s@).to_set().union(
            uploaded@.map_values(|s: String| s@).to_set(),
        ),
        names_sorted(names@.map_values(|s: String| s@)),
{
    let mut names: Vec<String> = Vec::new();
    let ghost lib = library@.map_values(|s: String| s@);
    let ghost up = uploaded@.map_values(|s: String| s@);
    let mut k: usize = 0;
    proof {
        assert(names@.map_values(|s: String| s@).to_set() =~= lib.take(0).to_set());
    }
    while k < library.len()
        invariant
            k <= library.len(),
            lib == library@.map_values(|s: String| s@),
            names_sorted(names@.map_values(|s: String| s@)),
            names@.map_values(|s: String| s@).to_set() == lib.take(k as int).to_set(),
        decreases library.len() - k,
    {
        insert_sorted(&mut names, &library[k]);
        proof {
            assert(lib.take(k + 1) =~= lib.take(k as int).push(lib[k as int]));
            lib.take(k as int).lemma_push_to_set_commute(lib[k as int]);
        }
        k = k + 1;
    }
    proof {
        assert(lib.take(library.len() as int) =~= lib);
        assert(lib.to_set().union(up.take(0).to_set()) =~= lib.to_set());
    }
    let mut j: usize = 0;
    while j < uploaded.len()
        invariant
            j <= uploaded.len(),
            lib == library@.map_values(|s: String| s@),
            up == uploaded@.map_values(|s: String| s@),
            names_sorted(names@.map_values(|s: String| s@)),
            names@.map_values(|s: String| s@).to_set() == lib.to_set().union(up.take(j as int).to_set()),
        decreases uploaded.len() - j,
    {
        insert_sorted(&mut names, &uploaded[j]);
        proof {
            assert(up.take(j + 1) =~= up.take(j as int).push(up[j as int]));
            up.take(j as int).lemma_push_to_set_commute(up[j as int]);
            assert(lib.to_set().union(up.take(j as int).to_set()).insert(up[j as int]) =~= lib.to_set().union(up.take(j + 1).to_set()));
        }
        j = j + 1;
    }
    proof {
        assert(up.take(uploaded.len() as int) =~= up);
    }
    names
}

/// Once a mesh is registered it validates, whatever was cached before:
/// validation answers whether the mesh can be generated now.
pub proof fn lemma_registered_mesh_validates(before: Set<Seq<char>>, after: Set<Seq<char>>, name: Seq<char>)
    requires
        after == before.insert(name),
    ensures
        after.contains(name),
{
}

} // verus!
