//! Asset references found in a scene and the report of their validation.

use vstd::prelude::*;

verus! {

/// Identifier of a mesh (a library name or a path to a model file).
pub struct MeshId(pub String);

impl Default for MeshId {
    /// The default mesh, a cube.
    fn default() -> (m: MeshId)
        ensures
            m.0@ == "cube"@,
    {
        MeshId(String::from_str("cube"))
    }
}

/// Report of asset validation results.
pub struct AssetValidationReport {
    /// Path of the scene file.
    pub scene_path: String,
    /// Mesh references found: entity index, mesh name, whether it is valid.
    pub mesh_references: Vec<(usize, String, bool)>,
    /// Material references found: entity index, whether it is valid.
    pub material_references: Vec<(usize, bool)>,
    /// Validation errors: entity index, message.
    pub errors: Vec<(usize, String)>,
}

/// Summary statistics of a validation report.
#[derive(PartialEq, Eq, Structural, Clone, Copy)]
pub struct AssetValidationSummary {
    pub total_mesh_references: usize,
    pub valid_mesh_references: usize,
    pub total_material_references: usize,
    pub valid_material_references: usize,
    pub total_errors: usize,
    pub is_valid: bool,
}

/// Number of valid mesh references.
pub open spec fn valid_mesh_count(refs: Seq<(usize, String, bool)>) -> nat
    decreases refs.len(),
{
    if refs.len() == 0 {
        0
    } else {
        valid_mesh_count(refs.drop_last()) + if refs.last().2 { 1nat } else { 0nat }
    }
}

/// Number of valid material references.
pub open spec fn valid_material_count(refs: Seq<(usize, bool)>) -> nat
    decreases refs.len(),
{
    if refs.len() == 0 {
        0
    } else {
        valid_material_count(refs.drop_last()) + if refs.last().1 { 1nat } else { 0nat }
    }
}

/// The invalid mesh references (entity index and name), in report order.
pub open spec fn invalid_mesh_refs(refs: Seq<(usize, String, bool)>) -> Seq<(usize, Seq<char>)>
    decreases refs.len(),
{
    if refs.len() == 0 {
        Seq::empty()
    } else {
        let prev = invalid_mesh_refs(refs.drop_last());
        if refs.last().2 {
            prev
        } else {
            prev.push((refs.last().0, refs.last().1@))
        }
    }
}

/// Validation passed: no errors and every reference valid.
pub open spec fn report_valid(r: AssetValidationReport) -> bool {
    &&& r.errors@.len() == 0
    &&& forall|k: int| 0 <= k < r.mesh_references@.len() ==> (#[trigger] r.mesh_references@[k]).2
    &&& forall|k: int| 0 <= k < r.material_references@.len() ==> (#[trigger] r.material_references@[k]).1
}

proof fn lemma_counts_bounded(m: Seq<(usize, String, bool)>, t: Seq<(usize, bool)>)
    ensures
        valid_mesh_count(m) <= m.len(),
        valid_material_count(t) <= t.len(),
    decreases m.len() + t.len(),
{
    if m.len() > 0 {
        lemma_counts_bounded(m.drop_last(), t);
    } else if t.len() > 0 {
        lemma_counts_bounded(m, t.drop_last());
    }
}

impl AssetValidationReport {
    /// An empty report for the scene at `scene_path`.
    pub fn new(scene_path: String) -> (r: AssetValidationReport)
        ensures
            r.scene_path == scene_path,
            r.mesh_references@.len() == 0,
            r.material_references@.len() == 0,
            r.errors@.len() == 0,
    {
        AssetValidationReport {
            scene_path,
            mesh_references: Vec::new(),
            material_references: Vec::new(),
            errors: Vec::new(),
        }
    }

    /// Records a mesh reference.
    pub fn add_mesh_reference(&mut self, entity_index: usize, mesh_name: String, is_valid: bool)
        ensures
            final(self).mesh_references@ == old(self).mesh_references@.push((entity_index, mesh_name, is_valid)),
            final(self).material_references@ == old(self).material_references@,
            final(self).errors@ == old(self).errors@,
            final(self).scene_path == old(self).scene_path,
    {
        self.mesh_references.push((entity_index, mesh_name, is_valid));
    }

    /// Records a material reference.
    pub fn add_material_reference(&mut self, entity_index: usize, is_valid: bool)
        ensures
            final(self).material_references@ == old(self).material_references@.push((entity_index, is_valid)),
            final(self).mesh_references@ == old(self).mesh_references@,
            final(self).errors@ == old(self).errors@,
            final(self).scene_path == old(self).scene_path,
    {
        self.material_references.push((entity_index, is_valid));
    }

    /// Records a validation error.
    pub fn add_error(&mut self, entity_index: usize, error_message: String)
        ensures
            final(self).errors@ == old(self).errors@.push((entity_index, error_message)),
            final(self).mesh_references@ == old(self).mesh_references@,
            final(self).material_references@ == old(self).material_references@,
            final(self).scene_path == old(self).scene_path,
    {
        self.errors.push((entity_index, error_message));
    }

    /// Whether validation passed: no errors and all references valid.
    pub fn is_valid(&self) -> (r: bool)
        ensures
            r == report_valid(*self),
    {
        if self.errors.len() != 0 {
            return false;
        }
        let mut k: usize = 0;
        while k < self.mesh_references.len()
            invariant
                k <= self.mesh_references@.len(),
                forall|x: int| 0 <= x < k ==> (#[trigger] self.mesh_references@[x]).2,
            decreases self.mesh_references@.len() - k,
        {
            if !self.mesh_references[k].2 {
                return false;
            }
            k = k + 1;
        }
        let mut k: usize = 0;
        while k < self.material_references.len()
            invariant
                k <= self.material_references@.len(),
                forall|x: int| 0 <= x < self.mesh_references@.len() ==> (#[trigger] self.mesh_references@[x]).2,
                forall|x: int| 0 <= x < k ==> (#[trigger] self.material_references@[x]).1,
            decreases self.material_references@.len() - k,
        {
            if !self.material_references[k].1 {
                return false;
            }
            k = k + 1;
        }
        true
    }

    /// The invalid mesh references, in report order.
    pub fn invalid_meshes(&self) -> (r: Vec<(usize, &String)>)
        ensures
            r@.len() == invalid_mesh_refs(self.mesh_references@).len(),
            forall|k: int|
                0 <= k < r@.len() ==> (#[trigger] r@[k]).0 == invalid_mesh_refs(self.mesh_references@)[k].0
                    && r@[k].1@ == invalid_mesh_refs(self.mesh_references@)[k].1,
    {
        let mut r: Vec<(usize, &String)> = Vec::new();
        let mut k: usize = 0;
        while k < self.mesh_references.len()
            invariant
                k <= self.mesh_references@.len(),
                r@.len() == invalid_mesh_refs(self.mesh_references@.subrange(0, k as int)).len(),
                forall|x: int|
                    0 <= x < r@.len() ==> (#[trigger] r@[x]).0 == invalid_mesh_refs(
                        self.mesh_references@.subrange(0, k as int),
                    )[x].0 && r@[x].1@ == invalid_mesh_refs(self.mesh_references@.subrange(0, k as int))[x].1,
            decreases self.mesh_references@.len() - k,
        {
            proof {
                let s = self.mesh_references@.subrange(0, k + 1);
                assert(s.drop_last() =~= self.mesh_references@.subrange(0, k as int));
                assert(s.last() == self.mesh_references@[k as int]);
            }
            let entry = &self.mesh_references[k];
            if !entry.2 {
                r.push((entry.0, &entry.1));
            }
            k = k + 1;
        }
        proof {
            assert(self.mesh_references@.subrange(0, self.mesh_references@.len() as int)
                =~= self.mesh_references@);
        }
        r
    }

    /// Counts of references, valid references and errors.
    pub fn summary(&self) -> (s: AssetValidationSummary)
        ensures
            s.total_mesh_references == self.mesh_references@.len(),
            s.valid_mesh_references == valid_mesh_count(self.mesh_references@),
            s.total_material_references == self.material_references@.len(),
            s.valid_material_references == valid_material_count(self.material_references@),
            s.total_errors == self.errors@.len(),
            s.is_valid == report_valid(*self),
    {
        let mut valid_meshes: usize = 0;
        let mut k: usize = 0;
        while k < self.mesh_references.len()
            invariant
                k <= self.mesh_references@.len(),
                valid_meshes == valid_mesh_count(self.mesh_references@.subrange(0, k as int)),
            decreases self.mesh_references@.len() - k,
        {
            proof {
                let s = self.mesh_references@.subrange(0, k + 1);
                assert(s.drop_last() =~= self.mesh_references@.subrange(0, k as int));
                lemma_counts_bounded(self.mesh_references@.subrange(0, k as int), Seq::empty());
            }
            if self.mesh_references[k].2 {
                valid_meshes = valid_meshes + 1;
            }
            k = k + 1;
        }
        let mut valid_materials: usize = 0;
        let mut k: usize = 0;
        while k < self.material_references.len()
            invariant
                k <= self.material_references@.len(),
                valid_materials == valid_material_count(self.material_references@.subrange(0, k as int)),
            decreases self.material_references@.len() - k,
        {
            proof {
                let s = self.material_references@.subrange(0, k + 1);
                assert(s.drop_last() =~= self.material_references@.subrange(0, k as int));
                lemma_counts_bounded(Seq::empty(), self.material_references@.subrange(0, k as int));
            }
            if self.material_references[k].1 {
                valid_materials = valid_materials + 1;
            }
            k = k + 1;
        }
        proof {
            assert(self.mesh_references@.subrange(0, self.mesh_references@.len() as int)
                =~= self.mesh_references@);
            assert(self.material_references@.subrange(0, self.material_references@.len() as int)
                =~= self.material_references@);
        }
        AssetValidationSummary {
            total_mesh_references: self.mesh_references.len(),
            valid_mesh_references: valid_meshes,
            total_material_references: self.material_references.len(),
            valid_material_references: valid_materials,
            total_errors: self.errors.len(),
            is_valid: self.is_valid(),
        }
    }
}

/// Law: a report is valid exactly when it has no errors and its valid counts
/// equal its totals.
pub proof fn lemma_valid_iff_counts(r: AssetValidationReport)
    ensures
        report_valid(r) <==> (r.errors@.len() == 0 && valid_mesh_count(r.mesh_references@)
            == r.mesh_references@.len() && valid_material_count(r.material_references@)
            == r.material_references@.len()),
{
    lemma_mesh_count_full(r.mesh_references@);
    lemma_material_count_full(r.material_references@);
}

proof fn lemma_mesh_count_full(m: Seq<(usize, String, bool)>)
    ensures
        valid_mesh_count(m) == m.len() <==> forall|k: int| 0 <= k < m.len() ==> (#[trigger] m[k]).2,
    decreases m.len(),
{
    if m.len() > 0 {
        lemma_mesh_count_full(m.drop_last());
        lemma_counts_bounded(m.drop_last(), Seq::empty());
        if forall|k: int| 0 <= k < m.len() ==> (#[trigger] m[k]).2 {
            assert forall|k: int| 0 <= k < m.drop_last().len() implies (#[trigger] m.drop_last()[k]).2 by {
                assert(m.drop_last()[k] == m[k]);
            }
            assert(m[m.len() - 1].2);
        }
        if valid_mesh_count(m) == m.len() {
            assert forall|k: int| 0 <= k < m.len() implies (#[trigger] m[k]).2 by {
                if k < m.len() - 1 {
                    assert(m.drop_last()[k] == m[k]);
                }
            }
        }
    }
}

proof fn lemma_material_count_full(m: Seq<(usize, bool)>)
    ensures
        valid_material_count(m) == m.len() <==> forall|k: int| 0 <= k < m.len() ==> (#[trigger] m[k]).1,
    decreases m.len(),
{
    if m.len() > 0 {
        lemma_material_count_full(m.drop_last());
        lemma_counts_bounded(Seq::empty(), m.drop_last());
        if forall|k: int| 0 <= k < m.len() ==> (#[trigger] m[k]).1 {
            assert forall|k: int| 0 <= k < m.drop_last().len() implies (#[trigger] m.drop_last()[k]).1 by {
                assert(m.drop_last()[k] == m[k]);
            }
            assert(m[m.len() - 1].1);
        }
        if valid_material_count(m) == m.len() {
            assert forall|k: int| 0 <= k < m.len() implies (#[trigger] m[k]).1 by {
                if k < m.len() - 1 {
                    assert(m.drop_last()[k] == m[k]);
                }
            }
        }
    }
}

} // verus!
