//! Scene statistics for the debug overlay, its refresh schedule, and the
//! text it shows.
//!
//! Times are nanoseconds: instants are readings of a monotonic clock, spans
//! are differences of such readings.

use vstd::prelude::*;
use crate::text::{decimal, join, push_decimal, str_eq};
use crate::assets::{AssetValidationReport, invalid_mesh_refs, valid_mesh_count, valid_material_count, report_valid};

verus! {

/// Per-mesh usage counts, each mesh name once, in first-use order.
pub struct MeshUsage {
    entries: Vec<(String, usize)>,
    total: usize,
}

/// Sum of the counts.
pub open spec fn usage_total(entries: Seq<(Seq<char>, nat)>) -> nat
    decreases entries.len(),
{
    if entries.len() == 0 {
        0
    } else {
        usage_total(entries.drop_last()) + entries.last().1
    }
}

/// Count recorded for `name` (0 if absent).
pub open spec fn usage_count(entries: Seq<(Seq<char>, nat)>, name: Seq<char>) -> nat
    decreases entries.len(),
{
    if entries.len() == 0 {
        0
    } else {
        usage_count(entries.drop_last(), name) + if entries.last().0 == name {
            entries.last().1
        } else {
            0
        }
    }
}

/// How often `name` occurs in `names`.
pub open spec fn occurrences(names: Seq<Seq<char>>, name: Seq<char>) -> nat
    decreases names.len(),
{
    if names.len() == 0 {
        0
    } else {
        occurrences(names.drop_last(), name) + if names.last() == name {
            1nat
        } else {
            0nat
        }
    }
}

/// Names are distinct and every count is positive.
pub open spec fn usage_wf(entries: Seq<(Seq<char>, nat)>) -> bool {
    &&& forall|i: int, j: int| 0 <= i < j < entries.len() ==> (#[trigger] entries[i]).0 != (#[trigger] entries[j]).0
    &&& forall|i: int| 0 <= i < entries.len() ==> (#[trigger] entries[i]).1 >= 1
}

impl View for MeshUsage {
    type V = Seq<(Seq<char>, nat)>;

    closed spec fn view(&self) -> Seq<(Seq<char>, nat)> {
        self.entries@.map_values(|e: (String, usize)| (e.0@, e.1 as nat))
    }
}

proof fn lemma_count_update(entries: Seq<(Seq<char>, nat)>, k: int, c: nat, x: Seq<char>)
    requires
        0 <= k < entries.len(),
    ensures
        usage_count(entries.update(k, (entries[k].0, c)), x) + (if entries[k].0 == x { entries[k].1 } else { 0 })
            == usage_count(entries, x) + (if entries[k].0 == x { c } else { 0 }),
        usage_total(entries.update(k, (entries[k].0, c))) + entries[k].1 == usage_total(entries) + c,
    decreases entries.len(),
{
    let u = entries.update(k, (entries[k].0, c));
    if k == entries.len() - 1 {
        assert(u.drop_last() =~= entries.drop_last());
    } else {
        assert(u.drop_last() =~= entries.drop_last().update(k, (entries[k].0, c)));
        lemma_count_update(entries.drop_last(), k, c, x);
    }
}

proof fn lemma_count_absent(entries: Seq<(Seq<char>, nat)>, x: Seq<char>)
    requires
        forall|i: int| 0 <= i < entries.len() ==> (#[trigger] entries[i]).0 != x,
    ensures
        usage_count(entries, x) == 0,
    decreases entries.len(),
{
    if entries.len() > 0 {
        lemma_count_absent(entries.drop_last(), x);
    }
}

proof fn lemma_count_present(entries: Seq<(Seq<char>, nat)>, k: int)
    requires
        usage_wf(entries),
        0 <= k < entries.len(),
    ensures
        usage_count(entries, entries[k].0) == entries[k].1,
    decreases entries.len(),
{
    if k == entries.len() - 1 {
        lemma_count_absent(entries.drop_last(), entries[k].0);
    } else {
        lemma_count_present(entries.drop_last(), k);
    }
}

impl MeshUsage {
    /// No meshes counted.
    pub fn new() -> (u: MeshUsage)
        ensures
            u.wf(),
            u@ == Seq::<(Seq<char>, nat)>::empty(),
            u.total() == 0,
    {
        MeshUsage { entries: Vec::new(), total: 0 }
    }

    /// Sum of all counts.
    pub closed spec fn total(&self) -> nat {
        self.total as nat
    }

    /// The representation invariant.
    pub closed spec fn wf(&self) -> bool {
        &&& usage_wf(self@)
        &&& self.total as nat == usage_total(self@)
    }

    /// Number of distinct meshes.
    pub fn len(&self) -> (n: usize)
        ensures
            n == self@.len(),
    {
        self.entries.len()
    }

    /// Sum of all counts.
    pub fn total_count(&self) -> (n: usize)
        ensures
            n == self.total(),
    {
        self.total
    }

    /// Counts one more use of `name`.
    pub fn record(&mut self, name: &str)
        requires
            old(self).wf(),
            old(self).total() < usize::MAX,
        ensures
            final(self).wf(),
            final(self).total() == old(self).total() + 1,
            forall|x: Seq<char>|
                #![trigger usage_count(final(self)@, x)]
                usage_count(final(self)@, x) == usage_count(old(self)@, x) + if x == name@ {
                    1nat
                } else {
                    0nat
                },
            forall|k: int| 0 <= k < old(self)@.len() ==> (#[trigger] final(self)@[k]).0 == old(self)@[k].0,
            forall|k: int|
                0 <= k < old(self)@.len() && (#[trigger] old(self)@[k]).0 == name@ ==> final(self)@
                    == old(self)@.update(k, (name@, old(self)@[k].1 + 1)),
            (forall|k: int| 0 <= k < old(self)@.len() ==> (#[trigger] old(self)@[k]).0 != name@) ==> final(self)@
                == old(self)@.push((name@, 1nat)),
            usage_count(old(self)@, name@) > 0 ==> final(self)@.len() == old(self)@.len(),
            usage_count(old(self)@, name@) == 0 ==> final(self)@ == old(self)@.push((name@, 1nat)),
    {
        let ghost before = self@;
        let n = self.entries.len();
        let mut k: usize = 0;
        while k < n
            invariant
                n == self.entries@.len(),
                before == self@,
                before == old(self)@,
                self.total == old(self).total,
                self.wf(),
                self.total() < usize::MAX,
                k <= n,
                forall|i: int| 0 <= i < k ==> (#[trigger] before[i]).0 != name@,
            decreases n - k,
        {
            assert(before[k as int].0 == self.entries@[k as int].0@);
            if str_eq(self.entries[k].0.as_str(), name) {
                let c = self.entries[k].1;
                proof {
                    lemma_usage_total_bound(before, k as int);
                }
                let entry_name = self.entries[k].0.clone();
                self.entries.set(k, (entry_name, c + 1));
                self.total = self.total + 1;
                proof {
                    assert(self@ =~= before.update(k as int, (before[k as int].0, (c + 1) as nat)));
                    assert forall|x: Seq<char>| #[trigger] usage_count(self@, x) == usage_count(before, x) + if x == name@ {
                        1nat
                    } else {
                        0nat
                    } by {
                        lemma_count_update(before, k as int, (c + 1) as nat, x);
                    }
                    lemma_count_update(before, k as int, (c + 1) as nat, name@);
                    lemma_count_present(before, k as int);
                    assert forall|i: int, j: int| 0 <= i < j < self@.len() implies (#[trigger] self@[i]).0
                        != (#[trigger] self@[j]).0 by {
                        assert(self@[i].0 == before[i].0 && self@[j].0 == before[j].0);
                    }
                    assert forall|m: int| 0 <= m < before.len() && (#[trigger] before[m]).0 == name@ implies self@
                        == before.update(m, (name@, before[m].1 + 1)) by {
                        if m != k as int {
                            if m < k as int {
                                assert(before[m].0 != before[k as int].0);
                            } else {
                                assert(before[k as int].0 != before[m].0);
                            }
                        }
                    }
                }
                return;
            }
            k = k + 1;
        }
        self.entries.push((String::from_str(name), 1));
        self.total = self.total + 1;
        proof {
            assert(self@ =~= before.push((name@, 1nat)));
            assert(self@.drop_last() =~= before);
            lemma_count_absent(before, name@);
        }
    }

    /// Number of recorded uses of `name`.
    pub fn count_of(&self, name: &str) -> (c: usize)
        requires
            self.wf(),
        ensures
            c == usage_count(self@, name@),
    {
        let n = self.entries.len();
        let mut k: usize = 0;
        while k < n
            invariant
                n == self.entries@.len(),
                self.wf(),
                k <= n,
                forall|i: int| 0 <= i < k ==> (#[trigger] self@[i]).0 != name@,
            decreases n - k,
        {
            assert(self@[k as int].0 == self.entries@[k as int].0@);
            if str_eq(self.entries[k].0.as_str(), name) {
                proof {
                    lemma_count_present(self@, k as int);
                }
                return self.entries[k].1;
            }
            k = k + 1;
        }
        proof {
            lemma_count_absent(self@, name@);
        }
        0
    }

    /// The entry at position `k`: mesh name and count.
    pub fn entry(&self, k: usize) -> (e: (&String, usize))
        requires
            k < self@.len(),
        ensures
            e.0@ == self@[k as int].0,
            e.1 == self@[k as int].1,
    {
        (&self.entries[k].0, self.entries[k].1)
    }
}

proof fn lemma_usage_total_bound(entries: Seq<(Seq<char>, nat)>, k: int)
    requires
        0 <= k < entries.len(),
    ensures
        entries[k].1 <= usage_total(entries),
    decreases entries.len(),
{
    if k < entries.len() - 1 {
        lemma_usage_total_bound(entries.drop_last(), k);
    }
}

/// Counts how often each mesh name is used.
pub fn tally_mesh_usage(names: &Vec<String>) -> (u: MeshUsage)
    ensures
        u.wf(),
        u.total() == names@.len(),
        u@.map_values(|e: (Seq<char>, nat)| e.0) == first_uses(names@.map_values(|s: String| s@)),
        forall|x: Seq<char>|
            #![trigger usage_count(u@, x)]
            usage_count(u@, x) == occurrences(names@.map_values(|s: String| s@), x),
{
    let ghost ns = names@.map_values(|s: String| s@);
    let mut u = MeshUsage::new();
    let mut k: usize = 0;
    while k < names.len()
        invariant
            k <= names@.len(),
            ns == names@.map_values(|s: String| s@),
            u.wf(),
            u.total() == k,
            forall|x: Seq<char>|
                #![trigger usage_count(u@, x)]
                usage_count(u@, x) == occurrences(ns.subrange(0, k as int), x),
            u@.map_values(|e: (Seq<char>, nat)| e.0) == first_uses(ns.subrange(0, k as int)),
        decreases names@.len() - k,
    {
        proof {
            assert(ns.subrange(0, k + 1).drop_last() =~= ns.subrange(0, k as int));
            assert(ns.subrange(0, k + 1).last() == names@[k as int]@);
        }
        let ghost before = u@;
        let ghost keys = before.map_values(|e: (Seq<char>, nat)| e.0);
        u.record(names[k].as_str());
        proof {
            let name = names@[k as int]@;
            let after_keys = u@.map_values(|e: (Seq<char>, nat)| e.0);
            if keys.contains(name) {
                let j = choose|j: int| 0 <= j < keys.len() && keys[j] == name;
                if u@.len() != before.len() {
                    assert(u@ == before.push((name, 1nat)));
                    assert(u@[j].0 == u@[before.len() as int].0);
                    assert(false);
                }
                assert(after_keys =~= keys);
            } else {
                if u@.len() == before.len() {
                    assert(after_keys =~= keys);
                    assert(usage_count(u@, name) == usage_count(before, name) + 1);
                    assert forall|i: int| 0 <= i < before.len() implies (#[trigger] before[i]).0 != name by {
                        assert(keys[i] == before[i].0);
                    }
                    assert forall|i: int| 0 <= i < u@.len() implies (#[trigger] u@[i]).0 != name by {
                        assert(after_keys[i] == u@[i].0);
                        assert(keys[i] == before[i].0);
                    }
                    lemma_count_absent(before, name);
                    lemma_count_absent(u@, name);
                    assert(false);
                }
                assert(after_keys =~= keys.push(name));
            }
        }
        k = k + 1;
    }
    proof {
        assert(ns.subrange(0, names@.len() as int) =~= ns);
    }
    u
}

/// The distinct names of `names`, in the order of their first occurrence.
pub open spec fn first_uses(names: Seq<Seq<char>>) -> Seq<Seq<char>>
    decreases names.len(),
{
    if names.len() == 0 {
        Seq::empty()
    } else {
        let rest = first_uses(names.drop_last());
        if rest.contains(names.last()) {
            rest
        } else {
            rest.push(names.last())
        }
    }
}

/// Law: each tallied name is counted as often as it occurs, and names that do
/// not occur are not counted.
pub proof fn lemma_tally_counts_occurrences(names: Seq<Seq<char>>, u: Seq<(Seq<char>, nat)>, x: Seq<char>)
    requires
        forall|y: Seq<char>| #![trigger usage_count(u, y)] usage_count(u, y) == occurrences(names, y),
        !names.contains(x),
    ensures
        usage_count(u, x) == 0,
    decreases names.len(),
{
    lemma_occurrences_absent(names, x);
}

proof fn lemma_occurrences_absent(names: Seq<Seq<char>>, x: Seq<char>)
    requires
        !names.contains(x),
    ensures
        occurrences(names, x) == 0,
    decreases names.len(),
{
    if names.len() > 0 {
        assert(!names.drop_last().contains(x)) by {
            if names.drop_last().contains(x) {
                let i = choose|i: int| 0 <= i < names.drop_last().len() && names.drop_last()[i] == x;
                assert(names[i] == x);
            }
        }
        lemma_occurrences_absent(names.drop_last(), x);
        assert(names[names.len() - 1] != x);
    }
}

/// Query timings, in nanoseconds.
#[derive(Clone, Copy)]
pub struct PerformanceMetrics {
    pub entity_query_time_ns: u64,
    pub component_query_time_ns: u64,
}

/// Statistics about a scene.
pub struct SceneDebugInfo {
    pub total_entities: usize,
    pub renderable_entities: usize,
    pub cameras: usize,
    pub transforms: usize,
    pub global_transforms: usize,
    pub parent_relationships: usize,
    pub mesh_usage: MeshUsage,
    pub materials: usize,
    pub performance_metrics: Option<PerformanceMetrics>,
}

/// `"Entities: T, Renderable: R, Cameras: C, Meshes: M"`.
pub open spec fn summary_text(info: SceneDebugInfo) -> Seq<char> {
    "Entities: "@ + decimal(info.total_entities as nat) + ", Renderable: "@ + decimal(
        info.renderable_entities as nat,
    ) + ", Cameras: "@ + decimal(info.cameras as nat) + ", Meshes: "@ + decimal(info.mesh_usage@.len())
}

/// `"name: count"` for each mesh, joined by `", "`; a note when there are none.
pub open spec fn mesh_usage_text(usage: Seq<(Seq<char>, nat)>) -> Seq<char> {
    if usage.len() == 0 {
        "No meshes in use"@
    } else {
        join(usage.map_values(|e: (Seq<char>, nat)| e.0 + ": "@ + decimal(e.1)), ", "@)
    }
}

/// Query times in whole microseconds, or a note when there are none.
pub open spec fn performance_text(perf: Option<PerformanceMetrics>) -> Seq<char> {
    match perf {
        Some(p) => "Query time: "@ + decimal((p.entity_query_time_ns / 1000) as nat) + "µs entities, "@
            + decimal((p.component_query_time_ns / 1000) as nat) + "µs components"@,
        None => "No performance data"@,
    }
}

impl SceneDebugInfo {
    /// A one-line summary of the statistics.
    pub fn summary(&self) -> (s: String)
        ensures
            s@ == summary_text(*self),
    {
        let mut s = String::from_str("Entities: ");
        push_decimal(&mut s, self.total_entities as u64);
        s.append(", Renderable: ");
        push_decimal(&mut s, self.renderable_entities as u64);
        s.append(", Cameras: ");
        push_decimal(&mut s, self.cameras as u64);
        s.append(", Meshes: ");
        push_decimal(&mut s, self.mesh_usage.len() as u64);
        s
    }

    /// Mesh usage as `"name: count"` items joined by `", "`.
    pub fn mesh_usage_summary(&self) -> (s: String)
        ensures
            s@ == mesh_usage_text(self.mesh_usage@),
    {
        let n = self.mesh_usage.len();
        if n == 0 {
            return String::from_str("No meshes in use");
        }
        let ghost items = self.mesh_usage@.map_values(|e: (Seq<char>, nat)| e.0 + ": "@ + decimal(e.1));
        let mut s = String::new();
        let mut k: usize = 0;
        while k < n
            invariant
                n == self.mesh_usage@.len(),
                n > 0,
                k <= n,
                items == self.mesh_usage@.map_values(|e: (Seq<char>, nat)| e.0 + ": "@ + decimal(e.1)),
                s@ == join(items.subrange(0, k as int), ", "@),
            decreases n - k,
        {
            let (name, count) = self.mesh_usage.entry(k);
            let ghost before = s@;
            if k > 0 {
                s.append(", ");
            }
            s.append(name.as_str());
            s.append(": ");
            push_decimal(&mut s, count as u64);
            proof {
                let sub = items.subrange(0, k + 1);
                assert(sub.drop_last() =~= items.subrange(0, k as int));
                assert(sub.last() == items[k as int]);
                if k == 0 {
                    assert(sub.len() == 1);
                    assert(s@ =~= sub[0]);
                } else {
                    assert(s@ =~= join(items.subrange(0, k as int), ", "@) + ", "@ + sub.last());
                }
            }
            k = k + 1;
        }
        proof {
            assert(items.subrange(0, n as int) =~= items);
        }
        s
    }

    /// Query times in microseconds.
    pub fn performance_summary(&self) -> (s: String)
        ensures
            s@ == performance_text(self.performance_metrics),
    {
        match &self.performance_metrics {
            Some(p) => {
                let mut s = String::from_str("Query time: ");
                push_decimal(&mut s, p.entity_query_time_ns / 1000);
                s.append("µs entities, ");
                push_decimal(&mut s, p.component_query_time_ns / 1000);
                s.append("µs components");
                s
            },
            None => String::from_str("No performance data"),
        }
    }
}

/// Interval between statistics refreshes at start-up: 500 ms.
pub const DEFAULT_UPDATE_INTERVAL_NS: u64 = 500_000_000;

/// Debug overlay state: when statistics were last collected, how often to
/// collect them, and the last collection.
pub struct DebugOverlay {
    last_update_ns: u64,
    update_interval_ns: u64,
    cached_info: Option<SceneDebugInfo>,
}

/// The multi-line report of cached statistics.
pub open spec fn debug_info_text(info: Option<SceneDebugInfo>) -> Seq<char> {
    match info {
        Some(i) => "Scene Debug Info:\n- Total Entities: "@ + decimal(i.total_entities as nat)
            + "\n- Renderable: "@ + decimal(i.renderable_entities as nat) + "\n- Cameras: "@ + decimal(
            i.cameras as nat,
        ) + "\n- Transforms: "@ + decimal(i.transforms as nat) + "\n- Unique Meshes: "@ + decimal(
            i.mesh_usage@.len(),
        ) + "\n- Materials: "@ + decimal(i.materials as nat) + "\n- Parent Relationships: "@ + decimal(
            i.parent_relationships as nat,
        ),
        None => "Debug info not available"@,
    }
}

/// Law: a scene in which every entity has a transform and a global
/// transform, with exactly one camera, no more mesh uses than materials and
/// no entity query slower than a millisecond, gets no warnings.
pub proof fn lemma_healthy_scene_no_warnings(i: SceneDebugInfo)
    requires
        i.transforms == i.total_entities,
        i.global_transforms == i.transforms,
        i.cameras == 1,
        i.mesh_usage.total() <= i.materials,
        i.performance_metrics matches Some(p) ==> p.entity_query_time_ns <= 1_000_000,
    ensures
        health_warnings(Some(i)) == Seq::<Seq<char>>::empty(),
{
}

/// Text of the multiple-cameras warning for `cameras` cameras.
pub open spec fn multiple_cameras_warning(cameras: nat) -> Seq<char> {
    decimal(cameras) + " camera entities found (multiple cameras)"@
}

/// `lit` is a nonempty text ending in a character other than `)`.
proof fn lemma_not_paren_end(prefix: Seq<char>, lit: Seq<char>)
    requires
        lit.len() > 0,
        lit.last() != ')',
    ensures
        (prefix + lit).len() > 0,
        (prefix + lit).last() != ')',
{
    assert((prefix + lit)[(prefix + lit).len() - 1] == lit[lit.len() - 1]);
}

/// Law: the multiple-cameras warning is among the warnings exactly when the
/// scene has more than one camera.
pub proof fn lemma_multiple_cameras_warning(i: SceneDebugInfo)
    ensures
        health_warnings(Some(i)).contains(multiple_cameras_warning(i.cameras as nat)) <==> i.cameras > 1,
{
    reveal_strlit(" entities without Transform components");
    reveal_strlit(" entities with Transform but no GlobalTransform");
    reveal_strlit("No camera entities found in scene");
    reveal_strlit(" camera entities found (multiple cameras)");
    reveal_strlit(" entities with meshes but possibly missing materials");
    reveal_strlit("ms");
    let target = multiple_cameras_warning(i.cameras as nat);
    let w = health_warnings(Some(i));
    let missing_transform = i.total_entities - i.transforms;
    let missing_global = i.transforms - i.global_transforms;
    let meshes = i.mesh_usage.total();
    let x1 = decimal(missing_transform as nat) + " entities without Transform components"@;
    let x2 = decimal(missing_global as nat) + " entities with Transform but no GlobalTransform"@;
    let x3 = "No camera entities found in scene"@;
    let x5 = decimal((meshes - i.materials) as nat) + " entities with meshes but possibly missing materials"@;
    let w0 = Seq::<Seq<char>>::empty();
    let w1 = if missing_transform > 0 { w0.push(x1) } else { w0 };
    let w2 = if missing_global > 0 { w1.push(x2) } else { w1 };
    let w3 = if i.cameras == 0 { w2.push(x3) } else { w2 };
    let w4 = if i.cameras > 1 { w3.push(target) } else { w3 };
    let w5 = if meshes > i.materials { w4.push(x5) } else { w4 };
    assert(target.len() > 0 && target.last() == ')') by {
        assert(target[target.len() - 1] == " camera entities found (multiple cameras)"@[40]);
    }
    if i.cameras > 1 {
        assert(w4[w3.len() as int] == target);
        assert(w5[w3.len() as int] == target);
        assert(w[w3.len() as int] == target);
        assert(w.contains(target));
    } else {
        lemma_not_paren_end(decimal(missing_transform as nat), " entities without Transform components"@);
        lemma_not_paren_end(decimal(missing_global as nat), " entities with Transform but no GlobalTransform"@);
        lemma_not_paren_end(Seq::empty(), x3);
        assert(Seq::<char>::empty() + x3 =~= x3);
        lemma_not_paren_end(decimal((meshes - i.materials) as nat), " entities with meshes but possibly missing materials"@);
        assert forall|k: int| 0 <= k < w5.len() implies (#[trigger] w5[k]).len() > 0 && w5[k].last() != ')' by {
            if k < w1.len() {
                assert(w1[k] == x1);
            } else if k < w2.len() {
                assert(w2[k] == x2);
            } else if k < w3.len() {
                assert(w3[k] == x3);
            } else {
                assert(w5[k] == x5);
            }
        }
        match i.performance_metrics {
            Some(p) => {
                if p.entity_query_time_ns > 1_000_000 {
                    let x6 = "Slow entity queries: "@ + decimal((p.entity_query_time_ns / 1_000_000) as nat) + "ms"@;
                    lemma_not_paren_end("Slow entity queries: "@ + decimal((p.entity_query_time_ns / 1_000_000) as nat), "ms"@);
                    assert(w == w5.push(x6));
                    assert forall|k: int| 0 <= k < w.len() implies (#[trigger] w[k]).len() > 0 && w[k].last() != ')' by {
                        if k < w5.len() {
                            assert(w[k] == w5[k]);
                        }
                    }
                } else {
                    assert(w == w5);
                }
            },
            None => {
                assert(w == w5);
            },
        }
        if w.contains(target) {
            let k = choose|k: int| 0 <= k < w.len() && w[k] == target;
            assert(w[k].last() != ')');
        }
    }
}

/// `lit` is a nonempty text ending in a character other than `e`.
proof fn lemma_not_e_end(prefix: Seq<char>, lit: Seq<char>)
    requires
        lit.len() > 0,
        lit.last() != 'e',
    ensures
        (prefix + lit).len() > 0,
        (prefix + lit).last() != 'e',
{
    assert((prefix + lit)[(prefix + lit).len() - 1] == lit[lit.len() - 1]);
}

/// Law: the no-camera warning is among the warnings exactly when the scene
/// has no camera.
pub proof fn lemma_no_camera_warning(i: SceneDebugInfo)
    ensures
        health_warnings(Some(i)).contains("No camera entities found in scene"@) <==> i.cameras == 0,
{
    reveal_strlit(" entities without Transform components");
    reveal_strlit(" entities with Transform but no GlobalTransform");
    reveal_strlit("No camera entities found in scene");
    reveal_strlit(" camera entities found (multiple cameras)");
    reveal_strlit(" entities with meshes but possibly missing materials");
    reveal_strlit("ms");
    let target = "No camera entities found in scene"@;
    let w = health_warnings(Some(i));
    let missing_transform = i.total_entities - i.transforms;
    let missing_global = i.transforms - i.global_transforms;
    let meshes = i.mesh_usage.total();
    let x1 = decimal(missing_transform as nat) + " entities without Transform components"@;
    let x2 = decimal(missing_global as nat) + " entities with Transform but no GlobalTransform"@;
    let x4 = multiple_cameras_warning(i.cameras as nat);
    let x5 = decimal((meshes - i.materials) as nat) + " entities with meshes but possibly missing materials"@;
    let w0 = Seq::<Seq<char>>::empty();
    let w1 = if missing_transform > 0 { w0.push(x1) } else { w0 };
    let w2 = if missing_global > 0 { w1.push(x2) } else { w1 };
    let w3 = if i.cameras == 0 { w2.push(target) } else { w2 };
    let w4 = if i.cameras > 1 { w3.push(x4) } else { w3 };
    let w5 = if meshes > i.materials { w4.push(x5) } else { w4 };
    assert(target.len() > 0 && target.last() == 'e') by {
        assert(target[target.len() - 1] == target[32]);
    }
    if i.cameras == 0 {
        assert(w3[w2.len() as int] == target);
        assert(w4[w2.len() as int] == target);
        assert(w5[w2.len() as int] == target);
        assert(w[w2.len() as int] == target);
        assert(w.contains(target));
    } else {
        lemma_not_e_end(decimal(missing_transform as nat), " entities without Transform components"@);
        lemma_not_e_end(decimal(missing_global as nat), " entities with Transform but no GlobalTransform"@);
        lemma_not_e_end(decimal(i.cameras as nat), " camera entities found (multiple cameras)"@);
        lemma_not_e_end(decimal((meshes - i.materials) as nat), " entities with meshes but possibly missing materials"@);
        assert forall|k: int| 0 <= k < w5.len() implies (#[trigger] w5[k]).len() > 0 && w5[k].last() != 'e' by {
            if k < w1.len() {
                assert(w1[k] == x1);
            } else if k < w2.len() {
                assert(w2[k] == x2);
            } else if k < w4.len() {
                assert(w4[k] == x4);
            } else {
                assert(w5[k] == x5);
            }
        }
        match i.performance_metrics {
            Some(p) => {
                if p.entity_query_time_ns > 1_000_000 {
                    let x6 = "Slow entity queries: "@ + decimal((p.entity_query_time_ns / 1_000_000) as nat) + "ms"@;
                    lemma_not_e_end("Slow entity queries: "@ + decimal((p.entity_query_time_ns / 1_000_000) as nat), "ms"@);
                    assert(w == w5.push(x6));
                    assert forall|k: int| 0 <= k < w.len() implies (#[trigger] w[k]).len() > 0 && w[k].last() != 'e' by {
                        if k < w5.len() {
                            assert(w[k] == w5[k]);
                        }
                    }
                } else {
                    assert(w == w5);
                }
            },
            None => {
                assert(w == w5);
            },
        }
        if w.contains(target) {
            let k = choose|k: int| 0 <= k < w.len() && w[k] == target;
            assert(w[k].last() != 'e');
        }
    }
}

/// The counts that `check_scene_health` subtracts are consistent.
pub open spec fn health_counts_ok(i: SceneDebugInfo) -> bool {
    &&& i.transforms <= i.total_entities
    &&& i.global_transforms <= i.transforms
    &&& i.mesh_usage.wf()
}

/// The warnings about a scene, in the order they are checked.
pub open spec fn health_warnings(info: Option<SceneDebugInfo>) -> Seq<Seq<char>> {
    match info {
        None => Seq::empty(),
        Some(i) => {
            let missing_transform = i.total_entities - i.transforms;
            let missing_global = i.transforms - i.global_transforms;
            let meshes = i.mesh_usage.total();
            let w0 = Seq::<Seq<char>>::empty();
            let w1 = if missing_transform > 0 {
                w0.push(decimal(missing_transform as nat) + " entities without Transform components"@)
            } else {
                w0
            };
            let w2 = if missing_global > 0 {
                w1.push(decimal(missing_global as nat) + " entities with Transform but no GlobalTransform"@)
            } else {
                w1
            };
            let w3 = if i.cameras == 0 {
                w2.push("No camera entities found in scene"@)
            } else {
                w2
            };
            let w4 = if i.cameras > 1 {
                w3.push(decimal(i.cameras as nat) + " camera entities found (multiple cameras)"@)
            } else {
                w3
            };
            let w5 = if meshes > i.materials {
                w4.push(decimal((meshes - i.materials) as nat)
                    + " entities with meshes but possibly missing materials"@)
            } else {
                w4
            };
            match i.performance_metrics {
                Some(p) => if p.entity_query_time_ns > 1_000_000 {
                    w5.push("Slow entity queries: "@ + decimal((p.entity_query_time_ns / 1_000_000) as nat) + "ms"@)
                } else {
                    w5
                },
                None => w5,
            }
        },
    }
}

impl DebugOverlay {
    /// A fresh overlay at time `now_ns`, refreshing every 500 ms, with nothing collected.
    pub fn new(now_ns: u64) -> (o: DebugOverlay)
        ensures
            o.last_update() == now_ns,
            o.update_interval() == DEFAULT_UPDATE_INTERVAL_NS,
            o.cached() is None,
    {
        DebugOverlay { last_update_ns: now_ns, update_interval_ns: DEFAULT_UPDATE_INTERVAL_NS, cached_info: None }
    }

    pub closed spec fn last_update(&self) -> u64 {
        self.last_update_ns
    }

    pub closed spec fn update_interval(&self) -> u64 {
        self.update_interval_ns
    }

    pub closed spec fn cached(&self) -> Option<SceneDebugInfo> {
        self.cached_info
    }

    /// A refresh is due when at least the interval has passed since the last
    /// one (a clock reading before the last one counts as no time passed).
    pub open spec fn due(&self, now_ns: u64) -> bool {
        (if now_ns >= self.last_update() { now_ns - self.last_update() } else { 0 }) >= self.update_interval()
    }

    /// Whether statistics should be collected now.
    pub fn is_update_due(&self, now_ns: u64) -> (r: bool)
        ensures
            r == self.due(now_ns),
    {
        now_ns.saturating_sub(self.last_update_ns) >= self.update_interval_ns
    }

    /// Stores freshly collected statistics if a refresh is due.
    pub fn update(&mut self, now_ns: u64, info: SceneDebugInfo)
        ensures
            old(self).due(now_ns) ==> final(self).cached() == Some(info) && final(self).last_update() == now_ns,
            !old(self).due(now_ns) ==> final(self).cached() == old(self).cached() && final(self).last_update()
                == old(self).last_update(),
            final(self).update_interval() == old(self).update_interval(),
    {
        if self.is_update_due(now_ns) {
            self.cached_info = Some(info);
            self.last_update_ns = now_ns;
        }
    }

    /// Stores freshly collected statistics now.
    pub fn force_update(&mut self, now_ns: u64, info: SceneDebugInfo)
        ensures
            final(self).cached() == Some(info),
            final(self).last_update() == now_ns,
            final(self).update_interval() == old(self).update_interval(),
    {
        self.cached_info = Some(info);
        self.last_update_ns = now_ns;
    }

    /// The last collected statistics.
    pub fn debug_info(&self) -> (r: Option<&SceneDebugInfo>)
        ensures
            match self.cached() {
                Some(i) => r == Some(&i),
                None => r is None,
            },
    {
        self.cached_info.as_ref()
    }

    /// Sets the refresh interval.
    pub fn set_update_interval(&mut self, interval_ns: u64)
        ensures
            final(self).update_interval() == interval_ns,
            final(self).last_update() == old(self).last_update(),
            final(self).cached() == old(self).cached(),
    {
        self.update_interval_ns = interval_ns;
    }

    /// The cached statistics as a multi-line report.
    pub fn format_debug_info(&self) -> (s: String)
        ensures
            s@ == debug_info_text(self.cached()),
    {
        match &self.cached_info {
            Some(i) => {
                let mut s = String::from_str("Scene Debug Info:\n- Total Entities: ");
                push_decimal(&mut s, i.total_entities as u64);
                s.append("\n- Renderable: ");
                push_decimal(&mut s, i.renderable_entities as u64);
                s.append("\n- Cameras: ");
                push_decimal(&mut s, i.cameras as u64);
                s.append("\n- Transforms: ");
                push_decimal(&mut s, i.transforms as u64);
                s.append("\n- Unique Meshes: ");
                push_decimal(&mut s, i.mesh_usage.len() as u64);
                s.append("\n- Materials: ");
                push_decimal(&mut s, i.materials as u64);
                s.append("\n- Parent Relationships: ");
                push_decimal(&mut s, i.parent_relationships as u64);
                s
            },
            None => String::from_str("Debug info not available"),
        }
    }

    /// Warnings about the cached statistics: entities lacking transforms,
    /// no or several cameras, meshes without materials, slow queries.
    pub fn check_scene_health(&self) -> (w: Vec<String>)
        requires
            self.cached() matches Some(i) ==> health_counts_ok(i),
        ensures
            w@.map_values(|s: String| s@) == health_warnings(self.cached()),
    {
        let mut w: Vec<String> = Vec::new();
        match &self.cached_info {
            None => {
                assert(w@.map_values(|s: String| s@) =~= Seq::<Seq<char>>::empty());
            },
            Some(i) => {
                let ghost w0 = Seq::<Seq<char>>::empty();
                let missing_transform = i.total_entities - i.transforms;
                if missing_transform > 0 {
                    let mut s = String::new();
                    push_decimal(&mut s, missing_transform as u64);
                    s.append(" entities without Transform components");
                    w.push(s);
                }
                let missing_global = i.transforms - i.global_transforms;
                if missing_global > 0 {
                    let mut s = String::new();
                    push_decimal(&mut s, missing_global as u64);
                    s.append(" entities with Transform but no GlobalTransform");
                    w.push(s);
                }
                if i.cameras == 0 {
                    w.push(String::from_str("No camera entities found in scene"));
                }
                if i.cameras > 1 {
                    let mut s = String::new();
                    push_decimal(&mut s, i.cameras as u64);
                    s.append(" camera entities found (multiple cameras)");
                    w.push(s);
                }
                let meshes = i.mesh_usage.total_count();
                if meshes > i.materials {
                    let mut s = String::new();
                    push_decimal(&mut s, (meshes - i.materials) as u64);
                    s.append(" entities with meshes but possibly missing materials");
                    w.push(s);
                }
                match &i.performance_metrics {
                    Some(p) => {
                        if p.entity_query_time_ns > 1_000_000 {
                            let mut s = String::from_str("Slow entity queries: ");
                            push_decimal(&mut s, p.entity_query_time_ns / 1_000_000);
                            s.append("ms");
                            w.push(s);
                        }
                    },
                    None => {},
                }
                assert(w@.map_values(|s: String| s@) =~= health_warnings(self.cached()));
            },
        }
        w
    }
}

/// `"  Entity i: text\n"` lines for the given entries.
pub open spec fn entity_lines(entries: Seq<(usize, Seq<char>)>) -> Seq<char>
    decreases entries.len(),
{
    if entries.len() == 0 {
        Seq::empty()
    } else {
        entity_lines(entries.drop_last()) + "  Entity "@ + decimal(entries.last().0 as nat) + ": "@
            + entries.last().1 + "\n"@
    }
}

/// `"true"` or `"false"`.
pub open spec fn bool_text(b: bool) -> Seq<char> {
    if b {
        "true"@
    } else {
        "false"@
    }
}

/// The validation report text, given the quoted file name of the scene.
pub open spec fn validation_report_text(r: AssetValidationReport, quoted_name: Seq<char>) -> Seq<char> {
    let invalid = invalid_mesh_refs(r.mesh_references@);
    let errors = r.errors@.map_values(|e: (usize, String)| (e.0, e.1@));
    let head = "Asset Validation Report for "@ + quoted_name + "\nValid: "@ + bool_text(report_valid(r))
        + "\nMeshes: "@ + decimal(valid_mesh_count(r.mesh_references@)) + "/"@ + decimal(
        r.mesh_references@.len(),
    ) + "\nMaterials: "@ + decimal(valid_material_count(r.material_references@)) + "/"@ + decimal(
        r.material_references@.len(),
    ) + "\nErrors: "@ + decimal(r.errors@.len()) + "\n"@;
    let with_meshes = if invalid.len() > 0 {
        head + "\nInvalid Meshes:\n"@ + entity_lines(invalid)
    } else {
        head
    };
    if errors.len() > 0 {
        with_meshes + "\nErrors:\n"@ + entity_lines(errors)
    } else {
        with_meshes
    }
}

/// Refresh spacing: after a refresh at `last_update`, no refresh is due again
/// until the interval has passed.
pub proof fn lemma_overlay_refresh_spacing(o: DebugOverlay, now_ns: u64)
    requires
        o.last_update() <= now_ns < o.last_update() + o.update_interval(),
    ensures
        !o.due(now_ns),
{
}

/// The final component of a path, as `std::path::Path::file_name` finds it
/// (`None` when the path ends in `..` or has no component).
pub uninterp spec fn path_file_name(path: Seq<char>) -> Option<Seq<char>>;

/// Calls `std::path::Path::file_name` on the path. Claimed: the result is a
/// function of the path alone, named `path_file_name`; what it is is not
/// stated here. The name comes from a `str`, so reading it back as a
/// `String` loses nothing.
#[verifier::external_body]
fn file_name_of(path: &str) -> (r: Option<String>)
    ensures
        match r {
            Some(n) => path_file_name(path@) == Some(n@),
            None => path_file_name(path@) is None,
        },
{
    match std::path::Path::new(path).file_name() {
        Some(n) => Some(n.to_string_lossy().into_owned()),
        None => None,
    }
}

/// How `Debug` prints a path holding `text`: quoted, with special
/// characters escaped.
pub uninterp spec fn path_debug(text: Seq<char>) -> Seq<char>;

/// Formats the path holding `text` with `Debug`. Claimed: the result is a
/// function of the text alone, named `path_debug`; the escaping rules are
/// not stated here.
#[verifier::external_body]
fn debug_path(text: &str) -> (s: String)
    ensures
        s@ == path_debug(text@),
{
    format!("{:?}", std::path::Path::new(text))
}

/// The file name of a path, empty when it has none.
pub open spec fn file_name_text(path: Seq<char>) -> Seq<char> {
    match path_file_name(path) {
        Some(n) => n,
        None => Seq::empty(),
    }
}

/// Asset validation debugging utilities.
pub struct AssetValidationDebug;

fn push_entity_line(out: &mut String, idx: usize, text: &str)
    ensures
        final(out)@ == old(out)@ + "  Entity "@ + decimal(idx as nat) + ": "@ + text@ + "\n"@,
{
    out.append("  Entity ");
    push_decimal(out, idx as u64);
    out.append(": ");
    out.append(text);
    out.append("\n");
}

impl AssetValidationDebug {
    /// The validation report as text: totals, then invalid meshes and errors
    /// per entity. `quoted_name` is the file name of the scene as `Debug`
    /// prints it.
    pub fn format_validation_report_named(report: &AssetValidationReport, quoted_name: &str) -> (s: String)
        ensures
            s@ == validation_report_text(*report, quoted_name@),
    {
        let summary = report.summary();
        let mut s = String::from_str("Asset Validation Report for ");
        s.append(quoted_name);
        s.append("\nValid: ");
        if summary.is_valid {
            s.append("true");
        } else {
            s.append("false");
        }
        s.append("\nMeshes: ");
        push_decimal(&mut s, summary.valid_mesh_references as u64);
        s.append("/");
        push_decimal(&mut s, summary.total_mesh_references as u64);
        s.append("\nMaterials: ");
        push_decimal(&mut s, summary.valid_material_references as u64);
        s.append("/");
        push_decimal(&mut s, summary.total_material_references as u64);
        s.append("\nErrors: ");
        push_decimal(&mut s, summary.total_errors as u64);
        s.append("\n");
        let invalid = report.invalid_meshes();
        let ghost inv = invalid_mesh_refs(report.mesh_references@);
        if invalid.len() > 0 {
            s.append("\nInvalid Meshes:\n");
            let ghost base = s@;
            let mut k: usize = 0;
            while k < invalid.len()
                invariant
                    k <= invalid@.len(),
                    invalid@.len() == inv.len(),
                    forall|x: int| 0 <= x < invalid@.len() ==> (#[trigger] invalid@[x]).0 == inv[x].0
                        && invalid@[x].1@ == inv[x].1,
                    s@ == base + entity_lines(inv.subrange(0, k as int)),
                decreases invalid@.len() - k,
            {
                push_entity_line(&mut s, invalid[k].0, invalid[k].1.as_str());
                proof {
                    let sub = inv.subrange(0, k + 1);
                    assert(sub.drop_last() =~= inv.subrange(0, k as int));
                    assert(sub.last() == inv[k as int]);
                }
                k = k + 1;
            }
            proof {
                assert(inv.subrange(0, inv.len() as int) =~= inv);
            }
        }
        let ghost errs = report.errors@.map_values(|e: (usize, String)| (e.0, e.1@));
        if report.errors.len() > 0 {
            s.append("\nErrors:\n");
            let ghost base = s@;
            let mut k: usize = 0;
            while k < report.errors.len()
                invariant
                    k <= report.errors@.len(),
                    errs == report.errors@.map_values(|e: (usize, String)| (e.0, e.1@)),
                    s@ == base + entity_lines(errs.subrange(0, k as int)),
                decreases report.errors@.len() - k,
            {
                push_entity_line(&mut s, report.errors[k].0, report.errors[k].1.as_str());
                proof {
                    let sub = errs.subrange(0, k + 1);
                    assert(sub.drop_last() =~= errs.subrange(0, k as int));
                    assert(sub.last() == errs[k as int]);
                }
                k = k + 1;
            }
            proof {
                assert(errs.subrange(0, errs.len() as int) =~= errs);
            }
        }
        s
    }

    /// The validation report as text, naming the scene by its file name.
    pub fn format_validation_report(report: &AssetValidationReport) -> (s: String)
        ensures
            s@ == validation_report_text(*report, path_debug(file_name_text(report.scene_path@))),
    {
        let name = match file_name_of(report.scene_path.as_str()) {
            Some(n) => n,
            None => String::new(),
        };
        let quoted = debug_path(name.as_str());
        Self::format_validation_report_named(report, quoted.as_str())
    }
}

} // verus!
