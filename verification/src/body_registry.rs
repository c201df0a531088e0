//! Bookkeeping between scene entities and the rigid bodies and colliders the
//! physics simulation created for them.
//!
//! Entities and physics handles are carried as their 64-bit encodings; the
//! simulation itself runs outside this module.

use vstd::prelude::*;
use std::collections::HashMap;
use vstd::std_specs::iter::IteratorSpec;

verus! {

broadcast use {vstd::std_specs::hash::group_hash_axioms, vstd::seq_lib::lemma_seq_contains_after_push};

/// Type of rigid body for physics simulation.
#[derive(Clone, Copy, PartialEq, Eq, Structural)]
pub enum RigidBodyType {
    /// Dynamic body affected by forces and collisions.
    Dynamic,
    /// Fixed body that never moves (static geometry).
    Fixed,
    /// Kinematic body controlled by position.
    KinematicPositionBased,
    /// Kinematic body controlled by velocity.
    KinematicVelocityBased,
}

impl Default for RigidBodyType {
    fn default() -> (t: RigidBodyType)
        ensures
            t == RigidBodyType::Dynamic,
    {
        RigidBodyType::Dynamic
    }
}

/// The three associations kept by the registry.
pub struct RegistryView {
    pub entity_to_body: Map<u64, u64>,
    pub body_to_entity: Map<u64, u64>,
    pub entity_to_colliders: Map<u64, Seq<u64>>,
}

/// Associations between entities, rigid-body handles and collider handles.
pub struct BodyRegistry {
    entity_to_body: HashMap<u64, u64>,
    body_to_entity: HashMap<u64, u64>,
    entity_to_colliders: HashMap<u64, Vec<u64>>,
}

/// The handles listed for `entity` (empty if it has none).
pub open spec fn colliders_of(m: Map<u64, Seq<u64>>, entity: u64) -> Seq<u64> {
    if m.contains_key(entity) {
        m[entity]
    } else {
        Seq::empty()
    }
}

impl View for BodyRegistry {
    type V = RegistryView;

    closed spec fn view(&self) -> RegistryView {
        RegistryView {
            entity_to_body: self.entity_to_body@,
            body_to_entity: self.body_to_entity@,
            entity_to_colliders: self.entity_to_colliders@.map_values(|v: Vec<u64>| v@),
        }
    }
}

impl BodyRegistry {
    /// A registry with no associations.
    pub fn new() -> (r: BodyRegistry)
        ensures
            r@.entity_to_body == Map::<u64, u64>::empty(),
            r@.body_to_entity == Map::<u64, u64>::empty(),
            r@.entity_to_colliders == Map::<u64, Seq<u64>>::empty(),
    {
        let r = BodyRegistry {
            entity_to_body: HashMap::new(),
            body_to_entity: HashMap::new(),
            entity_to_colliders: HashMap::new(),
        };
        proof {
            assert(r@.entity_to_colliders =~= Map::<u64, Seq<u64>>::empty());
        }
        r
    }

    /// Associates `entity` with the rigid body `handle`, in both directions.
    pub fn register_body(&mut self, entity: u64, handle: u64)
        ensures
            final(self)@.entity_to_body == old(self)@.entity_to_body.insert(entity, handle),
            final(self)@.body_to_entity == old(self)@.body_to_entity.insert(handle, entity),
            final(self)@.entity_to_colliders == old(self)@.entity_to_colliders,
    {
        self.entity_to_body.insert(entity, handle);
        self.body_to_entity.insert(handle, entity);
    }

    /// Drops the rigid body of `entity` from both directions and returns its
    /// handle; `None`, with nothing changed, if the entity has no body.
    pub fn unregister_body(&mut self, entity: u64) -> (r: Option<u64>)
        ensures
            r == (if old(self)@.entity_to_body.contains_key(entity) {
                Some(old(self)@.entity_to_body[entity])
            } else {
                None::<u64>
            }),
            final(self)@.entity_to_body == old(self)@.entity_to_body.remove(entity),
            final(self)@.body_to_entity == (match r {
                Some(h) => old(self)@.body_to_entity.remove(h),
                None => old(self)@.body_to_entity,
            }),
            final(self)@.entity_to_colliders == old(self)@.entity_to_colliders,
    {
        match self.entity_to_body.remove(&entity) {
            Some(handle) => {
                self.body_to_entity.remove(&handle);
                Some(handle)
            },
            None => {
                proof {
                    assert(old(self)@.entity_to_body.remove(entity) =~= old(self)@.entity_to_body);
                }
                None
            },
        }
    }

    /// The rigid body handle of `entity`, if it has one.
    pub fn get_body_handle(&self, entity: u64) -> (r: Option<u64>)
        ensures
            r == (if self@.entity_to_body.contains_key(entity) {
                Some(self@.entity_to_body[entity])
            } else {
                None::<u64>
            }),
    {
        match self.entity_to_body.get(&entity) {
            Some(h) => Some(*h),
            None => None,
        }
    }

    /// The entity owning the rigid body `handle`, if any.
    pub fn get_entity_for_body(&self, handle: u64) -> (r: Option<u64>)
        ensures
            r == (if self@.body_to_entity.contains_key(handle) {
                Some(self@.body_to_entity[handle])
            } else {
                None::<u64>
            }),
    {
        match self.body_to_entity.get(&handle) {
            Some(e) => Some(*e),
            None => None,
        }
    }

    /// Appends the collider `handle` to the colliders of `entity`.
    pub fn register_collider(&mut self, entity: u64, handle: u64)
        ensures
            final(self)@.entity_to_colliders == old(self)@.entity_to_colliders.insert(
                entity,
                colliders_of(old(self)@.entity_to_colliders, entity).push(handle),
            ),
            final(self)@.entity_to_body == old(self)@.entity_to_body,
            final(self)@.body_to_entity == old(self)@.body_to_entity,
    {
        let mut list = match self.entity_to_colliders.remove(&entity) {
            Some(v) => v,
            None => Vec::new(),
        };
        list.push(handle);
        self.entity_to_colliders.insert(entity, list);
        proof {
            assert(self@.entity_to_colliders =~= old(self)@.entity_to_colliders.insert(
                entity,
                colliders_of(old(self)@.entity_to_colliders, entity).push(handle),
            ));
        }
    }

    /// Removes and returns all collider handles of `entity` (empty if none).
    pub fn unregister_colliders(&mut self, entity: u64) -> (r: Vec<u64>)
        ensures
            r@ == colliders_of(old(self)@.entity_to_colliders, entity),
            final(self)@.entity_to_colliders == old(self)@.entity_to_colliders.remove(entity),
            final(self)@.entity_to_body == old(self)@.entity_to_body,
            final(self)@.body_to_entity == old(self)@.body_to_entity,
    {
        let r = match self.entity_to_colliders.remove(&entity) {
            Some(v) => v,
            None => Vec::new(),
        };
        proof {
            assert(self@.entity_to_colliders =~= old(self)@.entity_to_colliders.remove(entity));
        }
        r
    }

    /// The collider handles of `entity`, in registration order (empty if none).
    pub fn get_collider_handles(&self, entity: u64) -> (r: &[u64])
        ensures
            r@ == colliders_of(self@.entity_to_colliders, entity),
    {
        match self.entity_to_colliders.get(&entity) {
            Some(v) => v.as_slice(),
            None => &[],
        }
    }
}

impl BodyRegistry {
    /// The entities that have a rigid body, each once, in no particular order.
    pub fn registered_entities(&self) -> (ids: Vec<u64>)
        ensures
            ids@.to_set() == self@.entity_to_body.dom(),
            ids@.no_duplicates(),
    {
        let mut ids: Vec<u64> = Vec::new();
        let ghost keys = self.entity_to_body.keys().remaining().unref();
        for k in it: self.entity_to_body.keys()
            invariant
                it.seq().unref() == keys,
                keys.to_set() == self@.entity_to_body.dom(),
                keys.no_duplicates(),
                ids@ == keys.take(it.index()),
        {
            proof {
                assert(keys.take(it.index() + 1) =~= ids@.push(*k));
            }
            ids.push(*k);
        }
        proof {
            assert(ids@ =~= keys);
        }
        ids
    }

    /// Entities that have a rigid body but are not among the `live` ones.
    pub fn stale_entities(&self, live: &Vec<u64>) -> (stale: Vec<u64>)
        ensures
            stale@.to_set() == self@.entity_to_body.dom().filter(|e: u64| !live@.contains(e)),
            stale@.no_duplicates(),
    {
        let ids = self.registered_entities();
        let mut stale: Vec<u64> = Vec::new();
        let mut i: usize = 0;
        while i < ids.len()
            invariant
                i <= ids.len(),
                ids@.to_set() == self@.entity_to_body.dom(),
                ids@.no_duplicates(),
                stale@.no_duplicates(),
                stale@.to_set() == ids@.take(i as int).to_set().filter(|e: u64| !live@.contains(e)),
                forall|k: int| 0 <= k < stale@.len() ==> ids@.take(i as int).contains(#[trigger] stale@[k]),
            decreases ids.len() - i,
        {
            let e = ids[i];
            let ghost t0 = ids@.take(i as int);
            let ghost before = stale@;
            proof {
                assert(ids@.take(i + 1) =~= t0.push(e));
                t0.lemma_push_to_set_commute(e);
                assert(!t0.contains(e)) by {
                    if t0.contains(e) {
                        let k = choose|k: int| 0 <= k < t0.len() && t0[k] == e;
                        assert(ids@[k] == ids@[i as int]);
                    }
                }
            }
            let mut is_live = false;
            let mut j: usize = 0;
            while j < live.len()
                invariant
                    j <= live.len(),
                    is_live == live@.take(j as int).contains(e),
                decreases live.len() - j,
            {
                proof {
                    assert(live@.take(j + 1) =~= live@.take(j as int).push(live@[j as int]));
                }
                if live[j] == e {
                    is_live = true;
                }
                j = j + 1;
            }
            proof {
                assert(live@.take(live.len() as int) =~= live@);
            }
            if !is_live {
                stale.push(e);
                proof {
                    before.lemma_push_to_set_commute(e);
                    assert forall|a: int, b: int| 0 <= a < b < stale@.len() implies stale@[a] != stale@[b] by {
                        if b == before.len() {
                            assert(t0.contains(before[a]));
                        }
                    }
                    assert forall|k: int| 0 <= k < stale@.len() implies ids@.take(i + 1).contains(#[trigger] stale@[k]) by {
                        if k < before.len() {
                            assert(t0.contains(before[k]));
                        } else {
                            assert(ids@.take(i + 1)[i as int] == e);
                        }
                    }
                }
            } else {
                proof {
                    assert forall|k: int| 0 <= k < stale@.len() implies ids@.take(i + 1).contains(#[trigger] stale@[k]) by {
                        assert(t0.contains(stale@[k]));
                        let m = choose|m: int| 0 <= m < t0.len() && t0[m] == stale@[k];
                        assert(ids@.take(i + 1)[m] == stale@[k]);
                    }
                }
            }
            proof {
                assert(stale@.to_set() =~= ids@.take(i + 1).to_set().filter(|x: u64| !live@.contains(x)));
            }
            i = i + 1;
        }
        proof {
            assert(ids@.take(ids.len() as int) =~= ids@);
            assert(stale@.to_set() =~= self@.entity_to_body.dom().filter(|x: u64| !live@.contains(x)));
        }
        stale
    }

    /// Drops everything registered for `entity`; returns its rigid body, if
    /// any, and its colliders, for the simulation to remove.
    pub fn cleanup_entity(&mut self, entity: u64) -> (removed: (Option<u64>, Vec<u64>))
        ensures
            removed.0 == (if old(self)@.entity_to_body.contains_key(entity) {
                Some(old(self)@.entity_to_body[entity])
            } else {
                None::<u64>
            }),
            removed.1@ == colliders_of(old(self)@.entity_to_colliders, entity),
            final(self)@.entity_to_body == old(self)@.entity_to_body.remove(entity),
            final(self)@.body_to_entity == (match removed.0 {
                Some(h) => old(self)@.body_to_entity.remove(h),
                None => old(self)@.body_to_entity,
            }),
            final(self)@.entity_to_colliders == old(self)@.entity_to_colliders.remove(entity),
    {
        let body = self.unregister_body(entity);
        let colliders = self.unregister_colliders(entity);
        (body, colliders)
    }
}

impl Default for BodyRegistry {
    fn default() -> (r: BodyRegistry)
        ensures
            r@.entity_to_body == Map::<u64, u64>::empty(),
            r@.body_to_entity == Map::<u64, u64>::empty(),
            r@.entity_to_colliders == Map::<u64, Seq<u64>>::empty(),
    {
        BodyRegistry::new()
    }
}

/// A body registered for an entity is found from the entity and the entity
/// from the body; once unregistered, the entity has no body any more.
pub proof fn lemma_body_round_trip(
    start: RegistryView,
    registered: RegistryView,
    unregistered: RegistryView,
    entity: u64,
    handle: u64,
)
    requires
        registered.entity_to_body == start.entity_to_body.insert(entity, handle),
        registered.body_to_entity == start.body_to_entity.insert(handle, entity),
        unregistered.entity_to_body == registered.entity_to_body.remove(entity),
        unregistered.body_to_entity == registered.body_to_entity.remove(
            registered.entity_to_body[entity],
        ),
    ensures
        registered.entity_to_body.contains_key(entity),
        registered.entity_to_body[entity] == handle,
        registered.body_to_entity.contains_key(handle),
        registered.body_to_entity[handle] == entity,
        !unregistered.entity_to_body.contains_key(entity),
        !unregistered.body_to_entity.contains_key(handle),
{
}

/// Colliders come back from `unregister_colliders` exactly as registered,
/// and afterwards the entity has none.
pub proof fn lemma_colliders_round_trip(
    start: Map<u64, Seq<u64>>,
    registered: Map<u64, Seq<u64>>,
    removed: Seq<u64>,
    after: Map<u64, Seq<u64>>,
    entity: u64,
    handle: u64,
)
    requires
        registered == start.insert(entity, colliders_of(start, entity).push(handle)),
        removed == colliders_of(registered, entity),
        after == registered.remove(entity),
    ensures
        removed == colliders_of(start, entity).push(handle),
        removed.last() == handle,
        colliders_of(after, entity) == Seq::<u64>::empty(),
{
}

} // verus!
