//! Entity handles, the parent relation, names, and the mapping from the
//! entity ids of a saved scene to the entities created when loading it.

use vstd::prelude::*;
use std::collections::HashMap;
use hecs::Entity;
use vstd::std_specs::iter::IteratorSpec;

verus! {

broadcast use vstd::std_specs::hash::group_hash_axioms;

/// `hecs::Entity`, an opaque entity handle, carried through unchanged.
#[verifier::external_type_specification]
#[verifier::external_body]
pub struct ExEntity(Entity);

/// Parent component: the entity this one hangs below.
pub struct Parent(pub Entity);

/// Serialisable form of `Parent`: the parent's id within the saved scene.
#[derive(Clone, Copy)]
pub struct ParentData {
    pub entity_id: u64,
}

/// Name component for user-friendly identification.
pub struct Name(pub String);

impl Default for Name {
    /// An empty name.
    fn default() -> (n: Name)
        ensures
            n.0@ == Seq::<char>::empty(),
    {
        Name(String::new())
    }
}

impl Name {
    /// A name holding the given text.
    pub fn new(name: &str) -> (n: Name)
        ensures
            n.0@ == name@,
    {
        Name(String::from_str(name))
    }
}

/// Maps entity ids of a saved scene to the entities created for them.
pub struct EntityMapper {
    mapping: HashMap<u64, Entity>,
}

impl View for EntityMapper {
    type V = Map<u64, Entity>;

    closed spec fn view(&self) -> Map<u64, Entity> {
        self.mapping@
    }
}

impl EntityMapper {
    /// An empty mapper.
    pub fn new() -> (m: EntityMapper)
        ensures
            m@ == Map::<u64, Entity>::empty(),
    {
        EntityMapper { mapping: HashMap::new() }
    }

    /// Maps `old_id` to `new_entity`, replacing any earlier mapping of `old_id`.
    pub fn register(&mut self, old_id: u64, new_entity: Entity)
        ensures
            final(self)@ == old(self)@.insert(old_id, new_entity),
    {
        self.mapping.insert(old_id, new_entity);
    }

    /// The entity mapped from `old_id`, if any.
    pub fn remap(&self, old_id: u64) -> (r: Option<Entity>)
        ensures
            r == (if self@.contains_key(old_id) { Some(self@[old_id]) } else { None::<Entity> }),
    {
        match self.mapping.get(&old_id) {
            Some(e) => Some(*e),
            None => None,
        }
    }

    /// Number of mapped ids.
    pub fn len(&self) -> (n: usize)
        ensures
            n == self@.len(),
    {
        self.mapping.len()
    }

    /// Whether nothing is mapped.
    pub fn is_empty(&self) -> (r: bool)
        ensures
            r == (self@.len() == 0),
    {
        assert(self.mapping@.dom().finite());
        if self.mapping.is_empty() {
            true
        } else {
            assert(self.mapping@.dom().len() != 0) by {
                let k = choose|k: u64| self.mapping@.dom().contains(k);
                assert(self.mapping@.dom().contains(k));
            }
            false
        }
    }

    /// Removes all mappings.
    pub fn clear(&mut self)
        ensures
            final(self)@ == Map::<u64, Entity>::empty(),
    {
        self.mapping.clear();
    }

    /// All mapped ids, each once, in no particular order.
    pub fn old_ids(&self) -> (ids: Vec<u64>)
        ensures
            ids@.to_set() == self@.dom(),
            ids@.no_duplicates(),
            ids@.len() == self@.len(),
    {
        let mut ids: Vec<u64> = Vec::new();
        let ghost keys = self.mapping.keys().remaining().unref();
        for k in it: self.mapping.keys()
            invariant
                it.seq().unref() == keys,
                keys.to_set() == self@.dom(),
                keys.no_duplicates(),
                keys.len() == self@.len(),
                ids@ == keys.take(it.index()),
        {
            proof {
                assert(keys.take(it.index() + 1) =~= ids@.push(*k));
            }
            ids.push(*k);
        }
        proof {
            assert(ids@ =~= keys);
        }
        ids
    }

    /// All mapped ids and their entities, each id once (in no particular order).
    pub fn iter(&self) -> (pairs: Vec<(u64, Entity)>)
        ensures
            lists_mapping(pairs@, self@),
    {
        let ids = self.old_ids();
        let mut pairs: Vec<(u64, Entity)> = Vec::new();
        for i in 0..ids.len()
            invariant
                ids@.to_set() == self@.dom(),
                ids@.no_duplicates(),
                ids@.len() == self@.len(),
                pairs@.len() == i,
                forall|j: int| 0 <= j < i ==> #[trigger] pairs@[j] == (ids@[j], self@[ids@[j]]),
        {
            let id = ids[i];
            assert(ids@.to_set().contains(ids@[i as int]));
            match self.mapping.get(&id) {
                Some(e) => pairs.push((id, *e)),
                None => {
                    proof {
                        assert(false);
                    }
                },
            }
        }
        proof {
            assert(pairs@.map_values(|p: (u64, Entity)| p.0) =~= ids@);
        }
        pairs
    }

    /// All mapped entities, one for each mapped id, in the order of `iter`.
    pub fn new_entities(&self) -> (ents: Vec<Entity>)
        ensures
            exists|pairs: Seq<(u64, Entity)>|
                lists_mapping(pairs, self@) && ents@ == pairs.map_values(|p: (u64, Entity)| p.1),
    {
        let pairs = self.iter();
        let mut ents: Vec<Entity> = Vec::new();
        for i in 0..pairs.len()
            invariant
                ents@ == pairs@.map_values(|p: (u64, Entity)| p.1).take(i as int),
        {
            proof {
                assert(pairs@.map_values(|p: (u64, Entity)| p.1).take(i + 1)
                    =~= ents@.push(pairs@[i as int].1));
            }
            ents.push(pairs[i].1);
        }
        proof {
            assert(ents@ =~= pairs@.map_values(|p: (u64, Entity)| p.1));
        }
        ents
    }
}

impl Default for EntityMapper {
    fn default() -> (m: EntityMapper)
        ensures
            m@ == Map::<u64, Entity>::empty(),
    {
        EntityMapper::new()
    }
}

/// `pairs` lists the map `m`: every mapped id exactly once, with its entity.
pub open spec fn lists_mapping(pairs: Seq<(u64, Entity)>, m: Map<u64, Entity>) -> bool {
    &&& pairs.len() == m.len()
    &&& pairs.map_values(|p: (u64, Entity)| p.0).to_set() == m.dom()
    &&& pairs.map_values(|p: (u64, Entity)| p.0).no_duplicates()
    &&& forall|j: int| 0 <= j < pairs.len() ==> #[trigger] m[pairs[j].0] == pairs[j].1
}

impl ParentData {
    /// The serialisable form of a parent whose scene id is `entity_id`.
    pub fn from_parent_with_id(parent: Parent, entity_id: u64) -> (d: ParentData)
        ensures
            d.entity_id == entity_id,
    {
        ParentData { entity_id }
    }

    /// The parent component, if the mapper knows the parent's scene id.
    pub fn try_to_parent(&self, mapper: &EntityMapper) -> (r: Option<Parent>)
        ensures
            match r {
                Some(p) => mapper@.contains_key(self.entity_id) && p.0 == mapper@[self.entity_id],
                None => !mapper@.contains_key(self.entity_id),
            },
    {
        match mapper.remap(self.entity_id) {
            Some(e) => Some(Parent(e)),
            None => None,
        }
    }
}

/// Read after write: after `register(id, e)` the mapper remaps `id` to `e`,
/// and every other id to what it was mapped to before.
pub proof fn lemma_register_then_remap(before: Map<u64, Entity>, after: Map<u64, Entity>, id: u64, e: Entity, other: u64)
    requires
        after == before.insert(id, e),
        other != id,
    ensures
        after.contains_key(id),
        after[id] == e,
        after.contains_key(other) == before.contains_key(other),
        before.contains_key(other) ==> after[other] == before[other],
{
}

} // verus!
