//! Stable XRDS ids, engine entities, typed handles, the id index and the id allocator.
use std::collections::HashMap;
use vstd::prelude::*;
use vstd::std_specs::iter::IteratorSpec;

verus! {

broadcast use vstd::std_specs::hash::group_hash_axioms;

/// A stable, authored XRDS node id.
#[derive(Clone, Copy, Debug, PartialEq, Eq, Structural)]
pub struct XrdsId(pub u64);

/// An engine entity, carried as the bits that identify it.
#[derive(Clone, Copy, Debug, PartialEq, Eq, Structural)]
pub struct Entity(pub u64);

/// A typed handle to a spawned entity. `C` names the descriptor type it was spawned from.
pub struct Handle<C> {
    entity: Entity,
    marker: core::marker::PhantomData<C>,
}

impl<C> Handle<C> {
    pub closed spec fn spec_entity(&self) -> Entity {
        self.entity
    }

    /// Wrap an entity into a typed handle.
    pub fn from(entity: Entity) -> (h: Handle<C>)
        ensures
            h.spec_entity() == entity,
    {
        Handle { entity, marker: core::marker::PhantomData }
    }

    /// The entity behind this handle.
    pub fn entity(&self) -> (e: Entity)
        ensures
            e == self.spec_entity(),
    {
        self.entity
    }
}

/// Two-way index between XRDS ids and the entities realizing them.
pub struct XrdsIdIndex {
    id_to_entity: HashMap<u64, u64>,
    entity_to_id: HashMap<u64, u64>,
}

impl XrdsIdIndex {
    /// id -> entity direction, by raw values.
    pub closed spec fn ids(&self) -> Map<u64, u64> {
        self.id_to_entity@
    }

    /// entity -> id direction, by raw values.
    pub closed spec fn entities(&self) -> Map<u64, u64> {
        self.entity_to_id@
    }

    pub proof fn lemma_finite(&self)
        ensures
            self.ids().dom().finite(),
            self.entities().dom().finite(),
    {
        broadcast use vstd::std_specs::hash::axiom_hashmap_view_finite_dom;
        assert(self.id_to_entity@.dom().finite());
        assert(self.entity_to_id@.dom().finite());
    }

    /// An empty index.
    pub fn new() -> (index: XrdsIdIndex)
        ensures
            index.ids() == Map::<u64, u64>::empty(),
            index.entities() == Map::<u64, u64>::empty(),
    {
        XrdsIdIndex { id_to_entity: HashMap::new(), entity_to_id: HashMap::new() }
    }

    /// Record that `id` is realized by `entity`, in both directions.
    pub fn register(&mut self, id: XrdsId, entity: Entity)
        ensures
            final(self).ids() == old(self).ids().insert(id.0, entity.0),
            final(self).entities() == old(self).entities().insert(entity.0, id.0),
    {
        self.id_to_entity.insert(id.0, entity.0);
        self.entity_to_id.insert(entity.0, id.0);
    }

    /// Look up the XRDS id registered for an entity.
    pub fn id_of(&self, entity: Entity) -> (r: Option<XrdsId>)
        ensures
            r == (if self.entities().contains_key(entity.0) {
                Some(XrdsId(self.entities()[entity.0]))
            } else {
                None
            }),
    {
        match self.entity_to_id.get(&entity.0) {
            Some(id) => Some(XrdsId(*id)),
            None => None,
        }
    }

    /// Look up the entity registered for an XRDS id.
    pub fn entity_of(&self, id: XrdsId) -> (r: Option<Entity>)
        ensures
            r == (if self.ids().contains_key(id.0) {
                Some(Entity(self.ids()[id.0]))
            } else {
                None
            }),
    {
        match self.id_to_entity.get(&id.0) {
            Some(e) => Some(Entity(*e)),
            None => None,
        }
    }

    /// Whether an XRDS id is registered.
    pub fn contains_id(&self, id: XrdsId) -> (r: bool)
        ensures
            r == self.ids().contains_key(id.0),
    {
        self.id_to_entity.contains_key(&id.0)
    }

    /// Every registered id, each once, in no particular order.
    pub fn all_ids(&self) -> (r: Vec<XrdsId>)
        ensures
            r@.len() == self.ids().dom().len(),
            forall|x: u64| #[trigger] self.ids().contains_key(x) <==> r@.contains(XrdsId(x)),
            r@.no_duplicates(),
    {
        let mut r: Vec<XrdsId> = Vec::new();
        let ghost ks = vstd::std_specs::hash::spec_keys_iter(&self.id_to_entity).remaining();
        for k in it: self.id_to_entity.keys()
            invariant
                it.seq() == ks,
                r@.len() == it.index(),
                forall|j: int| 0 <= j < it.index() ==> r@[j] == XrdsId(*ks[j]),
        {
            r.push(XrdsId(*k));
        }
        proof {
            broadcast use vstd::std_specs::hash::axiom_spec_keys_iter;
            assert(ks.unref().to_set() == self.id_to_entity@.dom());
            assert forall|x: u64| #[trigger] self.ids().contains_key(x) <==> r@.contains(XrdsId(x)) by {
                if self.ids().contains_key(x) {
                    assert(ks.unref().to_set().contains(x));
                    let j = choose|j: int| 0 <= j < ks.unref().len() && ks.unref()[j] == x;
                    assert(r@[j] == XrdsId(x));
                }
                if r@.contains(XrdsId(x)) {
                    let j = choose|j: int| 0 <= j < r@.len() && r@[j] == XrdsId(x);
                    assert(ks.unref()[j] == x);
                    assert(ks.unref().to_set().contains(x));
                }
            }
        }
        r
    }

    /// Number of registered ids.
    pub fn len(&self) -> (n: usize)
        ensures
            n == self.ids().len(),
    {
        self.id_to_entity.len()
    }

    /// Drop an entity's registration in both directions.
    pub fn unregister(&mut self, entity: Entity)
        ensures
            final(self).entities() == old(self).entities().remove(entity.0),
            final(self).ids() == (if old(self).entities().contains_key(entity.0) {
                old(self).ids().remove(old(self).entities()[entity.0])
            } else {
                old(self).ids()
            }),
    {
        if let Some(id) = self.entity_to_id.remove(&entity.0) {
            self.id_to_entity.remove(&id);
        }
    }
}

/// Hands out XRDS ids in increasing order.
pub struct XrdsIdAllocator {
    pub next: u64,
}

impl XrdsIdAllocator {
    /// An allocator whose first candidate id is 1.
    pub fn default() -> (a: XrdsIdAllocator)
        ensures
            a.next == 1,
    {
        XrdsIdAllocator { next: 1 }
    }
}

} // verus!
