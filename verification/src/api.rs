//! The setup-side XRDS API: spawning, ids and hierarchy queries, queued commits, structural
//! edits and registration, over one runtime world.
//!
//! The engine realizes descriptors and carries out despawns and parent links; the API takes
//! the entity the engine realized as an argument and leaves the engine work it decides in the
//! world's pending lists.
use vstd::prelude::*;
use crate::catalog::{
    assets_view, merged_catalog, name_of, rebuilt_catalog, resolved_uri, XrdsGltfAssetRef, XrdsSceneAsset,
    XrdsSceneAssetKind,
};
use crate::gltf_source::{source_verdict, XrdsGltfFile, XrdsGltfSourceError};
use crate::hierarchy::parent_step;
use crate::locks::{increasing, XrdsTrackConflict};
use crate::ids::{Entity, Handle, XrdsId};
use crate::registry::common_updater_pairs;
use crate::structure::{parents_after_changes, XrdsParentLink, raw_id, raw_ids, QueuedParentChange};
use crate::types::{
    XrdsDescriptorKind, DescriptorView,
    descriptor_view,
    source_view, GltfAssetSourcePatch, NamePatch, ParentPatch, QueuedSurfaceComponent,
    QueuedSurfaceUpdate, VisibilityPatch, XrdsAmbientLight, XrdsCamera, XrdsCameraProjection,
    XrdsCapsule, XrdsComponentType, XrdsCube, XrdsCylinder, XrdsDescriptor, XrdsDirectionalLight,
    XrdsEffect, XrdsGltfAsset, XrdsPatch, XrdsPatchKind, XrdsPlane3D, XrdsPointLight,
    XrdsSceneImportError, XrdsSphere, XrdsSpotLight, XrdsTetrahedron, XrdsText, XrdsWorldPanel,
};
use crate::world::{
    agent_entities, asset_path_of, asset_scene_of, verdict_of, is_preview_agent, preview_index, dispatchable, parent_requests, stored_after_updates, XrdsAgent,
    fresh_realized, XrdsImportNode,
    step_ids, with_node, XrdsDuplicateStep, XrdsExportEntry, realized_spawns, spawns_fresh,
    allocated_in_turn, allocation_covers, lemma_allocation_bound, lemma_allocation_step, after_id, children_of, preferred_anchor, fresh_id, renamed, reserved_next, stored_gltf_source,
    stored_payload_of, XrdsWorld,
};

verus! {

/// The XRDS API over one runtime world.
pub struct XrdsAPI<D, P> {
    world: XrdsWorld<D, P>,
}

impl<D, P> XrdsAPI<D, P> {
    /// The world behind this API.
    pub closed spec fn world(&self) -> XrdsWorld<D, P> {
        self.world
    }

    /// An API over a fresh world with the built-in interpreters, cloners and updaters.
    pub fn attach() -> (api: XrdsAPI<D, P>)
        ensures
            api.world().is_fresh(),
    {
        XrdsAPI { world: XrdsWorld::new() }
    }

    /// Spawn `descriptor`, which the engine realized as `entity`, under a fresh id.
    pub fn spawn<C: XrdsComponentType>(&mut self, descriptor: XrdsDescriptor<D>, entity: Entity) -> (h: Handle<C>)
        requires
            old(self).world().inv(),
            old(self).world().next_id() + old(self).world().ids().len() <= u64::MAX,
            descriptor.kind == C::spec_kind(),
            old(self).world().interpreter_kinds().contains(C::spec_kind()),
            !old(self).world().entities().contains_key(entity.0),
        ensures
            final(self).world().inv(),
            h.spec_entity() == entity,
            fresh_id(old(self).world().ids(), old(self).world().next_id(), final(self).world().entities()[entity.0]),
            final(self).world().next_id() == after_id(final(self).world().entities()[entity.0]),
            old(self).world().registers(final(self).world(), final(self).world().entities()[entity.0], descriptor, entity),
    {
        self.world.spawn(descriptor, entity)
    }

    /// Spawn an asset descriptor, as an interpreter registered with `register_asset_interpreter`
    /// realizes one: its glTF source (an empty path without one) is judged first, given the
    /// file found for it. A refused source registers no id and no entity, and the entity the
    /// engine set aside is left for despawning; an accepted one is spawned under a fresh id.
    pub fn spawn_asset<C: XrdsComponentType>(&mut self, descriptor: XrdsDescriptor<D>, file: Option<XrdsGltfFile>, entity: Entity) -> (r: Result<Handle<C>, XrdsGltfSourceError>)
        requires
            old(self).world().inv(),
            old(self).world().next_id() + old(self).world().ids().len() <= u64::MAX,
            descriptor.kind == C::spec_kind(),
            old(self).world().interpreter_kinds().contains(C::spec_kind()),
            !old(self).world().entities().contains_key(entity.0),
        ensures
            final(self).world().inv(),
            source_verdict(asset_path_of(descriptor.gltf_source), asset_scene_of(descriptor.gltf_source), file, verdict_of(r)),
            r is Err ==> old(self).world().discards(final(self).world(), seq![entity]),
            r matches Ok(h) ==> {
                &&& h.spec_entity() == entity
                &&& fresh_id(old(self).world().ids(), old(self).world().next_id(), final(self).world().entities()[entity.0])
                &&& final(self).world().next_id() == after_id(final(self).world().entities()[entity.0])
                &&& old(self).world().registers(final(self).world(), final(self).world().entities()[entity.0], descriptor, entity)
            },
    {
        self.world.spawn_asset(descriptor, file, entity)
    }

    /// Spawn `descriptor`, which the engine realized as `entity`, under the authored id `id`.
    /// A live id is refused, and `entity` is then left for despawning.
    pub fn spawn_with_id<C: XrdsComponentType>(
        &mut self,
        id: XrdsId,
        descriptor: XrdsDescriptor<D>,
        entity: Entity,
    ) -> (r: Result<Handle<C>, XrdsSceneImportError>)
        requires
            old(self).world().inv(),
            descriptor.kind == C::spec_kind(),
            old(self).world().interpreter_kinds().contains(C::spec_kind()),
            !old(self).world().entities().contains_key(entity.0),
        ensures
            final(self).world().inv(),
            (r is Err) == old(self).world().ids().contains_key(id.0),
            r is Err ==> r == Err::<Handle<C>, XrdsSceneImportError>(XrdsSceneImportError::DuplicateRuntimeId(id))
                && old(self).world().discards(final(self).world(), seq![entity]),
            r is Ok ==> r->Ok_0.spec_entity() == entity
                && final(self).world().next_id() == reserved_next(old(self).world().next_id(), id.0)
                && old(self).world().registers(final(self).world(), id.0, descriptor, entity),
    {
        self.world.spawn_with_id(id, descriptor, entity)
    }

    /// Allocate the least id at or after the allocator's next candidate that is not live.
    pub fn new_id(&mut self) -> (id: XrdsId)
        requires
            old(self).world().inv(),
            old(self).world().next_id() + old(self).world().ids().len() <= u64::MAX,
        ensures
            final(self).world().inv(),
            fresh_id(old(self).world().ids(), old(self).world().next_id(), id.0),
            final(self).world().next_id() == after_id(id.0),
            old(self).world().same_but_allocator(final(self).world()),
    {
        self.world.new_id()
    }

    /// The XRDS id of the entity behind `handle`.
    pub fn id_of<C>(&self, handle: &Handle<C>) -> (r: Option<XrdsId>)
        ensures
            r == (if self.world().entities().contains_key(handle.spec_entity().0) {
                Some(XrdsId(self.world().entities()[handle.spec_entity().0]))
            } else {
                None
            }),
    {
        self.world.id_of(handle.entity())
    }

    /// The entity realizing `id`.
    pub fn entity_of_id(&self, id: XrdsId) -> (r: Option<Entity>)
        ensures
            r == (if self.world().ids().contains_key(id.0) {
                Some(Entity(self.world().ids()[id.0]))
            } else {
                None
            }),
    {
        self.world.entity_of_id(id)
    }

    /// A typed handle to the entity realizing `id`.
    pub fn handle_of<C>(&self, id: XrdsId) -> (r: Option<Handle<C>>)
        ensures
            r is Some == self.world().ids().contains_key(id.0),
            r matches Some(h) ==> h.spec_entity() == Entity(self.world().ids()[id.0]),
    {
        match self.world.entity_of_id(id) {
            Some(e) => Some(Handle::from(e)),
            None => None,
        }
    }

    /// Every live XRDS id, each once, in no particular order.
    pub fn all_runtime_ids(&self) -> (r: Vec<XrdsId>)
        ensures
            r@.no_duplicates(),
            forall|x: u64| #[trigger] self.world().ids().contains_key(x) <==> r@.contains(XrdsId(x)),
    {
        self.world.all_runtime_ids()
    }

    /// The recorded parent of the node `id`.
    pub fn parent_id_of_node(&self, id: XrdsId) -> (r: Option<XrdsId>)
        ensures
            raw_id(r) == parent_step(self.world().parents(), id.0),
    {
        self.world.parent_id_of(id)
    }

    /// The recorded children of the node `id`, in the order they were attached.
    pub fn children_ids_of_node(&self, id: XrdsId) -> (r: Vec<XrdsId>)
        ensures
            raw_ids(r@) == children_of(self.world().children(), id.0),
    {
        self.world.child_ids_of(id)
    }

    /// The id of the anchor a player starts at: the first live anchor marked initial, or
    /// failing that the first live anchor, in marking order.
    pub fn initial_player_anchor_id(&self) -> (r: Option<XrdsId>)
        ensures
            raw_id(r) == preferred_anchor(self.world().anchor_roots(), self.world().entities()),
    {
        self.world.initial_player_anchor_id()
    }

    /// The recorded parent of the entity behind `handle` (none when it is not registered).
    pub fn parent_id_of<C>(&self, handle: &Handle<C>) -> (r: Option<XrdsId>)
        ensures
            raw_id(r) == (if self.world().entities().contains_key(handle.spec_entity().0) {
                parent_step(self.world().parents(), self.world().entities()[handle.spec_entity().0])
            } else {
                None
            }),
    {
        match self.world.id_of(handle.entity()) {
            Some(id) => self.world.parent_id_of(id),
            None => None,
        }
    }

    /// The recorded children of the entity behind `handle` (none when it is not registered).
    pub fn child_ids_of<C>(&self, handle: &Handle<C>) -> (r: Vec<XrdsId>)
        ensures
            raw_ids(r@) == (if self.world().entities().contains_key(handle.spec_entity().0) {
                children_of(self.world().children(), self.world().entities()[handle.spec_entity().0])
            } else {
                Seq::empty()
            }),
    {
        match self.world.id_of(handle.entity()) {
            Some(id) => self.world.child_ids_of(id),
            None => {
                let r: Vec<XrdsId> = Vec::new();
                assert(raw_ids(r@) =~= Seq::<u64>::empty());
                r
            },
        }
    }

    /// Queue a patch for the entity behind `handle`, addressed to descriptor type `C`.
    pub fn queue_update<C: XrdsComponentType>(&mut self, handle: &Handle<C>, patch: XrdsPatch<P>)
        requires
            old(self).world().inv(),
        ensures
            final(self).world().inv(),
            old(self).world().queues_update(final(self).world(), QueuedSurfaceUpdate { entity: handle.spec_entity(), component_type: C::spec_kind(), patch }),
    {
        self.world.queue_update(handle, patch)
    }

    /// Queue a rename.
    pub fn rename<C: XrdsComponentType>(&mut self, handle: &Handle<C>, name: String)
        requires
            old(self).world().inv(),
        ensures
            final(self).world().inv(),
            old(self).world().queues_update(final(self).world(), QueuedSurfaceUpdate {
                entity: handle.spec_entity(),
                component_type: C::spec_kind(),
                patch: XrdsPatch::Name(NamePatch { name }),
            }),
    {
        self.world.queue_update(handle, XrdsPatch::Name(NamePatch { name }))
    }

    /// Queue a visibility change.
    pub fn set_visible<C: XrdsComponentType>(&mut self, handle: &Handle<C>, visible: bool)
        requires
            old(self).world().inv(),
        ensures
            final(self).world().inv(),
            old(self).world().queues_update(final(self).world(), QueuedSurfaceUpdate {
                entity: handle.spec_entity(),
                component_type: C::spec_kind(),
                patch: XrdsPatch::Visibility(VisibilityPatch { visible }),
            }),
    {
        self.world.queue_update(handle, XrdsPatch::Visibility(VisibilityPatch { visible }))
    }

    /// Queue a re-parenting of the entity behind `handle` (`None`: detach to the root).
    pub fn set_parent<C: XrdsComponentType>(&mut self, handle: &Handle<C>, parent_id: Option<XrdsId>)
        requires
            old(self).world().inv(),
        ensures
            final(self).world().inv(),
            old(self).world().queues_update(final(self).world(), QueuedSurfaceUpdate {
                entity: handle.spec_entity(),
                component_type: C::spec_kind(),
                patch: XrdsPatch::Parent(ParentPatch { parent_id }),
            }),
    {
        self.world.queue_update(handle, XrdsPatch::Parent(ParentPatch { parent_id }))
    }

    /// Queue `descriptor` for spawning at the root under a fresh id.
    pub fn queue_spawn(&mut self, descriptor: XrdsDescriptor<D>) -> (id: XrdsId)
        requires
            old(self).world().inv(),
            old(self).world().next_id() + old(self).world().ids().len() <= u64::MAX,
        ensures
            final(self).world().inv(),
            fresh_id(old(self).world().ids(), old(self).world().next_id(), id.0),
            final(self).world().next_id() == after_id(id.0),
            final(self).world().queued_components() == old(self).world().queued_components().push(
                QueuedSurfaceComponent { id, component: descriptor, parent_id: None },
            ),
            old(self).world().same_but_spawn_queue(final(self).world()),
    {
        self.world.queue_spawn(descriptor)
    }

    /// Queue `descriptor` for spawning under the authored id `id`; a live id is refused.
    pub fn queue_spawn_with_id(&mut self, id: XrdsId, descriptor: XrdsDescriptor<D>) -> (r: Result<XrdsId, XrdsSceneImportError>)
        requires
            old(self).world().inv(),
        ensures
            final(self).world().inv(),
            r == (if old(self).world().ids().contains_key(id.0) {
                Err::<XrdsId, XrdsSceneImportError>(XrdsSceneImportError::DuplicateRuntimeId(id))
            } else {
                Ok(id)
            }),
            r is Err ==> old(self).world().unchanged(final(self).world()),
            r is Ok ==> final(self).world().next_id() == reserved_next(old(self).world().next_id(), id.0)
                && final(self).world().queued_components() == old(self).world().queued_components().push(
                    QueuedSurfaceComponent { id, component: descriptor, parent_id: None },
                )
                && old(self).world().same_but_spawn_queue(final(self).world()),
    {
        self.world.queue_spawn_with_id(id, descriptor)
    }

    /// Queue several descriptors for spawning, each at the root under a fresh id, in order.
    pub fn queue_spawn_many(&mut self, descriptors: Vec<XrdsDescriptor<D>>) -> (ids: Vec<XrdsId>)
        requires
            old(self).world().inv(),
            old(self).world().next_id() + 2 * old(self).world().ids().len() + descriptors@.len() <= u64::MAX,
        ensures
            final(self).world().inv(),
            ids@.len() == descriptors@.len(),
            allocated_in_turn(old(self).world().ids(), old(self).world().next_id(), raw_ids(ids@)),
            final(self).world().next_id() == (if ids@.len() == 0 { old(self).world().next_id() } else { after_id(ids@.last().0) }),
            final(self).world().queued_components() == old(self).world().queued_components() + queued_roots(ids@, descriptors@),
            old(self).world().same_but_spawn_queue(final(self).world()),
    {
        let ghost w0 = self.world;
        let ghost im = w0.ids();
        let ghost lo = w0.next_id();
        let ghost all = descriptors@;
        let ghost n = descriptors@.len();
        let mut rest = descriptors;
        let mut ids: Vec<XrdsId> = Vec::new();
        proof {
            self.world.lemma_ids_finite();
        }
        while rest.len() > 0
            invariant
                self.world.inv(),
                im == self.world.ids(),
                im.dom().finite(),
                lo == w0.next_id(),
                lo + 2 * im.len() + n <= u64::MAX,
                ids@.len() + rest@.len() == n,
                all.len() == n,
                rest@ == all.skip(ids@.len() as int),
                allocated_in_turn(im, lo, raw_ids(ids@)),
                self.world.next_id() == (if ids@.len() == 0 { lo } else { after_id(ids@.last().0) }),
                allocation_covers(im, lo, self.world.next_id(), raw_ids(ids@)),
                self.world.queued_components() == w0.queued_components() + queued_roots(ids@, all),
                w0.same_but_spawn_queue(self.world),
            decreases rest@.len(),
        {
            let ghost k = ids@.len();
            let ghost next_k = self.world.next_id();
            proof {
                lemma_allocation_bound(im, lo, next_k, raw_ids(ids@));
            }
            assert(k < n && all.len() == n);
            assert(rest@[0] == all.skip(k as int)[0]);
            let ghost rest0 = rest@;
            let d = rest.remove(0);
            assert(d == all[k as int]);
            assert(rest@ =~= rest0.subrange(1, rest0.len() as int));
            let id = self.world.queue_spawn(d);
            let ghost before = ids@;
            ids.push(id);
            proof {
                assert(rest@ =~= all.skip(ids@.len() as int));
                assert(raw_ids(ids@) =~= raw_ids(before).push(id.0));
                lemma_allocation_step(im, lo, next_k, raw_ids(before), id.0, (n - k) as nat);
                assert(ids@.drop_last() =~= before);
                assert(raw_ids(ids@).drop_last() =~= raw_ids(before));
            }
        }
        ids
    }

    /// The stored camera parameters, projection included.
    pub fn camera_projection(&self, handle: &Handle<XrdsCamera>) -> (r: Option<&D>)
        ensures
            r is None <==> stored_payload_of(self.world().stored(), handle.spec_entity(), XrdsCamera::spec_kind()) is None,
            r matches Some(x) ==> stored_payload_of(self.world().stored(), handle.spec_entity(), XrdsCamera::spec_kind()) == Some(*x),
    {
        self.world.stored_payload(handle)
    }

    /// Record the payload that the engine-side updater computed for a dispatched parameter
    /// update (a camera projection, light or text parameters, ...) on the `C` descriptor
    /// stored behind `handle`; the getters read it back from then on. Returns whether such a
    /// descriptor is stored there (nothing changes otherwise).
    pub fn record_updated_payload<C: XrdsComponentType>(&mut self, handle: &Handle<C>, payload: D) -> (found: bool)
        requires
            old(self).world().inv(),
        ensures
            final(self).world().inv(),
            found == (stored_payload_of(old(self).world().stored(), handle.spec_entity(), C::spec_kind()) is Some),
            found ==> stored_payload_of(final(self).world().stored(), handle.spec_entity(), C::spec_kind()) == Some(payload),
            final(self).world().stored() == (if found {
                old(self).world().stored().insert(handle.spec_entity().0, DescriptorView { payload, ..old(self).world().stored()[handle.spec_entity().0] })
            } else {
                old(self).world().stored()
            }),
            final(self).world().ids() == old(self).world().ids(),
            final(self).world().entities() == old(self).world().entities(),
            final(self).world().parents() == old(self).world().parents(),
            final(self).world().children() == old(self).world().children(),
            final(self).world().next_id() == old(self).world().next_id(),
            final(self).world().queue_view() == old(self).world().queue_view(),
            final(self).world().registry_view() == old(self).world().registry_view(),
            final(self).world().scene_view() == old(self).world().scene_view(),
    {
        if self.world.stored_payload(handle).is_some() {
            self.world.set_stored_payload(handle.entity(), payload)
        } else {
            false
        }
    }

    /// The stored point light parameters.
    pub fn point_light_params(&self, handle: &Handle<XrdsPointLight>) -> (r: Option<&D>)
        ensures
            r is None <==> stored_payload_of(self.world().stored(), handle.spec_entity(), XrdsPointLight::spec_kind()) is None,
            r matches Some(x) ==> stored_payload_of(self.world().stored(), handle.spec_entity(), XrdsPointLight::spec_kind()) == Some(*x),
    {
        self.world.stored_payload(handle)
    }

    /// The stored directional light parameters.
    pub fn directional_light_params(&self, handle: &Handle<XrdsDirectionalLight>) -> (r: Option<&D>)
        ensures
            r is None <==> stored_payload_of(self.world().stored(), handle.spec_entity(), XrdsDirectionalLight::spec_kind()) is None,
            r matches Some(x) ==> stored_payload_of(self.world().stored(), handle.spec_entity(), XrdsDirectionalLight::spec_kind()) == Some(*x),
    {
        self.world.stored_payload(handle)
    }

    /// The stored spot light parameters.
    pub fn spot_light_params(&self, handle: &Handle<XrdsSpotLight>) -> (r: Option<&D>)
        ensures
            r is None <==> stored_payload_of(self.world().stored(), handle.spec_entity(), XrdsSpotLight::spec_kind()) is None,
            r matches Some(x) ==> stored_payload_of(self.world().stored(), handle.spec_entity(), XrdsSpotLight::spec_kind()) == Some(*x),
    {
        self.world.stored_payload(handle)
    }

    /// The stored ambient light parameters.
    pub fn ambient_light_params(&self, handle: &Handle<XrdsAmbientLight>) -> (r: Option<&D>)
        ensures
            r is None <==> stored_payload_of(self.world().stored(), handle.spec_entity(), XrdsAmbientLight::spec_kind()) is None,
            r matches Some(x) ==> stored_payload_of(self.world().stored(), handle.spec_entity(), XrdsAmbientLight::spec_kind()) == Some(*x),
    {
        self.world.stored_payload(handle)
    }

    /// The stored 3D text content and styling.
    pub fn text_params(&self, handle: &Handle<XrdsText>) -> (r: Option<&D>)
        ensures
            r is None <==> stored_payload_of(self.world().stored(), handle.spec_entity(), XrdsText::spec_kind()) is None,
            r matches Some(x) ==> stored_payload_of(self.world().stored(), handle.spec_entity(), XrdsText::spec_kind()) == Some(*x),
    {
        self.world.stored_payload(handle)
    }

    /// Queue a point light parameter update.
    pub fn set_point_light_params(&mut self, handle: &Handle<XrdsPointLight>, params: P)
        requires
            old(self).world().inv(),
        ensures
            final(self).world().inv(),
            old(self).world().queues_update(final(self).world(), QueuedSurfaceUpdate {
                entity: handle.spec_entity(),
                component_type: XrdsPointLight::spec_kind(),
                patch: XrdsPatch::Other(XrdsPatchKind::PointLightParams, params),
            }),
    {
        self.world.queue_update(handle, XrdsPatch::Other(XrdsPatchKind::PointLightParams, params))
    }

    /// Queue a directional light parameter update.
    pub fn set_directional_light_params(&mut self, handle: &Handle<XrdsDirectionalLight>, params: P)
        requires
            old(self).world().inv(),
        ensures
            final(self).world().inv(),
            old(self).world().queues_update(final(self).world(), QueuedSurfaceUpdate {
                entity: handle.spec_entity(),
                component_type: XrdsDirectionalLight::spec_kind(),
                patch: XrdsPatch::Other(XrdsPatchKind::DirectionalLightParams, params),
            }),
    {
        self.world.queue_update(handle, XrdsPatch::Other(XrdsPatchKind::DirectionalLightParams, params))
    }

    /// Queue a spot light parameter update.
    pub fn set_spot_light_params(&mut self, handle: &Handle<XrdsSpotLight>, params: P)
        requires
            old(self).world().inv(),
        ensures
            final(self).world().inv(),
            old(self).world().queues_update(final(self).world(), QueuedSurfaceUpdate {
                entity: handle.spec_entity(),
                component_type: XrdsSpotLight::spec_kind(),
                patch: XrdsPatch::Other(XrdsPatchKind::SpotLightParams, params),
            }),
    {
        self.world.queue_update(handle, XrdsPatch::Other(XrdsPatchKind::SpotLightParams, params))
    }

    /// Queue an ambient light parameter update.
    pub fn set_ambient_light_params(&mut self, handle: &Handle<XrdsAmbientLight>, params: P)
        requires
            old(self).world().inv(),
        ensures
            final(self).world().inv(),
            old(self).world().queues_update(final(self).world(), QueuedSurfaceUpdate {
                entity: handle.spec_entity(),
                component_type: XrdsAmbientLight::spec_kind(),
                patch: XrdsPatch::Other(XrdsPatchKind::AmbientLightParams, params),
            }),
    {
        self.world.queue_update(handle, XrdsPatch::Other(XrdsPatchKind::AmbientLightParams, params))
    }

    /// Queue a 3D text content and styling update.
    pub fn set_text_params(&mut self, handle: &Handle<XrdsText>, params: P)
        requires
            old(self).world().inv(),
        ensures
            final(self).world().inv(),
            old(self).world().queues_update(final(self).world(), QueuedSurfaceUpdate {
                entity: handle.spec_entity(),
                component_type: XrdsText::spec_kind(),
                patch: XrdsPatch::Other(XrdsPatchKind::TextParams, params),
            }),
    {
        self.world.queue_update(handle, XrdsPatch::Other(XrdsPatchKind::TextParams, params))
    }

    /// Queue a cube geometry update.
    pub fn set_cube_geometry(&mut self, handle: &Handle<XrdsCube>, params: P)
        requires
            old(self).world().inv(),
        ensures
            final(self).world().inv(),
            old(self).world().queues_update(final(self).world(), QueuedSurfaceUpdate {
                entity: handle.spec_entity(),
                component_type: XrdsCube::spec_kind(),
                patch: XrdsPatch::Other(XrdsPatchKind::CubeGeometry, params),
            }),
    {
        self.world.queue_update(handle, XrdsPatch::Other(XrdsPatchKind::CubeGeometry, params))
    }

    /// Queue a cylinder geometry update.
    pub fn set_cylinder_geometry(&mut self, handle: &Handle<XrdsCylinder>, params: P)
        requires
            old(self).world().inv(),
        ensures
            final(self).world().inv(),
            old(self).world().queues_update(final(self).world(), QueuedSurfaceUpdate {
                entity: handle.spec_entity(),
                component_type: XrdsCylinder::spec_kind(),
                patch: XrdsPatch::Other(XrdsPatchKind::CylinderGeometry, params),
            }),
    {
        self.world.queue_update(handle, XrdsPatch::Other(XrdsPatchKind::CylinderGeometry, params))
    }

    /// Queue a capsule geometry update.
    pub fn set_capsule_geometry(&mut self, handle: &Handle<XrdsCapsule>, params: P)
        requires
            old(self).world().inv(),
        ensures
            final(self).world().inv(),
            old(self).world().queues_update(final(self).world(), QueuedSurfaceUpdate {
                entity: handle.spec_entity(),
                component_type: XrdsCapsule::spec_kind(),
                patch: XrdsPatch::Other(XrdsPatchKind::CapsuleGeometry, params),
            }),
    {
        self.world.queue_update(handle, XrdsPatch::Other(XrdsPatchKind::CapsuleGeometry, params))
    }

    /// Queue a sphere geometry update.
    pub fn set_sphere_geometry(&mut self, handle: &Handle<XrdsSphere>, params: P)
        requires
            old(self).world().inv(),
        ensures
            final(self).world().inv(),
            old(self).world().queues_update(final(self).world(), QueuedSurfaceUpdate {
                entity: handle.spec_entity(),
                component_type: XrdsSphere::spec_kind(),
                patch: XrdsPatch::Other(XrdsPatchKind::SphereGeometry, params),
            }),
    {
        self.world.queue_update(handle, XrdsPatch::Other(XrdsPatchKind::SphereGeometry, params))
    }

    /// Queue a particle effect parameter update.
    pub fn set_effect_params(&mut self, handle: &Handle<XrdsEffect>, params: P)
        requires
            old(self).world().inv(),
        ensures
            final(self).world().inv(),
            old(self).world().queues_update(final(self).world(), QueuedSurfaceUpdate {
                entity: handle.spec_entity(),
                component_type: XrdsEffect::spec_kind(),
                patch: XrdsPatch::Other(XrdsPatchKind::EffectParams, params),
            }),
    {
        self.world.queue_update(handle, XrdsPatch::Other(XrdsPatchKind::EffectParams, params))
    }

    /// Queue a plane geometry update.
    pub fn set_plane_geometry(&mut self, handle: &Handle<XrdsPlane3D>, params: P)
        requires
            old(self).world().inv(),
        ensures
            final(self).world().inv(),
            old(self).world().queues_update(final(self).world(), QueuedSurfaceUpdate {
                entity: handle.spec_entity(),
                component_type: XrdsPlane3D::spec_kind(),
                patch: XrdsPatch::Other(XrdsPatchKind::Plane3DGeometry, params),
            }),
    {
        self.world.queue_update(handle, XrdsPatch::Other(XrdsPatchKind::Plane3DGeometry, params))
    }

    /// Queue a tetrahedron geometry update.
    pub fn set_tetrahedron_geometry(&mut self, handle: &Handle<XrdsTetrahedron>, params: P)
        requires
            old(self).world().inv(),
        ensures
            final(self).world().inv(),
            old(self).world().queues_update(final(self).world(), QueuedSurfaceUpdate {
                entity: handle.spec_entity(),
                component_type: XrdsTetrahedron::spec_kind(),
                patch: XrdsPatch::Other(XrdsPatchKind::TetrahedronGeometry, params),
            }),
    {
        self.world.queue_update(handle, XrdsPatch::Other(XrdsPatchKind::TetrahedronGeometry, params))
    }

    /// Queue a camera projection update.
    pub fn set_camera_projection(&mut self, handle: &Handle<XrdsCamera>, projection: XrdsCameraProjection<P>)
        requires
            old(self).world().inv(),
        ensures
            final(self).world().inv(),
            old(self).world().queues_update(final(self).world(), QueuedSurfaceUpdate {
                entity: handle.spec_entity(),
                component_type: XrdsCamera::spec_kind(),
                patch: XrdsPatch::CameraProjection(projection),
            }),
    {
        self.world.queue_update(handle, XrdsPatch::CameraProjection(projection))
    }

    /// Queue a perspective camera projection update.
    pub fn set_camera_perspective(&mut self, handle: &Handle<XrdsCamera>, params: P)
        requires
            old(self).world().inv(),
        ensures
            final(self).world().inv(),
            old(self).world().queues_update(final(self).world(), QueuedSurfaceUpdate {
                entity: handle.spec_entity(),
                component_type: XrdsCamera::spec_kind(),
                patch: XrdsPatch::CameraProjection(XrdsCameraProjection::Perspective(params)),
            }),
    {
        self.set_camera_projection(handle, XrdsCameraProjection::Perspective(params))
    }

    /// Queue an orthographic camera projection update.
    pub fn set_camera_orthographic(&mut self, handle: &Handle<XrdsCamera>, params: P)
        requires
            old(self).world().inv(),
        ensures
            final(self).world().inv(),
            old(self).world().queues_update(final(self).world(), QueuedSurfaceUpdate {
                entity: handle.spec_entity(),
                component_type: XrdsCamera::spec_kind(),
                patch: XrdsPatch::CameraProjection(XrdsCameraProjection::Orthographic(params)),
            }),
    {
        self.set_camera_projection(handle, XrdsCameraProjection::Orthographic(params))
    }

    /// The stored glTF source (document path and scene index).
    pub fn gltf_source(&self, handle: &Handle<XrdsGltfAsset>) -> (r: Option<GltfAssetSourcePatch>)
        ensures
            source_view(r) == stored_gltf_source(self.world().stored(), handle.spec_entity()),
    {
        self.world.gltf_source_of(handle)
    }

    /// Queue a glTF source update.
    pub fn set_gltf_source(&mut self, handle: &Handle<XrdsGltfAsset>, gltf_asset_path: String, scene_index: usize)
        requires
            old(self).world().inv(),
        ensures
            final(self).world().inv(),
            old(self).world().queues_update(final(self).world(), QueuedSurfaceUpdate {
                entity: handle.spec_entity(),
                component_type: XrdsGltfAsset::spec_kind(),
                patch: XrdsPatch::GltfAssetSource(GltfAssetSourcePatch { gltf_asset_path, scene_index }),
            }),
    {
        self.world.queue_update(handle, XrdsPatch::GltfAssetSource(GltfAssetSourcePatch { gltf_asset_path, scene_index }))
    }

    /// Carry out a glTF source update that a flush handed on: judge `source` given the file
    /// found for its path (see `validate_gltf_source`); an accepted source is what
    /// `gltf_source` gives back from then on, and a refused one is ignored.
    pub fn apply_gltf_source(&mut self, handle: &Handle<XrdsGltfAsset>, source: GltfAssetSourcePatch, file: Option<XrdsGltfFile>) -> (r: Result<(), XrdsGltfSourceError>)
        requires
            old(self).world().inv(),
        ensures
            final(self).world().inv(),
            source_verdict(source.gltf_asset_path@, source.scene_index as nat, file, r),
            r is Err ==> old(self).world().unchanged(final(self).world()),
            r is Ok ==> {
                let e = handle.spec_entity();
                let found = stored_payload_of(old(self).world().stored(), e, XrdsDescriptorKind::GltfAsset) is Some;
                &&& found ==> stored_gltf_source(final(self).world().stored(), e) == Some((source.gltf_asset_path@, source.scene_index))
                &&& final(self).world().stored() == (if found {
                    old(self).world().stored().insert(e.0, DescriptorView { gltf_source: source_view(Some(source)), ..old(self).world().stored()[e.0] })
                } else {
                    old(self).world().stored()
                })
                &&& final(self).world().ids() == old(self).world().ids()
                &&& final(self).world().entities() == old(self).world().entities()
                &&& final(self).world().parents() == old(self).world().parents()
                &&& final(self).world().children() == old(self).world().children()
                &&& final(self).world().queue_view() == old(self).world().queue_view()
                &&& final(self).world().registry_view() == old(self).world().registry_view()
                &&& final(self).world().scene_view() == old(self).world().scene_view()
            },
    {
        self.world.apply_gltf_source(handle.entity(), source, file)
    }

    /// Spawn a world-space UI panel realized as `entity`, under a fresh id.
    pub fn spawn_world_panel(&mut self, descriptor: XrdsDescriptor<D>, entity: Entity) -> (h: Handle<XrdsWorldPanel>)
        requires
            old(self).world().inv(),
            old(self).world().next_id() + old(self).world().ids().len() <= u64::MAX,
            descriptor.kind == XrdsWorldPanel::spec_kind(),
            old(self).world().interpreter_kinds().contains(XrdsWorldPanel::spec_kind()),
            !old(self).world().entities().contains_key(entity.0),
        ensures
            final(self).world().inv(),
            h.spec_entity() == entity,
            fresh_id(old(self).world().ids(), old(self).world().next_id(), final(self).world().entities()[entity.0]),
            final(self).world().next_id() == after_id(final(self).world().entities()[entity.0]),
            old(self).world().registers(final(self).world(), final(self).world().entities()[entity.0], descriptor, entity),
    {
        self.spawn(descriptor, entity)
    }

    /// Show or hide the entity behind `handle` now. With a visibility updater for `C` the
    /// stored `C` descriptor follows, and `true` is returned; the engine-side visibility is set
    /// by the caller either way.
    pub fn set_visibility<C: XrdsComponentType>(&mut self, handle: &Handle<C>, visible: bool) -> (through_updater: bool)
        requires
            old(self).world().inv(),
        ensures
            final(self).world().inv(),
            through_updater == old(self).world().updater_pairs().contains((C::spec_kind(), XrdsPatchKind::Visibility)),
            through_updater && old(self).world().stored().contains_key(handle.spec_entity().0)
                && old(self).world().stored()[handle.spec_entity().0].kind == C::spec_kind() ==> {
                &&& final(self).world().stored()[handle.spec_entity().0].visible == visible
                &&& final(self).world().stored()[handle.spec_entity().0].name == old(self).world().stored()[handle.spec_entity().0].name
            },
            final(self).world().stored() == (if through_updater
                && old(self).world().stored().contains_key(handle.spec_entity().0)
                && old(self).world().stored()[handle.spec_entity().0].kind == C::spec_kind() {
                old(self).world().stored().insert(handle.spec_entity().0, renamed(old(self).world().stored()[handle.spec_entity().0], None, Some(visible)))
            } else {
                old(self).world().stored()
            }),
            final(self).world().ids() == old(self).world().ids(),
            final(self).world().entities() == old(self).world().entities(),
            final(self).world().parents() == old(self).world().parents(),
            final(self).world().children() == old(self).world().children(),
            final(self).world().next_id() == old(self).world().next_id(),
            final(self).world().queue_view() == old(self).world().queue_view(),
            final(self).world().registry_view() == old(self).world().registry_view(),
            final(self).world().scene_view() == old(self).world().scene_view(),
    {
        self.world.set_visibility(handle, visible)
    }

    /// Merge authored scene assets into the runtime catalog: present ids keep their entry,
    /// new ids are appended in order.
    pub fn merge_scene_assets(&mut self, assets: &[XrdsSceneAsset])
        requires
            old(self).world().inv(),
        ensures
            final(self).world().inv(),
            final(self).world().catalog() == merged_catalog(assets_view(assets@), old(self).world().catalog()),
            final(self).world().index_view() == old(self).world().index_view(),
            final(self).world().queue_view() == old(self).world().queue_view(),
            final(self).world().registry_view() == old(self).world().registry_view(),
            final(self).world().anchor_roots() == old(self).world().anchor_roots(),
            final(self).world().keyboard() == old(self).world().keyboard(),
            final(self).world().panel_elements() == old(self).world().panel_elements(),
            final(self).world().locks() == old(self).world().locks(),
            final(self).world().agents() == old(self).world().agents(),
    {
        self.world.merge_scene_assets(assets)
    }

    /// Register an updater for `patch` patches on `C` descriptors.
    pub fn register_updater<C: XrdsComponentType>(&mut self, patch: XrdsPatchKind)
        requires
            old(self).world().inv(),
        ensures
            final(self).world().inv(),
            old(self).world().registers_kinds(final(self).world(), (
                old(self).world().interpreter_kinds(),
                old(self).world().recipe_kinds(),
                old(self).world().cloner_kinds(),
                old(self).world().updater_pairs().insert((C::spec_kind(), patch)),
            )),
    {
        let kind = C::kind();
        self.world.register_updater(kind, patch)
    }

    /// Register a descriptor-level updater for `patch` patches on recipe-backed `C`
    /// descriptors (the surface is rebuilt from the recipe after the descriptor changes).
    pub fn register_recipe_updater<C: XrdsComponentType>(&mut self, patch: XrdsPatchKind)
        requires
            old(self).world().inv(),
        ensures
            final(self).world().inv(),
            old(self).world().registers_kinds(final(self).world(), (
                old(self).world().interpreter_kinds(),
                old(self).world().recipe_kinds(),
                old(self).world().cloner_kinds(),
                old(self).world().updater_pairs().insert((C::spec_kind(), patch)),
            )),
    {
        self.register_updater::<C>(patch)
    }

    /// Register an interpreter realizing `C` descriptors from their asset source; such
    /// descriptors are spawned through `spawn_asset`, which judges the source first.
    pub fn register_asset_interpreter<C: XrdsComponentType>(&mut self)
        requires
            old(self).world().inv(),
        ensures
            final(self).world().inv(),
            old(self).world().registers_kinds(final(self).world(), (
                old(self).world().interpreter_kinds().insert(C::spec_kind()),
                old(self).world().recipe_kinds(),
                old(self).world().cloner_kinds(),
                old(self).world().updater_pairs(),
            )),
    {
        let kind = C::kind();
        self.world.register_interpreter(kind)
    }

    /// Register the transform, parent, name and visibility updaters for `C`.
    pub fn register_common_surface_updaters<C: XrdsComponentType>(&mut self)
        requires
            old(self).world().inv(),
        ensures
            final(self).world().inv(),
            old(self).world().registers_kinds(final(self).world(), (
                old(self).world().interpreter_kinds(),
                old(self).world().recipe_kinds(),
                old(self).world().cloner_kinds(),
                old(self).world().updater_pairs().union(common_updater_pairs(C::spec_kind())),
            )),
    {
        let kind = C::kind();
        self.world.register_common_updaters(kind)
    }

    /// Register a custom entity interpreter for `C`, together with its common updaters.
    pub fn register_entity_interpreter<C: XrdsComponentType>(&mut self)
        requires
            old(self).world().inv(),
        ensures
            final(self).world().inv(),
            old(self).world().registers_kinds(final(self).world(), (
                old(self).world().interpreter_kinds().insert(C::spec_kind()),
                old(self).world().recipe_kinds(),
                old(self).world().cloner_kinds(),
                old(self).world().updater_pairs().union(common_updater_pairs(C::spec_kind())),
            )),
    {
        let kind = C::kind();
        self.world.register_interpreter(kind);
        self.world.register_common_updaters(kind)
    }

    /// Register a geometry recipe for `C` with the interpreter that realizes it.
    pub fn register_surface_interpreter<C: XrdsComponentType>(&mut self)
        requires
            old(self).world().inv(),
        ensures
            final(self).world().inv(),
            old(self).world().registers_kinds(final(self).world(), (
                old(self).world().interpreter_kinds().insert(C::spec_kind()),
                old(self).world().recipe_kinds().insert(C::spec_kind()),
                old(self).world().cloner_kinds(),
                old(self).world().updater_pairs(),
            )),
    {
        let kind = C::kind();
        self.world.register_recipe(kind)
    }

    /// Register cloning support for `C` descriptors, for duplication.
    pub fn register_descriptor_clone<C: XrdsComponentType>(&mut self)
        requires
            old(self).world().inv(),
        ensures
            final(self).world().inv(),
            old(self).world().registers_kinds(final(self).world(), (
                old(self).world().interpreter_kinds(),
                old(self).world().recipe_kinds(),
                old(self).world().cloner_kinds().insert(C::spec_kind()),
                old(self).world().updater_pairs(),
            )),
    {
        let kind = C::kind();
        self.world.register_clone(kind)
    }

    /// Delete the entity behind `handle` with its XRDS subtree. Returns whether it was
    /// registered (nothing happens otherwise).
    pub fn delete<C>(&mut self, handle: &Handle<C>) -> (deleted: bool)
        requires
            old(self).world().inv(),
        ensures
            final(self).world().inv(),
            deleted == old(self).world().entities().contains_key(handle.spec_entity().0),
            !deleted ==> old(self).world().unchanged(final(self).world()),
            deleted ==> old(self).world().deletes_subtree(final(self).world(), old(self).world().entities()[handle.spec_entity().0]),
    {
        self.world.delete(handle)
    }

    /// Cancel every sequence on the node `id` (see `XrdsWorld::stop_sequences_on`).
    pub fn stop_sequences_on(&mut self, node: XrdsId) -> (n: usize)
        requires
            old(self).world().inv(),
        ensures
            final(self).world().inv(),
            old(self).world().stops_sequences_on(final(self).world(), node, n),
    {
        self.world.stop_sequences_on(node)
    }

    /// Cancel every sequence in the world. Returns how many were stopped.
    pub fn stop_all_sequences(&mut self) -> (n: usize)
        requires
            old(self).world().inv(),
        ensures
            final(self).world().inv(),
            old(self).world().stops_all(final(self).world(), n),
    {
        self.world.stop_all_sequences()
    }

    /// Import scene nodes realized by the engine, preserving their ids and authored parents
    /// (see `XrdsWorld::import_runtime_nodes`).
    pub fn import_runtime_nodes(&mut self, nodes: Vec<XrdsImportNode<D>>) -> (r: Result<Vec<XrdsId>, XrdsSceneImportError>)
        requires
            old(self).world().inv(),
            fresh_realized(old(self).world().entities(), nodes@),
            forall|i: int| 0 <= i < nodes@.len() && (#[trigger] nodes@[i]).entity is None ==> nodes@[i].descriptor.kind == XrdsDescriptorKind::GltfAsset,
        ensures
            final(self).world().inv(),
            old(self).world().imports_runtime_nodes(final(self).world(), nodes@, r),
    {
        self.world.import_runtime_nodes(nodes)
    }

    /// Apply the queued parent changes as one batch (the engine then mirrors the links).
    pub fn apply_queued_parent_changes(&mut self)
        requires
            old(self).world().inv(),
        ensures
            final(self).world().inv(),
            old(self).world().relinks(final(self).world(), old(self).world().queued_parent_changes()),
            final(self).world().queued_parent_changes().len() == 0,
    {
        self.world.apply_queued_parent_changes()
    }

    /// Dispatch the queued patches (see `XrdsWorld::apply_surface_updates`); the dispatched
    /// ones come back, in order, for the engine side.
    pub fn apply_surface_updates(&mut self) -> (dispatched: Vec<QueuedSurfaceUpdate<P>>)
        requires
            old(self).world().inv(),
        ensures
            final(self).world().inv(),
            dispatched@ == dispatchable(old(self).world().queued_updates(), old(self).world().updater_pairs()),
            final(self).world().queued_updates().len() == 0,
            final(self).world().queued_parent_changes() == old(self).world().queued_parent_changes() + parent_requests(dispatched@, old(self).world().entities()),
            final(self).world().stored() == stored_after_updates(old(self).world().stored(), dispatched@),
            final(self).world().ids() == old(self).world().ids(),
            final(self).world().entities() == old(self).world().entities(),
            final(self).world().parents() == old(self).world().parents(),
            final(self).world().children() == old(self).world().children(),
            final(self).world().next_id() == old(self).world().next_id(),
            final(self).world().queued_components() == old(self).world().queued_components(),
            final(self).world().pending_links() == old(self).world().pending_links(),
            final(self).world().pending_despawns() == old(self).world().pending_despawns(),
            final(self).world().registry_view() == old(self).world().registry_view(),
            final(self).world().scene_view() == old(self).world().scene_view(),
    {
        self.world.apply_surface_updates()
    }

    /// Hand the engine links decided so far to the engine, oldest first.
    pub fn take_pending_links(&mut self) -> (links: Vec<XrdsParentLink>)
        requires
            old(self).world().inv(),
        ensures
            final(self).world().inv(),
            links@ == old(self).world().pending_links(),
            final(self).world().pending_links().len() == 0,
            final(self).world().index_view() == old(self).world().index_view(),
            final(self).world().queued_components() == old(self).world().queued_components(),
            final(self).world().queued_parent_changes() == old(self).world().queued_parent_changes(),
            final(self).world().queued_updates() == old(self).world().queued_updates(),
            final(self).world().pending_despawns() == old(self).world().pending_despawns(),
            final(self).world().registry_view() == old(self).world().registry_view(),
            final(self).world().scene_view() == old(self).world().scene_view(),
    {
        self.world.take_pending_links()
    }

    /// Hand the entities left for despawning to the engine, in order.
    pub fn take_pending_despawns(&mut self) -> (entities: Vec<Entity>)
        requires
            old(self).world().inv(),
        ensures
            final(self).world().inv(),
            entities@ == old(self).world().pending_despawns(),
            final(self).world().pending_despawns().len() == 0,
            final(self).world().index_view() == old(self).world().index_view(),
            final(self).world().queued_components() == old(self).world().queued_components(),
            final(self).world().queued_parent_changes() == old(self).world().queued_parent_changes(),
            final(self).world().queued_updates() == old(self).world().queued_updates(),
            final(self).world().pending_links() == old(self).world().pending_links(),
            final(self).world().registry_view() == old(self).world().registry_view(),
            final(self).world().scene_view() == old(self).world().scene_view(),
    {
        self.world.take_pending_despawns()
    }

    /// Record that `entity` carries the player anchor marker, and whether the document marks
    /// it as the initial anchor.
    pub fn mark_player_anchor(&mut self, entity: Entity, is_initial: bool)
        requires
            old(self).world().inv(),
        ensures
            final(self).world().inv(),
            final(self).world().anchor_roots() == old(self).world().anchor_roots().push((entity, is_initial)),
            final(self).world().index_view() == old(self).world().index_view(),
            final(self).world().queue_view() == old(self).world().queue_view(),
            final(self).world().registry_view() == old(self).world().registry_view(),
    {
        self.world.mark_player_anchor(entity, is_initial)
    }

    /// Record a running sequence or track agent (an entity already listed is not added, nor a
    /// preview agent while a preview runs).
    pub fn register_agent(&mut self, agent: XrdsAgent) -> (added: bool)
        requires
            old(self).world().inv(),
        ensures
            final(self).world().inv(),
            added == (!agent_entities(old(self).world().agents()).contains(agent.entity)
                && !(is_preview_agent(agent) && preview_index(old(self).world().agents()) is Some)),
            final(self).world().agents() == (if added { old(self).world().agents().push(agent) } else { old(self).world().agents() }),
            final(self).world().index_view() == old(self).world().index_view(),
            final(self).world().queue_view() == old(self).world().queue_view(),
            final(self).world().locks() == old(self).world().locks(),
    {
        self.world.register_agent(agent)
    }

    /// Acquire asset locks for a track agent.
    pub fn acquire_locks(&mut self, wanted: &[Entity], agent: Entity)
        requires
            old(self).world().inv(),
        ensures
            final(self).world().inv(),
            forall|e: u64| #[trigger] final(self).world().locks().contains_key(e) <==> (old(self).world().locks().contains_key(e) || wanted@.contains(Entity(e))),
            forall|e: u64| #[trigger] final(self).world().locks().contains_key(e) ==> final(self).world().locks()[e] == (if wanted@.contains(Entity(e)) { agent.0 } else { old(self).world().locks()[e] }),
            final(self).world().index_view() == old(self).world().index_view(),
            final(self).world().queue_view() == old(self).world().queue_view(),
            final(self).world().agents() == old(self).world().agents(),
    {
        self.world.acquire_locks(wanted, agent)
    }

    /// Claim the assets `wanted` for the newly spawned agent `agent` of the track `track`:
    /// all of them, or, when another agent holds any, none (the refusal is recorded and the
    /// agent left for despawning). A running track is never preempted.
    pub fn claim_track_assets(&mut self, track: &str, wanted: &[Entity], agent: Entity) -> (claimed: bool)
        requires
            old(self).world().inv(),
        ensures
            final(self).world().inv(),
            claimed == forall|e: Entity| #[trigger] wanted@.contains(e) ==>
                !old(self).world().locks().contains_key(e.0) || old(self).world().locks()[e.0] == agent.0,
            forall|e: u64| #[trigger] old(self).world().locks().contains_key(e) && old(self).world().locks()[e] != agent.0 ==>
                final(self).world().locks().contains_key(e) && final(self).world().locks()[e] == old(self).world().locks()[e],
            claimed ==> {
                &&& forall|e: u64| #[trigger] final(self).world().locks().contains_key(e) <==> (old(self).world().locks().contains_key(e) || wanted@.contains(Entity(e)))
                &&& forall|e: u64| #[trigger] final(self).world().locks().contains_key(e) ==> final(self).world().locks()[e] == (if wanted@.contains(Entity(e)) { agent.0 } else { old(self).world().locks()[e] })
                &&& final(self).world().pending_despawns() == old(self).world().pending_despawns()
                &&& final(self).world().track_conflict() == old(self).world().track_conflict()
            },
            !claimed ==> {
                &&& final(self).world().locks() == old(self).world().locks()
                &&& final(self).world().pending_despawns() == old(self).world().pending_despawns().push(agent)
                &&& final(self).world().track_conflict() matches Some(c) && {
                    &&& c.blocked_track@ == track@
                    &&& increasing(c.contended@)
                    &&& forall|e: Entity| #[trigger] c.contended@.contains(e) <==>
                        (wanted@.contains(e) && old(self).world().locks().contains_key(e.0) && old(self).world().locks()[e.0] != agent.0)
                }
            },
            final(self).world().index_view() == old(self).world().index_view(),
            final(self).world().queued_components() == old(self).world().queued_components(),
            final(self).world().queued_parent_changes() == old(self).world().queued_parent_changes(),
            final(self).world().queued_updates() == old(self).world().queued_updates(),
            final(self).world().pending_links() == old(self).world().pending_links(),
            final(self).world().registry_view() == old(self).world().registry_view(),
            final(self).world().agents() == old(self).world().agents(),
    {
        self.world.claim_track_assets(track, wanted, agent)
    }

    /// The most recent refusal of a track to start, for an editor to show.
    pub fn last_track_conflict(&self) -> (r: &Option<XrdsTrackConflict>)
        ensures
            *r == self.world().track_conflict(),
    {
        self.world.last_track_conflict()
    }

    /// The agent holding `entity`, if any.
    pub fn lock_holder_of(&self, entity: Entity) -> (r: Option<Entity>)
        ensures
            r == (if self.world().locks().contains_key(entity.0) { Some(Entity(self.world().locks()[entity.0])) } else { None }),
    {
        self.world.lock_holder_of(entity)
    }

    /// The file the runtime catalog names `asset_id` for an asset of kind `kind`, if any.
    pub fn resolve_asset_uri(&self, asset_id: &str, kind: XrdsSceneAssetKind) -> (r: Option<String>)
        ensures
            name_of(r) == resolved_uri(self.world().catalog(), asset_id@, kind),
    {
        self.world.resolve_asset_uri(asset_id, kind)
    }

    /// The components waiting to be spawned, in queue order, for the engine to interpret.
    pub fn queued_spawns(&self) -> (r: &Vec<QueuedSurfaceComponent<D>>)
        ensures
            r@ == self.world().queued_components(),
    {
        self.world.queued_spawns()
    }

    /// Commit the queued spawns once the engine interpreted them: `entities[i]` is the
    /// entity realized for the `i`-th queued component, `None` where none was. Realized
    /// components are registered under their queued ids and their initial parent
    /// assignments go before the parent changes already queued; the queue is left empty.
    pub fn commit_queued_spawns(&mut self, entities: Vec<Option<Entity>>)
        requires
            old(self).world().inv(),
            entities@.len() == old(self).world().queued_components().len(),
            spawns_fresh(old(self).world().ids(), old(self).world().entities(), realized_spawns(old(self).world().queued_components(), entities@)),
        ensures
            final(self).world().inv(),
            old(self).world().commits_spawns(final(self).world(), realized_spawns(old(self).world().queued_components(), entities@)),
    {
        self.world.commit_queued_spawns(entities)
    }

    /// The live nodes a scene export writes, in increasing id order, each with its entity and
    /// recorded parent.
    pub fn export_order(&self) -> (entries: Vec<XrdsExportEntry>)
        ensures
            forall|i: int, j: int| 0 <= i < j < entries@.len() ==> entries@[i].id.0 < entries@[j].id.0,
            forall|x: u64| #[trigger] self.world().ids().contains_key(x) <==> exists|i: int| 0 <= i < entries@.len() && #[trigger] entries@[i].id.0 == x,
            forall|i: int| 0 <= i < entries@.len() ==> {
                let e = #[trigger] entries@[i];
                &&& self.world().ids().contains_key(e.id.0)
                &&& e.entity == Entity(self.world().ids()[e.id.0])
                &&& raw_id(e.parent_id) == parent_step(self.world().parents(), e.id.0)
            },
    {
        self.world.export_order()
    }

    /// The asset catalog a scene export writes for the exported glTF nodes `refs`: the
    /// entries rebuilt from them, then the imported catalog's entries whose id is still free.
    pub fn export_asset_catalog(&self, refs: &[XrdsGltfAssetRef]) -> (assets: Vec<XrdsSceneAsset>)
        ensures
            assets_view(assets@) == merged_catalog(self.world().catalog(), rebuilt_catalog(refs@).0),
    {
        self.world.export_asset_catalog(refs)
    }

    /// Queue a parent assignment (`None`: detach to the root).
    pub fn queue_set_parent(&mut self, child_id: XrdsId, parent_id: Option<XrdsId>)
        requires
            old(self).world().inv(),
        ensures
            final(self).world().inv(),
            final(self).world().queued_parent_changes() == old(self).world().queued_parent_changes().push(
                QueuedParentChange { child_id, parent_id },
            ),
            final(self).world().index_view() == old(self).world().index_view(),
            final(self).world().queued_components() == old(self).world().queued_components(),
            final(self).world().queued_updates() == old(self).world().queued_updates(),
            final(self).world().pending_links() == old(self).world().pending_links(),
            final(self).world().pending_despawns() == old(self).world().pending_despawns(),
            final(self).world().registry_view() == old(self).world().registry_view(),
            final(self).world().scene_view() == old(self).world().scene_view(),
    {
        self.world.queue_parent_change(child_id, parent_id)
    }
}

/// The queue entries of `descriptors` spawned at the root under `ids`, pairwise, in order.
pub open spec fn queued_roots<D>(ids: Seq<XrdsId>, descriptors: Seq<XrdsDescriptor<D>>) -> Seq<QueuedSurfaceComponent<D>>
    decreases ids.len(),
{
    if ids.len() == 0 {
        Seq::empty()
    } else {
        queued_roots(ids.drop_last(), descriptors).push(
            QueuedSurfaceComponent { id: ids.last(), component: descriptors[ids.len() - 1], parent_id: None },
        )
    }
}

impl<D: Clone, P> XrdsAPI<D, P> {
    /// Plan a duplicate of the entity behind `handle` with its XRDS subtree (see
    /// `XrdsWorld::plan_duplicate`); the engine then realizes the steps in order, each through
    /// `spawn_duplicate_step`, and the copy of the root is the first step's entity.
    pub fn duplicate<C>(&mut self, handle: &Handle<C>) -> (plan: Option<Vec<XrdsDuplicateStep<D>>>)
        requires
            old(self).world().inv(),
            old(self).world().next_id() + 3 * old(self).world().ids().len() <= u64::MAX,
        ensures
            final(self).world().inv(),
            !old(self).world().entities().contains_key(handle.spec_entity().0) ==> plan is None && old(self).world().unchanged(final(self).world()),
            old(self).world().entities().contains_key(handle.spec_entity().0) ==> {
                let root = old(self).world().entities()[handle.spec_entity().0];
                &&& old(self).world().same_but_allocator(final(self).world())
                &&& exists|allocated: Seq<u64>| #[trigger] allocated_in_turn(old(self).world().ids(), old(self).world().next_id(), allocated)
                    && allocated.len() == old(self).world().subtree_of(root).len()
                    && final(self).world().next_id() == after_id(allocated.last())
                    && (plan matches Some(steps) ==> step_ids(steps@) == allocated)
                &&& (plan is Some) == old(self).world().subtree_clonable(root)
                &&& plan matches Some(steps) ==> old(self).world().plans_duplicate(root, steps@)
            },
    {
        self.world.plan_duplicate(handle)
    }
}

impl<D, P> XrdsAPI<D, P> {
    /// Register the entity the engine realized for one step of a planned duplicate and attach
    /// it under its planned parent (see `XrdsWorld::spawn_duplicate_step`).
    pub fn spawn_duplicate_step(&mut self, step: XrdsDuplicateStep<D>, entity: Entity)
        requires
            old(self).world().inv(),
            !old(self).world().ids().contains_key(step.id.0),
            !old(self).world().entities().contains_key(entity.0),
        ensures
            final(self).world().inv(),
            final(self).world().ids() == old(self).world().ids().insert(step.id.0, entity.0),
            final(self).world().entities() == old(self).world().entities().insert(entity.0, step.id.0),
            final(self).world().stored() == old(self).world().stored().insert(entity.0, descriptor_view(step.descriptor)),
            final(self).world().parents() == parents_after_changes(
                final(self).world().ids(),
                with_node(old(self).world().parents(), step.id.0),
                seq![QueuedParentChange { child_id: step.id, parent_id: step.parent_id }],
            ),
            step.parent_id matches Some(q) ==> (old(self).world().ids().contains_key(q.0) && old(self).world().parents().contains_key(q.0)
                ==> parent_step(final(self).world().parents(), step.id.0) == Some(q.0)),
            final(self).world().next_id() == old(self).world().next_id(),
            final(self).world().queued_components() == old(self).world().queued_components(),
            final(self).world().queued_parent_changes() == old(self).world().queued_parent_changes(),
            final(self).world().queued_updates() == old(self).world().queued_updates(),
            final(self).world().pending_despawns() == old(self).world().pending_despawns(),
            final(self).world().registry_view() == old(self).world().registry_view(),
            final(self).world().scene_view() == old(self).world().scene_view(),
    {
        self.world.spawn_duplicate_step(step, entity)
    }
}

} // verus!
