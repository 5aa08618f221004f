//! The update-side XRDS context: what an update system may read and queue in a frame.
use vstd::prelude::*;
use crate::catalog::{assets_view, merged_catalog, XrdsSceneAsset};
use crate::ids::{Entity, Handle, XrdsId};
use crate::structure::raw_ids;
use crate::types::{
    source_view, GltfAssetSourcePatch, QueuedSurfaceUpdate, XrdsAmbientLight, XrdsCamera,
    XrdsCameraProjection, XrdsComponentType, XrdsDirectionalLight, XrdsGltfAsset, XrdsPatch,
    XrdsPatchKind, XrdsPointLight, XrdsSceneImportError, XrdsSpotLight, XrdsText,
};
use crate::world::{
    preview_index, released, renamed, stored_gltf_source, stored_payload_of, XrdsAgent, XrdsImportNode,
    XrdsKey, XrdsWorld,
};

verus! {

/// The XRDS context of one update pass over a runtime world.
pub struct XrdsUpdateContext<D, P> {
    world: XrdsWorld<D, P>,
}

impl<D, P> XrdsUpdateContext<D, P> {
    /// The world behind this context.
    pub closed spec fn world(&self) -> XrdsWorld<D, P> {
        self.world
    }

    /// A context over `world` for one update pass.
    pub fn new(world: XrdsWorld<D, P>) -> (ctx: XrdsUpdateContext<D, P>)
        ensures
            ctx.world() == world,
    {
        XrdsUpdateContext { world }
    }

    /// End the update pass and give the world back.
    pub fn finish(self) -> (world: XrdsWorld<D, P>)
        ensures
            world == self.world(),
    {
        self.world
    }

    /// Whether `key` went down this frame.
    pub fn key_just_pressed(&self, key: XrdsKey) -> (r: bool)
        ensures
            r == (match self.world().keyboard() {
                Some(k) => k.1.contains(key),
                None => false,
            }),
    {
        self.world.key_just_pressed(key)
    }

    /// Whether `key` is held down.
    pub fn key_pressed(&self, key: XrdsKey) -> (r: bool)
        ensures
            r == (match self.world().keyboard() {
                Some(k) => k.0.contains(key),
                None => false,
            }),
    {
        self.world.key_pressed(key)
    }

    /// Pause or resume the editor's track preview. Returns whether a preview was found; a
    /// paused preview keeps its asset locks.
    pub fn preview_pause_track(&mut self, paused: bool) -> (found: bool)
        requires
            old(self).world().inv(),
        ensures
            final(self).world().inv(),
            found == preview_index(old(self).world().agents()) is Some,
            final(self).world().agents() == (match preview_index(old(self).world().agents()) {
                Some(i) => old(self).world().agents().update(i, XrdsAgent { paused, ..old(self).world().agents()[i] }),
                None => old(self).world().agents(),
            }),
            final(self).world().index_view() == old(self).world().index_view(),
            final(self).world().queue_view() == old(self).world().queue_view(),
            final(self).world().registry_view() == old(self).world().registry_view(),
            final(self).world().catalog() == old(self).world().catalog(),
            final(self).world().anchor_roots() == old(self).world().anchor_roots(),
            final(self).world().keyboard() == old(self).world().keyboard(),
            final(self).world().panel_elements() == old(self).world().panel_elements(),
            final(self).world().locks() == old(self).world().locks(),
    {
        self.world.preview_pause_track(paused)
    }

    /// Stop the editor's track preview and return the ids of the nodes it was driving, so the
    /// caller can restore them from its document.
    pub fn preview_stop_track(&mut self) -> (ids: Vec<XrdsId>)
        requires
            old(self).world().inv(),
        ensures
            final(self).world().inv(),
            preview_index(final(self).world().agents()) is None,
            preview_index(old(self).world().agents()) is None ==> ids@.len() == 0 && old(self).world().unchanged(final(self).world()),
            preview_index(old(self).world().agents()) matches Some(i) ==> {
                let agent = old(self).world().agents()[i];
                &&& forall|x: u64| #[trigger] raw_ids(ids@).contains(x) <==> exists|e: u64|
                    #[trigger] old(self).world().locks().contains_key(e) && old(self).world().locks()[e] == agent.entity.0
                        && old(self).world().entities().contains_key(e) && old(self).world().entities()[e] == x
                &&& final(self).world().agents() == old(self).world().agents().remove(i)
                &&& final(self).world().locks() == released(old(self).world().locks(), seq![agent])
                &&& final(self).world().pending_despawns() == old(self).world().pending_despawns().push(agent.entity)
                &&& old(self).world().same_but_agents(final(self).world())
            },
    {
        self.world.preview_stop_track()
    }

    /// Begin a reimport of the scene: every registered entity is left for despawning and
    /// forgotten, the id index, hierarchy and queued parent changes are cleared, and the
    /// document's `assets` are merged into the catalog. The engine then realizes the
    /// document's nodes one by one, each handed to `reimport_node`, and the queued parent
    /// changes are applied at the end.
    pub fn begin_reimport(&mut self, assets: &[XrdsSceneAsset])
        requires
            old(self).world().inv(),
        ensures
            final(self).world().inv(),
            old(self).world().begins_reimport(final(self).world(), assets_view(assets@)),
    {
        self.world.begin_reimport(assets)
    }

    /// Reimport one document node the engine realized (or not): skipped when its id is live;
    /// otherwise its id is reserved and a realized entity registered with its parent
    /// assignment queued. Returns whether the node was imported.
    pub fn reimport_node(&mut self, node: XrdsImportNode<D>) -> (imported: bool)
        requires
            old(self).world().inv(),
            node.entity matches Some(e) ==> !old(self).world().entities().contains_key(e.0),
        ensures
            final(self).world().inv(),
            old(self).world().reimports_node(final(self).world(), node, imported),
    {
        self.world.reimport_node(node)
    }

    /// Apply every queued parent change as one batch and leave the engine links it decided
    /// for the engine to mirror.
    pub fn apply_queued_parent_changes(&mut self)
        requires
            old(self).world().inv(),
        ensures
            final(self).world().inv(),
            old(self).world().relinks(final(self).world(), old(self).world().queued_parent_changes()),
            final(self).world().queued_parent_changes().len() == 0,
    {
        self.world.apply_queued_parent_changes()
    }

    /// Add one document node the engine realized (or not) to the live scene without
    /// touching the rest: refused when its id is live, reported when nothing was realized,
    /// otherwise registered and parented at once.
    pub fn spawn_document_node(&mut self, node: XrdsImportNode<D>) -> (r: Result<XrdsId, XrdsSceneImportError>)
        requires
            old(self).world().inv(),
            node.entity matches Some(e) ==> !old(self).world().entities().contains_key(e.0),
        ensures
            final(self).world().inv(),
            old(self).world().adds_document_node(final(self).world(), node, r),
    {
        self.world.spawn_document_node(node)
    }

    /// Merge authored scene assets into the runtime catalog: present ids keep their entry,
    /// new ids are appended in order.
    pub fn merge_scene_assets(&mut self, assets: &[XrdsSceneAsset])
        requires
            old(self).world().inv(),
        ensures
            final(self).world().inv(),
            final(self).world().catalog() == merged_catalog(assets_view(assets@), old(self).world().catalog()),
            final(self).world().index_view() == old(self).world().index_view(),
            final(self).world().queue_view() == old(self).world().queue_view(),
            final(self).world().registry_view() == old(self).world().registry_view(),
            final(self).world().anchor_roots() == old(self).world().anchor_roots(),
            final(self).world().keyboard() == old(self).world().keyboard(),
            final(self).world().panel_elements() == old(self).world().panel_elements(),
            final(self).world().locks() == old(self).world().locks(),
            final(self).world().agents() == old(self).world().agents(),
    {
        self.world.merge_scene_assets(assets)
    }

    /// The stored point light parameters.
    pub fn point_light_params(&self, handle: &Handle<XrdsPointLight>) -> (r: Option<&D>)
        ensures
            r is None <==> stored_payload_of(self.world().stored(), handle.spec_entity(), XrdsPointLight::spec_kind()) is None,
            r matches Some(x) ==> stored_payload_of(self.world().stored(), handle.spec_entity(), XrdsPointLight::spec_kind()) == Some(*x),
    {
        self.world.stored_payload(handle)
    }

    /// The stored directional light parameters.
    pub fn directional_light_params(&self, handle: &Handle<XrdsDirectionalLight>) -> (r: Option<&D>)
        ensures
            r is None <==> stored_payload_of(self.world().stored(), handle.spec_entity(), XrdsDirectionalLight::spec_kind()) is None,
            r matches Some(x) ==> stored_payload_of(self.world().stored(), handle.spec_entity(), XrdsDirectionalLight::spec_kind()) == Some(*x),
    {
        self.world.stored_payload(handle)
    }

    /// The stored spot light parameters.
    pub fn spot_light_params(&self, handle: &Handle<XrdsSpotLight>) -> (r: Option<&D>)
        ensures
            r is None <==> stored_payload_of(self.world().stored(), handle.spec_entity(), XrdsSpotLight::spec_kind()) is None,
            r matches Some(x) ==> stored_payload_of(self.world().stored(), handle.spec_entity(), XrdsSpotLight::spec_kind()) == Some(*x),
    {
        self.world.stored_payload(handle)
    }

    /// The stored ambient light parameters.
    pub fn ambient_light_params(&self, handle: &Handle<XrdsAmbientLight>) -> (r: Option<&D>)
        ensures
            r is None <==> stored_payload_of(self.world().stored(), handle.spec_entity(), XrdsAmbientLight::spec_kind()) is None,
            r matches Some(x) ==> stored_payload_of(self.world().stored(), handle.spec_entity(), XrdsAmbientLight::spec_kind()) == Some(*x),
    {
        self.world.stored_payload(handle)
    }

    /// The stored 3D text content and styling.
    pub fn text_params(&self, handle: &Handle<XrdsText>) -> (r: Option<&D>)
        ensures
            r is None <==> stored_payload_of(self.world().stored(), handle.spec_entity(), XrdsText::spec_kind()) is None,
            r matches Some(x) ==> stored_payload_of(self.world().stored(), handle.spec_entity(), XrdsText::spec_kind()) == Some(*x),
    {
        self.world.stored_payload(handle)
    }

    /// Queue a 3D text content and styling update.
    pub fn set_text_params(&mut self, handle: &Handle<XrdsText>, params: P)
        requires
            old(self).world().inv(),
        ensures
            final(self).world().inv(),
            old(self).world().queues_update(final(self).world(), QueuedSurfaceUpdate {
                entity: handle.spec_entity(),
                component_type: XrdsText::spec_kind(),
                patch: XrdsPatch::Other(XrdsPatchKind::TextParams, params),
            }),
    {
        self.world.queue_update(handle, XrdsPatch::Other(XrdsPatchKind::TextParams, params))
    }

    /// The XRDS id of the entity behind `handle`.
    pub fn id_of<C>(&self, handle: &Handle<C>) -> (r: Option<XrdsId>)
        ensures
            r == (if self.world().entities().contains_key(handle.spec_entity().0) {
                Some(XrdsId(self.world().entities()[handle.spec_entity().0]))
            } else {
                None
            }),
    {
        self.world.id_of(handle.entity())
    }

    /// The entity realizing `id`.
    pub fn entity_of_id(&self, id: XrdsId) -> (r: Option<Entity>)
        ensures
            r == (if self.world().ids().contains_key(id.0) {
                Some(Entity(self.world().ids()[id.0]))
            } else {
                None
            }),
    {
        self.world.entity_of_id(id)
    }

    /// A typed handle to the entity realizing `id`.
    pub fn handle_of<C>(&self, id: XrdsId) -> (r: Option<Handle<C>>)
        ensures
            r is Some == self.world().ids().contains_key(id.0),
            r matches Some(h) ==> h.spec_entity() == Entity(self.world().ids()[id.0]),
    {
        match self.world.entity_of_id(id) {
            Some(e) => Some(Handle::from(e)),
            None => None,
        }
    }

    /// Queue a patch for the entity behind `handle`, addressed to descriptor type `C`.
    pub fn queue_update<C: XrdsComponentType>(&mut self, handle: &Handle<C>, patch: XrdsPatch<P>)
        requires
            old(self).world().inv(),
        ensures
            final(self).world().inv(),
            old(self).world().queues_update(final(self).world(), QueuedSurfaceUpdate { entity: handle.spec_entity(), component_type: C::spec_kind(), patch }),
    {
        self.world.queue_update(handle, patch)
    }

    /// The stored camera parameters, projection included.
    pub fn camera_projection(&self, handle: &Handle<XrdsCamera>) -> (r: Option<&D>)
        ensures
            r is None <==> stored_payload_of(self.world().stored(), handle.spec_entity(), XrdsCamera::spec_kind()) is None,
            r matches Some(x) ==> stored_payload_of(self.world().stored(), handle.spec_entity(), XrdsCamera::spec_kind()) == Some(*x),
    {
        self.world.stored_payload(handle)
    }

    /// Queue a camera projection update.
    pub fn set_camera_projection(&mut self, handle: &Handle<XrdsCamera>, projection: XrdsCameraProjection<P>)
        requires
            old(self).world().inv(),
        ensures
            final(self).world().inv(),
            old(self).world().queues_update(final(self).world(), QueuedSurfaceUpdate {
                entity: handle.spec_entity(),
                component_type: XrdsCamera::spec_kind(),
                patch: XrdsPatch::CameraProjection(projection),
            }),
    {
        self.world.queue_update(handle, XrdsPatch::CameraProjection(projection))
    }

    /// Queue a perspective camera projection update.
    pub fn set_camera_perspective(&mut self, handle: &Handle<XrdsCamera>, params: P)
        requires
            old(self).world().inv(),
        ensures
            final(self).world().inv(),
            old(self).world().queues_update(final(self).world(), QueuedSurfaceUpdate {
                entity: handle.spec_entity(),
                component_type: XrdsCamera::spec_kind(),
                patch: XrdsPatch::CameraProjection(XrdsCameraProjection::Perspective(params)),
            }),
    {
        self.set_camera_projection(handle, XrdsCameraProjection::Perspective(params))
    }

    /// Queue an orthographic camera projection update.
    pub fn set_camera_orthographic(&mut self, handle: &Handle<XrdsCamera>, params: P)
        requires
            old(self).world().inv(),
        ensures
            final(self).world().inv(),
            old(self).world().queues_update(final(self).world(), QueuedSurfaceUpdate {
                entity: handle.spec_entity(),
                component_type: XrdsCamera::spec_kind(),
                patch: XrdsPatch::CameraProjection(XrdsCameraProjection::Orthographic(params)),
            }),
    {
        self.set_camera_projection(handle, XrdsCameraProjection::Orthographic(params))
    }

    /// The stored glTF source (document path and scene index).
    pub fn gltf_source(&self, handle: &Handle<XrdsGltfAsset>) -> (r: Option<GltfAssetSourcePatch>)
        ensures
            source_view(r) == stored_gltf_source(self.world().stored(), handle.spec_entity()),
    {
        self.world.gltf_source_of(handle)
    }

    /// Queue a glTF source update.
    pub fn set_gltf_source(&mut self, handle: &Handle<XrdsGltfAsset>, gltf_asset_path: String, scene_index: usize)
        requires
            old(self).world().inv(),
        ensures
            final(self).world().inv(),
            old(self).world().queues_update(final(self).world(), QueuedSurfaceUpdate {
                entity: handle.spec_entity(),
                component_type: XrdsGltfAsset::spec_kind(),
                patch: XrdsPatch::GltfAssetSource(GltfAssetSourcePatch { gltf_asset_path, scene_index }),
            }),
    {
        self.world.queue_update(handle, XrdsPatch::GltfAssetSource(GltfAssetSourcePatch { gltf_asset_path, scene_index }))
    }

    /// Show or hide the entity behind `handle` now. With a visibility updater for `C` the
    /// stored `C` descriptor follows, and `true` is returned; the engine-side visibility is set
    /// by the caller either way.
    pub fn set_visibility<C: XrdsComponentType>(&mut self, handle: &Handle<C>, visible: bool) -> (through_updater: bool)
        requires
            old(self).world().inv(),
        ensures
            final(self).world().inv(),
            through_updater == old(self).world().updater_pairs().contains((C::spec_kind(), XrdsPatchKind::Visibility)),
            through_updater && old(self).world().stored().contains_key(handle.spec_entity().0)
                && old(self).world().stored()[handle.spec_entity().0].kind == C::spec_kind() ==> {
                &&& final(self).world().stored()[handle.spec_entity().0].visible == visible
                &&& final(self).world().stored()[handle.spec_entity().0].name == old(self).world().stored()[handle.spec_entity().0].name
            },
            final(self).world().stored() == (if through_updater
                && old(self).world().stored().contains_key(handle.spec_entity().0)
                && old(self).world().stored()[handle.spec_entity().0].kind == C::spec_kind() {
                old(self).world().stored().insert(handle.spec_entity().0, renamed(old(self).world().stored()[handle.spec_entity().0], None, Some(visible)))
            } else {
                old(self).world().stored()
            }),
            final(self).world().ids() == old(self).world().ids(),
            final(self).world().entities() == old(self).world().entities(),
            final(self).world().parents() == old(self).world().parents(),
            final(self).world().children() == old(self).world().children(),
            final(self).world().next_id() == old(self).world().next_id(),
            final(self).world().queue_view() == old(self).world().queue_view(),
            final(self).world().registry_view() == old(self).world().registry_view(),
            final(self).world().scene_view() == old(self).world().scene_view(),
    {
        self.world.set_visibility(handle, visible)
    }
}

} // verus!
