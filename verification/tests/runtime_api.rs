use xrds_runtime::api::XrdsAPI;
use xrds_runtime::gltf_source::{XrdsGltfFile, XrdsGltfSourceError};
use xrds_runtime::ids::{Entity, Handle, XrdsId};
use xrds_runtime::structure::XrdsParentLink;
use xrds_runtime::types::{
    GltfAssetSourcePatch, XrdsCube, XrdsDescriptor, XrdsDescriptorKind, XrdsGltfAsset, XrdsNode,
    XrdsPatch, XrdsPatchKind, XrdsPointLight, XrdsSceneImportError, XrdsText,
};
use xrds_runtime::world::{XrdsAgent, XrdsImportNode};

type Api = XrdsAPI<u32, u32>;

fn descriptor(kind: XrdsDescriptorKind, name: &str, payload: u32) -> XrdsDescriptor<u32> {
    XrdsDescriptor { kind, name: name.to_string(), visible: true, gltf_source: None, payload }
}

fn node(api: &mut Api, name: &str, entity: u64) -> Handle<XrdsNode> {
    api.spawn::<XrdsNode>(descriptor(XrdsDescriptorKind::Node, name, 0), Entity(entity))
}

#[test]
fn fresh_api_allocates_from_one() {
    let mut api = Api::attach();
    assert!(api.all_runtime_ids().is_empty());
    assert_eq!(api.new_id(), XrdsId(1));
    assert_eq!(api.new_id(), XrdsId(2));
}

#[test]
fn spawned_entities_resolve_both_ways() {
    let mut api = Api::attach();
    let cube = api.spawn::<XrdsCube>(descriptor(XrdsDescriptorKind::Cube, "Cube", 3), Entity(10));
    assert_eq!(cube.entity(), Entity(10));
    assert_eq!(api.id_of(&cube), Some(XrdsId(1)));
    assert_eq!(api.entity_of_id(XrdsId(1)), Some(Entity(10)));
    let again: Handle<XrdsCube> = api.handle_of(XrdsId(1)).unwrap();
    assert_eq!(again.entity(), Entity(10));
    assert!(api.handle_of::<XrdsCube>(XrdsId(2)).is_none());
    assert_eq!(api.all_runtime_ids(), vec![XrdsId(1)]);
}

#[test]
fn authored_ids_are_kept_and_skipped_by_the_allocator() {
    let mut api = Api::attach();
    let h = api
        .spawn_with_id::<XrdsNode>(XrdsId(5), descriptor(XrdsDescriptorKind::Node, "A", 0), Entity(50))
        .unwrap();
    assert_eq!(api.id_of(&h), Some(XrdsId(5)));
    assert_eq!(api.new_id(), XrdsId(6));
}

#[test]
fn live_ids_are_refused_and_the_extra_entity_is_despawned() {
    let mut api = Api::attach();
    api.spawn_with_id::<XrdsNode>(XrdsId(5), descriptor(XrdsDescriptorKind::Node, "A", 0), Entity(50))
        .unwrap();
    let r = api.spawn_with_id::<XrdsNode>(XrdsId(5), descriptor(XrdsDescriptorKind::Node, "B", 0), Entity(51));
    assert!(matches!(r, Err(XrdsSceneImportError::DuplicateRuntimeId(XrdsId(5)))));
    assert_eq!(api.take_pending_despawns(), vec![Entity(51)]);
    assert_eq!(api.entity_of_id(XrdsId(5)), Some(Entity(50)));
}

#[test]
fn queued_spawns_get_fresh_ids() {
    let mut api = Api::attach();
    let a = api.queue_spawn(descriptor(XrdsDescriptorKind::Node, "A", 0));
    let b = api.queue_spawn_with_id(XrdsId(9), descriptor(XrdsDescriptorKind::Node, "B", 0));
    let many = api.queue_spawn_many(vec![
        descriptor(XrdsDescriptorKind::Node, "C", 0),
        descriptor(XrdsDescriptorKind::Node, "D", 0),
    ]);
    assert_eq!(a, XrdsId(1));
    assert_eq!(b.unwrap(), XrdsId(9));
    assert_eq!(many, vec![XrdsId(10), XrdsId(11)]);
}

#[test]
fn queued_parent_changes_link_nodes() {
    let mut api = Api::attach();
    let parent = node(&mut api, "P", 100);
    let child = node(&mut api, "C", 101);
    let pid = api.id_of(&parent).unwrap();
    let cid = api.id_of(&child).unwrap();
    api.queue_set_parent(cid, Some(pid));
    api.apply_queued_parent_changes();
    assert_eq!(api.parent_id_of_node(cid), Some(pid));
    assert_eq!(api.parent_id_of(&child), Some(pid));
    assert_eq!(api.children_ids_of_node(pid), vec![cid]);
    assert_eq!(api.child_ids_of(&parent), vec![cid]);
    assert_eq!(
        api.take_pending_links(),
        vec![XrdsParentLink { child: Entity(101), parent: Some(Entity(100)) }]
    );
}

#[test]
fn a_cycle_request_detaches_to_the_root() {
    let mut api = Api::attach();
    let a = node(&mut api, "A", 1);
    let b = node(&mut api, "B", 2);
    let aid = api.id_of(&a).unwrap();
    let bid = api.id_of(&b).unwrap();
    api.queue_set_parent(aid, Some(bid));
    api.apply_queued_parent_changes();
    api.queue_set_parent(bid, Some(aid));
    api.apply_queued_parent_changes();
    assert_eq!(api.parent_id_of_node(aid), Some(bid));
    assert_eq!(api.parent_id_of_node(bid), None);
}

#[test]
fn self_parenting_detaches_to_the_root() {
    let mut api = Api::attach();
    let a = node(&mut api, "A", 1);
    let aid = api.id_of(&a).unwrap();
    api.queue_set_parent(aid, Some(aid));
    api.apply_queued_parent_changes();
    assert_eq!(api.parent_id_of_node(aid), None);
}

#[test]
fn unregistered_parents_are_not_attached() {
    let mut api = Api::attach();
    let a = node(&mut api, "A", 1);
    let aid = api.id_of(&a).unwrap();
    api.queue_set_parent(aid, Some(XrdsId(77)));
    api.apply_queued_parent_changes();
    assert_eq!(api.parent_id_of_node(aid), None);
}

#[test]
fn the_last_request_in_a_batch_wins() {
    let mut api = Api::attach();
    let a = node(&mut api, "A", 1);
    let b = node(&mut api, "B", 2);
    let c = node(&mut api, "C", 3);
    let (aid, bid, cid) = (api.id_of(&a).unwrap(), api.id_of(&b).unwrap(), api.id_of(&c).unwrap());
    api.queue_set_parent(cid, Some(aid));
    api.queue_set_parent(cid, Some(bid));
    api.apply_queued_parent_changes();
    assert_eq!(api.parent_id_of_node(cid), Some(bid));
    assert!(api.children_ids_of_node(aid).is_empty());
}

#[test]
fn delete_removes_the_subtree_children_first() {
    let mut api = Api::attach();
    let p = node(&mut api, "P", 10);
    let c = node(&mut api, "C", 11);
    let g = node(&mut api, "G", 12);
    let other = node(&mut api, "O", 13);
    let (pid, cid, gid) = (api.id_of(&p).unwrap(), api.id_of(&c).unwrap(), api.id_of(&g).unwrap());
    api.queue_set_parent(cid, Some(pid));
    api.queue_set_parent(gid, Some(cid));
    api.apply_queued_parent_changes();
    assert!(api.delete(&p));
    assert_eq!(api.entity_of_id(pid), None);
    assert_eq!(api.entity_of_id(cid), None);
    assert_eq!(api.entity_of_id(gid), None);
    assert_eq!(api.id_of(&other), Some(XrdsId(4)));
    assert_eq!(api.take_pending_despawns(), vec![Entity(12), Entity(11), Entity(10)]);
    assert!(!api.delete(&p));
}

#[test]
fn deleting_a_child_detaches_it_from_its_parent() {
    let mut api = Api::attach();
    let p = node(&mut api, "P", 10);
    let c = node(&mut api, "C", 11);
    let (pid, cid) = (api.id_of(&p).unwrap(), api.id_of(&c).unwrap());
    api.queue_set_parent(cid, Some(pid));
    api.apply_queued_parent_changes();
    assert!(api.delete(&c));
    assert!(api.children_ids_of_node(pid).is_empty());
    assert_eq!(api.entity_of_id(pid), Some(Entity(10)));
}

#[test]
fn duplicate_copies_the_subtree_under_fresh_ids() {
    let mut api = Api::attach();
    let p = node(&mut api, "Root", 10);
    let c = node(&mut api, "Leaf", 11);
    let (pid, cid) = (api.id_of(&p).unwrap(), api.id_of(&c).unwrap());
    api.queue_set_parent(cid, Some(pid));
    api.apply_queued_parent_changes();
    let plan = api.duplicate(&p).unwrap();
    assert_eq!(plan.len(), 2);
    assert_eq!(plan[0].source, Entity(10));
    assert_eq!(plan[0].descriptor.name, "Root Copy");
    assert_eq!(plan[0].parent_id, None);
    assert_eq!(plan[1].source, Entity(11));
    assert_eq!(plan[1].descriptor.name, "Leaf");
    assert_eq!(plan[1].parent_id, Some(plan[0].id));
    let (root_copy, leaf_copy) = (plan[0].id, plan[1].id);
    assert_eq!(root_copy, XrdsId(3));
    assert_eq!(leaf_copy, XrdsId(4));
    let mut entity = 20;
    for step in plan {
        api.spawn_duplicate_step(step, Entity(entity));
        entity += 1;
    }
    assert_eq!(api.parent_id_of_node(leaf_copy), Some(root_copy));
    assert_eq!(api.entity_of_id(root_copy), Some(Entity(20)));
    assert_eq!(api.parent_id_of_node(cid), Some(pid));
}

#[test]
fn duplicate_of_an_unknown_entity_is_none() {
    let mut api = Api::attach();
    let h: Handle<XrdsNode> = Handle::from(Entity(5));
    assert!(api.duplicate(&h).is_none());
    assert_eq!(api.new_id(), XrdsId(1));
}

#[test]
fn patches_without_an_updater_are_dropped() {
    let mut api = Api::attach();
    let cube = api.spawn::<XrdsCube>(descriptor(XrdsDescriptorKind::Cube, "Cube", 0), Entity(1));
    let text = api.spawn::<XrdsText>(descriptor(XrdsDescriptorKind::Text, "Text", 0), Entity(2));
    api.rename(&cube, "Box".to_string());
    api.set_text_params(&text, 4);
    api.set_cube_geometry(&cube, 2);
    let dispatched = api.apply_surface_updates();
    assert_eq!(dispatched.len(), 2);
    assert!(matches!(dispatched[0].patch, XrdsPatch::Name(_)));
    assert!(matches!(dispatched[1].patch, XrdsPatch::Other(XrdsPatchKind::CubeGeometry, 2)));
}

#[test]
fn parent_patches_become_parent_changes() {
    let mut api = Api::attach();
    let a = node(&mut api, "A", 1);
    let b = node(&mut api, "B", 2);
    let bid = api.id_of(&b).unwrap();
    api.set_parent(&a, Some(bid));
    api.apply_surface_updates();
    api.apply_queued_parent_changes();
    assert_eq!(api.parent_id_of(&a), Some(bid));
}

#[test]
fn stored_parameters_are_read_by_type() {
    let mut api = Api::attach();
    let light = api.spawn::<XrdsPointLight>(descriptor(XrdsDescriptorKind::PointLight, "L", 7), Entity(1));
    assert_eq!(api.point_light_params(&light), Some(&7));
    let not_text: Handle<XrdsText> = Handle::from(Entity(1));
    assert_eq!(api.text_params(&not_text), None);
}

#[test]
fn gltf_sources_are_read_back() {
    let mut api = Api::attach();
    let mut d = descriptor(XrdsDescriptorKind::GltfAsset, "Model", 0);
    d.gltf_source = Some(GltfAssetSourcePatch { gltf_asset_path: "models/a.glb".to_string(), scene_index: 1 });
    let model = api.spawn::<XrdsGltfAsset>(d, Entity(3));
    let src = api.gltf_source(&model).unwrap();
    assert_eq!(src.gltf_asset_path, "models/a.glb");
    assert_eq!(src.scene_index, 1);
}

#[test]
fn recorded_parameters_are_read_back() {
    let mut api = Api::attach();
    let light = api.spawn::<XrdsPointLight>(descriptor(XrdsDescriptorKind::PointLight, "L", 7), Entity(1));
    assert!(api.record_updated_payload(&light, 9));
    assert_eq!(api.point_light_params(&light), Some(&9));
    let text = api.spawn::<XrdsText>(descriptor(XrdsDescriptorKind::Text, "T", 3), Entity(2));
    let not_a_light: Handle<XrdsPointLight> = Handle::from(text.entity());
    assert!(!api.record_updated_payload(&not_a_light, 5));
    assert_eq!(api.text_params(&text), Some(&3));
}

#[test]
fn asset_descriptors_are_spawned_only_with_a_valid_source() {
    let mut api = Api::attach();
    let doc = r#"{"asset":{"version":"2.0"},"scene":0,"scenes":[{"nodes":[0]}],"nodes":[{"name":"root"}]}"#;
    let found = || Some(XrdsGltfFile { path: "assets/models/a.gltf".to_string(), contents: Ok(doc.as_bytes().to_vec()) });
    let bare = descriptor(XrdsDescriptorKind::GltfAsset, "Bare", 0);
    assert!(matches!(api.spawn_asset::<XrdsGltfAsset>(bare, found(), Entity(4)), Err(XrdsGltfSourceError::EmptyPath)));
    let mut missing = descriptor(XrdsDescriptorKind::GltfAsset, "Missing", 0);
    missing.gltf_source = Some(GltfAssetSourcePatch { gltf_asset_path: "models/b.gltf".to_string(), scene_index: 0 });
    assert!(matches!(api.spawn_asset::<XrdsGltfAsset>(missing, None, Entity(5)), Err(XrdsGltfSourceError::NotFound)));
    assert!(api.all_runtime_ids().is_empty());
    assert_eq!(api.take_pending_despawns(), vec![Entity(4), Entity(5)]);
    let mut model = descriptor(XrdsDescriptorKind::GltfAsset, "Model", 0);
    model.gltf_source = Some(GltfAssetSourcePatch { gltf_asset_path: "models/a.gltf".to_string(), scene_index: 0 });
    let h = api.spawn_asset::<XrdsGltfAsset>(model, found(), Entity(6)).unwrap();
    assert_eq!(h.entity(), Entity(6));
    assert_eq!(api.id_of(&h), Some(XrdsId(1)));
    assert_eq!(api.gltf_source(&h).unwrap().gltf_asset_path, "models/a.gltf");
}

#[test]
fn an_accepted_gltf_source_is_read_back_after_the_flush() {
    let mut api = Api::attach();
    let mut d = descriptor(XrdsDescriptorKind::GltfAsset, "Model", 0);
    d.gltf_source = Some(GltfAssetSourcePatch { gltf_asset_path: "models/a.glb".to_string(), scene_index: 0 });
    let model = api.spawn::<XrdsGltfAsset>(d, Entity(3));
    api.set_gltf_source(&model, "models/b.gltf".to_string(), 0);
    let dispatched = api.apply_surface_updates();
    assert_eq!(dispatched.len(), 1);
    let source = match &dispatched[0].patch {
        XrdsPatch::GltfAssetSource(s) => s.clone(),
        _ => panic!("a source patch was expected"),
    };
    let doc = r#"{"asset":{"version":"2.0"},"scene":0,"scenes":[{"nodes":[0]}],"nodes":[{"name":"root"}]}"#;
    let missing_scene = GltfAssetSourcePatch { gltf_asset_path: "models/b.gltf".to_string(), scene_index: 4 };
    let found = || Some(XrdsGltfFile { path: "assets/models/b.gltf".to_string(), contents: Ok(doc.as_bytes().to_vec()) });
    assert!(matches!(
        api.apply_gltf_source(&model, missing_scene, found()),
        Err(XrdsGltfSourceError::MissingScene { .. })
    ));
    assert_eq!(api.gltf_source(&model).unwrap().gltf_asset_path, "models/a.glb");
    assert_eq!(api.apply_gltf_source(&model, source, found()), Ok(()));
    let now = api.gltf_source(&model).unwrap();
    assert_eq!(now.gltf_asset_path, "models/b.gltf");
    assert_eq!(now.scene_index, 0);
}

#[test]
fn import_keeps_ids_and_parents() {
    let mut api = Api::attach();
    let nodes = vec![
        XrdsImportNode { id: XrdsId(10), parent_id: None, descriptor: descriptor(XrdsDescriptorKind::Node, "R", 0), entity: Some(Entity(1)) },
        XrdsImportNode { id: XrdsId(11), parent_id: Some(XrdsId(10)), descriptor: descriptor(XrdsDescriptorKind::Cube, "C", 0), entity: Some(Entity(2)) },
        XrdsImportNode { id: XrdsId(12), parent_id: Some(XrdsId(10)), descriptor: descriptor(XrdsDescriptorKind::GltfAsset, "G", 0), entity: None },
    ];
    let ids = api.import_runtime_nodes(nodes).unwrap();
    assert_eq!(ids, vec![XrdsId(10), XrdsId(11)]);
    assert_eq!(api.parent_id_of_node(XrdsId(11)), Some(XrdsId(10)));
    assert_eq!(api.entity_of_id(XrdsId(12)), None);
    assert_eq!(api.new_id(), XrdsId(13));
}

#[test]
fn import_stops_at_a_live_id() {
    let mut api = Api::attach();
    node(&mut api, "Existing", 1);
    let nodes = vec![
        XrdsImportNode { id: XrdsId(20), parent_id: None, descriptor: descriptor(XrdsDescriptorKind::Node, "A", 0), entity: Some(Entity(2)) },
        XrdsImportNode { id: XrdsId(1), parent_id: Some(XrdsId(20)), descriptor: descriptor(XrdsDescriptorKind::Node, "B", 0), entity: Some(Entity(3)) },
        XrdsImportNode { id: XrdsId(21), parent_id: None, descriptor: descriptor(XrdsDescriptorKind::Node, "C", 0), entity: Some(Entity(4)) },
    ];
    let r = api.import_runtime_nodes(nodes);
    assert!(matches!(r, Err(XrdsSceneImportError::DuplicateRuntimeId(XrdsId(1)))));
    assert_eq!(api.entity_of_id(XrdsId(20)), Some(Entity(2)));
    assert_eq!(api.entity_of_id(XrdsId(21)), None);
    assert_eq!(api.take_pending_despawns(), vec![Entity(3), Entity(4)]);
}

#[test]
fn the_first_live_anchor_is_the_initial_one() {
    let mut api = Api::attach();
    assert_eq!(api.initial_player_anchor_id(), None);
    node(&mut api, "A", 1);
    node(&mut api, "B", 2);
    api.mark_player_anchor(Entity(9), false);
    api.mark_player_anchor(Entity(2), false);
    api.mark_player_anchor(Entity(1), false);
    assert_eq!(api.initial_player_anchor_id(), Some(XrdsId(2)));
}

#[test]
fn an_anchor_marked_initial_is_preferred() {
    let mut api = Api::attach();
    node(&mut api, "A", 1);
    node(&mut api, "B", 2);
    api.mark_player_anchor(Entity(1), false);
    api.mark_player_anchor(Entity(7), true);
    assert_eq!(api.initial_player_anchor_id(), Some(XrdsId(1)));
    api.mark_player_anchor(Entity(2), true);
    assert_eq!(api.initial_player_anchor_id(), Some(XrdsId(2)));
}

#[test]
fn stopping_sequences_releases_their_locks() {
    let mut api = Api::attach();
    let a = node(&mut api, "A", 1);
    let b = node(&mut api, "B", 2);
    let aid = api.id_of(&a).unwrap();
    api.register_agent(XrdsAgent { entity: Entity(100), target: Entity(1), is_track: true, is_preview: false, paused: false });
    api.register_agent(XrdsAgent { entity: Entity(101), target: Entity(2), is_track: true, is_preview: false, paused: false });
    api.acquire_locks(&[Entity(2)], Entity(100));
    assert_eq!(api.lock_holder_of(Entity(2)), Some(Entity(100)));
    assert_eq!(api.stop_sequences_on(aid), 1);
    assert_eq!(api.lock_holder_of(Entity(2)), None);
    assert_eq!(api.stop_sequences_on(XrdsId(99)), 0);
    assert_eq!(api.stop_all_sequences(), 1);
    assert_eq!(api.take_pending_despawns(), vec![Entity(100), Entity(101)]);
    let _ = b;
}

#[test]
fn an_agent_is_registered_once() {
    let mut api = Api::attach();
    let agent = XrdsAgent { entity: Entity(100), target: Entity(1), is_track: false, is_preview: false, paused: false };
    assert!(api.register_agent(agent));
    assert!(!api.register_agent(agent));
}

#[test]
fn committed_queued_spawns_resolve_and_keep_their_parents() {
    let mut api = Api::attach();
    let parent = node(&mut api, "P", 100);
    let pid = api.id_of(&parent).unwrap();
    let a = api.queue_spawn(descriptor(XrdsDescriptorKind::Node, "A", 0));
    let b = api.queue_spawn(descriptor(XrdsDescriptorKind::Cube, "B", 7));
    let c = api.queue_spawn(descriptor(XrdsDescriptorKind::Node, "C", 0));
    api.queue_set_parent(a, Some(pid));
    assert_eq!(api.queued_spawns().len(), 3);
    assert_eq!(api.queued_spawns()[1].id, b);
    api.commit_queued_spawns(vec![Some(Entity(200)), Some(Entity(201)), None]);
    assert!(api.queued_spawns().is_empty());
    assert_eq!(api.entity_of_id(a), Some(Entity(200)));
    assert_eq!(api.entity_of_id(b), Some(Entity(201)));
    assert_eq!(api.entity_of_id(c), None);
    api.apply_queued_parent_changes();
    assert_eq!(api.parent_id_of_node(a), Some(pid));
    assert_eq!(api.parent_id_of_node(b), None);
    let cube: Handle<XrdsCube> = api.handle_of(b).unwrap();
    assert_eq!(cube.entity(), Entity(201));
}

#[test]
fn deleting_a_middle_child_keeps_the_sibling_order() {
    let mut api = Api::attach();
    let p = node(&mut api, "P", 10);
    let a = node(&mut api, "A", 11);
    let b = node(&mut api, "B", 12);
    let c = node(&mut api, "C", 13);
    let (pid, aid, bid, cid) = (
        api.id_of(&p).unwrap(),
        api.id_of(&a).unwrap(),
        api.id_of(&b).unwrap(),
        api.id_of(&c).unwrap(),
    );
    api.queue_set_parent(aid, Some(pid));
    api.queue_set_parent(bid, Some(pid));
    api.queue_set_parent(cid, Some(pid));
    api.apply_queued_parent_changes();
    assert_eq!(api.children_ids_of_node(pid), vec![aid, bid, cid]);
    assert!(api.delete(&b));
    assert_eq!(api.children_ids_of_node(pid), vec![aid, cid]);
    assert_eq!(api.parent_id_of_node(cid), Some(pid));
}

#[test]
fn a_track_claims_all_its_assets_or_none() {
    let mut api = Api::attach();
    assert!(api.claim_track_assets("Door", &[Entity(5), Entity(3), Entity(5)], Entity(900)));
    assert_eq!(api.lock_holder_of(Entity(3)), Some(Entity(900)));
    assert_eq!(api.lock_holder_of(Entity(5)), Some(Entity(900)));
    assert!(api.last_track_conflict().is_none());

    assert!(!api.claim_track_assets("Lamp", &[Entity(7), Entity(5), Entity(3)], Entity(901)));
    assert_eq!(api.lock_holder_of(Entity(7)), None);
    assert_eq!(api.lock_holder_of(Entity(5)), Some(Entity(900)));
    let conflict = api.last_track_conflict().as_ref().unwrap();
    assert_eq!(conflict.blocked_track, "Lamp");
    assert_eq!(conflict.contended, vec![Entity(3), Entity(5)]);
    assert_eq!(api.take_pending_despawns(), vec![Entity(901)]);

    assert!(api.claim_track_assets("Door again", &[Entity(3), Entity(8)], Entity(900)));
    assert_eq!(api.lock_holder_of(Entity(8)), Some(Entity(900)));
}

#[test]
fn agents_stopped_on_a_node_are_despawned_in_entity_order() {
    let mut api = Api::attach();
    let door = node(&mut api, "Door", 1);
    let lamp = node(&mut api, "Lamp", 2);
    let door_id = api.id_of(&door).unwrap();
    api.register_agent(XrdsAgent { entity: Entity(905), target: Entity(1), is_track: false, is_preview: false, paused: false });
    api.register_agent(XrdsAgent { entity: Entity(907), target: Entity(2), is_track: true, is_preview: false, paused: false });
    api.register_agent(XrdsAgent { entity: Entity(903), target: Entity(2), is_track: true, is_preview: false, paused: false });
    assert!(api.claim_track_assets("Swing", &[Entity(1)], Entity(903)));
    assert_eq!(api.stop_sequences_on(door_id), 2);
    assert_eq!(api.take_pending_despawns(), vec![Entity(903), Entity(905)]);
    assert_eq!(api.lock_holder_of(Entity(1)), None);
    assert_eq!(api.stop_all_sequences(), 1);
    let _ = lamp;
}
