use xrds_runtime::context::XrdsUpdateContext;
use xrds_runtime::ids::{Entity, XrdsId};
use xrds_runtime::types::{XrdsDescriptor, XrdsDescriptorKind, XrdsNode, XrdsSceneImportError, XrdsText};
use xrds_runtime::world::{XrdsAgent, XrdsImportNode, XrdsKey, XrdsKeyboard, XrdsWorld};

type World = XrdsWorld<u32, u32>;

fn descriptor(kind: XrdsDescriptorKind, name: &str, payload: u32) -> XrdsDescriptor<u32> {
    XrdsDescriptor { kind, name: name.to_string(), visible: true, gltf_source: None, payload }
}

fn agent(entity: u64, target: u64, is_preview: bool) -> XrdsAgent {
    XrdsAgent { entity: Entity(entity), target: Entity(target), is_track: true, is_preview, paused: false }
}

#[test]
fn keyboard_state_is_read_through_the_context() {
    let mut world = World::new();
    world.set_keyboard(Some(XrdsKeyboard { pressed: vec![XrdsKey(4), XrdsKey(7)], just_pressed: vec![XrdsKey(7)] }));
    let ctx = XrdsUpdateContext::new(world);
    assert!(ctx.key_pressed(XrdsKey(4)));
    assert!(ctx.key_pressed(XrdsKey(7)));
    assert!(!ctx.key_just_pressed(XrdsKey(4)));
    assert!(ctx.key_just_pressed(XrdsKey(7)));
    assert!(!ctx.key_pressed(XrdsKey(9)));
}

#[test]
fn without_a_keyboard_no_key_is_pressed() {
    let ctx = XrdsUpdateContext::new(World::new());
    assert!(!ctx.key_pressed(XrdsKey(1)));
    assert!(!ctx.key_just_pressed(XrdsKey(1)));
}

#[test]
fn ids_and_text_params_are_read_through_the_context() {
    let mut world = World::new();
    let text = world.spawn::<XrdsText>(descriptor(XrdsDescriptorKind::Text, "Label", 42), Entity(20));
    let ctx = XrdsUpdateContext::new(world);
    assert_eq!(ctx.id_of(&text), Some(XrdsId(1)));
    assert_eq!(ctx.entity_of_id(XrdsId(1)), Some(Entity(20)));
    assert_eq!(ctx.text_params(&text), Some(&42));
    let world = ctx.finish();
    assert_eq!(world.entity_of_id(XrdsId(1)), Some(Entity(20)));
}

#[test]
fn preview_transport_pauses_and_stops_only_the_preview() {
    let mut world = World::new();
    world.spawn::<XrdsNode>(descriptor(XrdsDescriptorKind::Node, "Door", 0), Entity(30));
    world.spawn::<XrdsNode>(descriptor(XrdsDescriptorKind::Node, "Lamp", 0), Entity(31));
    assert!(world.register_agent(agent(900, 30, false)));
    assert!(world.register_agent(agent(901, 31, true)));
    world.acquire_locks(&[Entity(30)], Entity(900));
    world.acquire_locks(&[Entity(31)], Entity(901));

    let mut ctx = XrdsUpdateContext::new(world);
    assert!(ctx.preview_pause_track(true));
    let stopped = ctx.preview_stop_track();
    assert_eq!(stopped, vec![XrdsId(2)]);
    assert!(!ctx.preview_pause_track(false));
    assert!(ctx.preview_stop_track().is_empty());

    let mut world = ctx.finish();
    assert_eq!(world.lock_holder_of(Entity(31)), None);
    assert_eq!(world.lock_holder_of(Entity(30)), Some(Entity(900)));
    assert_eq!(world.take_pending_despawns(), vec![Entity(901)]);
}

fn import_node(id: u64, parent: Option<u64>, entity: Option<u64>) -> XrdsImportNode<u32> {
    XrdsImportNode {
        id: XrdsId(id),
        parent_id: parent.map(XrdsId),
        descriptor: descriptor(XrdsDescriptorKind::Node, "N", 0),
        entity: entity.map(Entity),
    }
}

#[test]
fn reimport_replaces_every_registered_entity() {
    let mut world = World::new();
    world.spawn::<XrdsNode>(descriptor(XrdsDescriptorKind::Node, "Old", 0), Entity(10));
    world.spawn::<XrdsNode>(descriptor(XrdsDescriptorKind::Node, "Older", 0), Entity(11));
    world.mark_player_anchor(Entity(11), true);
    world.mark_player_anchor(Entity(99), false);
    let mut ctx = XrdsUpdateContext::new(world);
    ctx.begin_reimport(&[]);
    assert_eq!(ctx.entity_of_id(XrdsId(1)), None);
    assert!(ctx.reimport_node(import_node(5, Some(7), Some(50))));
    assert!(!ctx.reimport_node(import_node(6, None, None)));
    assert!(ctx.reimport_node(import_node(7, None, Some(70))));
    assert!(!ctx.reimport_node(import_node(7, None, Some(71))));
    ctx.apply_queued_parent_changes();
    let mut world = ctx.finish();
    let mut despawned = world.take_pending_despawns();
    despawned.sort_by_key(|e| e.0);
    assert_eq!(despawned, vec![Entity(10), Entity(11)]);
    assert_eq!(world.entity_of_id(XrdsId(5)), Some(Entity(50)));
    assert_eq!(world.entity_of_id(XrdsId(7)), Some(Entity(70)));
    assert_eq!(world.parent_id_of(XrdsId(5)), Some(XrdsId(7)));
    assert_eq!(world.new_id(), XrdsId(8));
    world.spawn::<XrdsNode>(descriptor(XrdsDescriptorKind::Node, "Anchor", 0), Entity(99));
    assert_eq!(world.initial_player_anchor_id(), Some(XrdsId(9)));
}

#[test]
fn a_single_document_node_joins_the_live_scene() {
    let mut world = World::new();
    let root = world.spawn::<XrdsNode>(descriptor(XrdsDescriptorKind::Node, "Root", 0), Entity(10));
    let mut ctx = XrdsUpdateContext::new(world);
    let root_id = ctx.id_of(&root).unwrap();
    assert_eq!(ctx.spawn_document_node(import_node(4, Some(root_id.0), Some(40))), Ok(XrdsId(4)));
    assert_eq!(
        ctx.spawn_document_node(import_node(4, None, Some(41))),
        Err(XrdsSceneImportError::DuplicateRuntimeId(XrdsId(4)))
    );
    assert_eq!(
        ctx.spawn_document_node(import_node(5, None, None)),
        Err(XrdsSceneImportError::InvalidDocument("spawn returned None for XrdsId(5)".to_string()))
    );
    let mut world = ctx.finish();
    assert_eq!(world.parent_id_of(XrdsId(4)), Some(root_id));
    assert_eq!(world.child_ids_of(root_id), vec![XrdsId(4)]);
    assert_eq!(world.take_pending_despawns(), vec![Entity(41)]);
    assert_eq!(world.new_id(), XrdsId(6));
}

#[test]
fn one_preview_runs_at_a_time() {
    let mut world = World::new();
    world.spawn::<XrdsNode>(descriptor(XrdsDescriptorKind::Node, "Door", 0), Entity(30));
    assert!(world.register_agent(agent(901, 30, true)));
    assert!(!world.register_agent(agent(902, 30, true)));
    assert!(world.register_agent(agent(903, 30, false)));
    let mut ctx = XrdsUpdateContext::new(world);
    ctx.preview_stop_track();
    assert!(!ctx.preview_pause_track(true));
    let mut world = ctx.finish();
    assert!(world.register_agent(agent(902, 30, true)));
    assert_eq!(world.take_pending_despawns(), vec![Entity(901)]);
}
