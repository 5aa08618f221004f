use xrds_runtime::ids::{Entity, XrdsId, XrdsIdIndex};
use xrds_runtime::locks::{
    resolve_action_target, sorted_unique, XrdsActionTarget, XrdsTrackAssetLocks, XrdsTriggerRef,
};

fn index_with(pairs: &[(u64, u64)]) -> XrdsIdIndex {
    let mut index = XrdsIdIndex::new();
    for (id, entity) in pairs {
        index.register(XrdsId(*id), Entity(*entity));
    }
    index
}

#[test]
fn action_targets_resolve_against_the_firing() {
    let index = index_with(&[(4, 40)]);
    let me = Entity(1);
    let cause = Some(Entity(2));
    assert_eq!(resolve_action_target(&XrdsActionTarget::SelfNode, me, cause, Some(&index)), Some(me));
    assert_eq!(resolve_action_target(&XrdsActionTarget::TriggerSource, me, cause, Some(&index)), cause);
    assert_eq!(resolve_action_target(&XrdsActionTarget::TriggerSource, me, None, Some(&index)), None);
    assert_eq!(resolve_action_target(&XrdsActionTarget::Node(XrdsId(4)), me, cause, Some(&index)), Some(Entity(40)));
    assert_eq!(resolve_action_target(&XrdsActionTarget::Node(XrdsId(5)), me, cause, Some(&index)), None);
    assert_eq!(resolve_action_target(&XrdsActionTarget::Node(XrdsId(4)), me, cause, None), None);
}

#[test]
fn trigger_refs_resolve_ids_through_the_index() {
    let index = index_with(&[(4, 40)]);
    assert_eq!(XrdsTriggerRef::Id(XrdsId(4)).resolve(&index), Some(Entity(40)));
    assert_eq!(XrdsTriggerRef::Id(XrdsId(9)).resolve(&index), None);
    assert_eq!(XrdsTriggerRef::Entity(Entity(77)).resolve(&index), Some(Entity(77)));
}

#[test]
fn wanted_assets_are_sorted_once_each() {
    assert_eq!(sorted_unique(&[Entity(9), Entity(2), Entity(9), Entity(5), Entity(2)]), vec![Entity(2), Entity(5), Entity(9)]);
    assert!(sorted_unique(&[]).is_empty());
}

#[test]
fn locks_report_conflicts_with_other_agents_only() {
    let mut locks = XrdsTrackAssetLocks::default();
    assert!(locks.is_empty());
    locks.acquire(&[Entity(1), Entity(2)], Entity(100));
    assert_eq!(locks.conflicts(&[Entity(2), Entity(3)], Entity(100)), vec![]);
    assert_eq!(locks.conflicts(&[Entity(2), Entity(3), Entity(1)], Entity(101)), vec![Entity(2), Entity(1)]);
    assert_eq!(locks.holder_of(Entity(1)), Some(Entity(100)));
    let mut held = locks.entities_held_by(Entity(100));
    held.sort_by_key(|e| e.0);
    assert_eq!(held, vec![Entity(1), Entity(2)]);
    locks.release_agent(Entity(100));
    assert!(locks.is_empty());
    assert_eq!(locks.holder_of(Entity(1)), None);
}
