//! Properties that span several operations of the library, stated over the models the
//! operations' own contracts use.
use vstd::prelude::*;
use crate::catalog::{
    distinct_ids, distinct_uris, has_asset_id, has_uri, lemma_merged_catalog_distinct, lemma_rebuilt_catalog_wf,
    merged_catalog, rebuilt_catalog, AssetView, XrdsGltfAssetRef, XrdsSceneAssetKind,
};
use crate::hierarchy::{parent_step, walk};
use crate::ids::{Entity, XrdsId};
use crate::structure::{
    change_order, in_subtree, parents_after_changes, planned_links, relink_parents, requested_parents,
    resolved_parent, QueuedParentChange,
};
use crate::types::DescriptorView;
use crate::types::{patch_kind, QueuedSurfaceComponent, QueuedSurfaceUpdate, XrdsDescriptorKind, XrdsPatchKind};
use crate::world::{
    after_id, agent_entities, dispatchable, stored_after_updates, entities_with_spawns, fresh_id, ids_with_spawns, released, reserved_next,
    spawns_fresh, XrdsAgent, XrdsWorld,
};

verus! {

/// Ids handed out one after the other by the allocator increase, so they never repeat.
pub proof fn law_allocated_ids_increase(ids: Map<u64, u64>, next: u64, first: u64, second: u64)
    requires
        fresh_id(ids, next, first),
        fresh_id(ids, after_id(first), second),
        first < u64::MAX,
    ensures
        first < second,
{
}

/// After a reservation of `id` succeeds, the allocator never hands `id` out.
pub proof fn law_reserved_ids_are_not_allocated(ids: Map<u64, u64>, next: u64, id: u64, handed: u64)
    requires
        id < u64::MAX,
        fresh_id(ids, reserved_next(next, id), handed),
    ensures
        handed != id,
{
}

/// A registered entity and its id resolve to each other.
pub proof fn law_registration_round_trip<D, P>(
    before: XrdsWorld<D, P>,
    after: XrdsWorld<D, P>,
    id: u64,
    descriptor: crate::types::XrdsDescriptor<D>,
    entity: Entity,
)
    requires
        before.registers(after, id, descriptor, entity),
    ensures
        after.ids().contains_key(id) && after.ids()[id] == entity.0,
        after.entities().contains_key(entity.0) && after.entities()[entity.0] == id,
        after.stored()[entity.0] == crate::types::descriptor_view(descriptor),
{
}

/// Deleting a subtree leaves neither its root's id nor its root's entity resolvable.
pub proof fn law_deleted_root_is_gone<D, P>(before: XrdsWorld<D, P>, after: XrdsWorld<D, P>, entity: Entity)
    requires
        before.inv(),
        before.entities().contains_key(entity.0),
        before.deletes_subtree(after, before.entities()[entity.0]),
    ensures
        !after.ids().contains_key(before.entities()[entity.0]),
        !after.entities().contains_key(entity.0),
        !after.stored().contains_key(entity.0),
        !after.parents().contains_key(before.entities()[entity.0]),
{
    let root = before.entities()[entity.0];
    assert(crate::hierarchy::walk(before.parents(), root, 0) == Some(root));
    assert(crate::structure::in_subtree(before.parents(), before.ids(), root, root));
    assert(before.subtree_of(root).contains(root));
    assert(before.subtree_entities(root).contains(entity.0));
}

/// A node asked to become its own parent ends at the root.
pub proof fn law_self_parenting_is_ignored(ids: Map<u64, u64>, p: Map<u64, Option<u64>>, c: u64)
    requires
        ids.contains_key(c),
    ensures
        parent_step(
            parents_after_changes(ids, p, seq![QueuedParentChange { child_id: XrdsId(c), parent_id: Some(XrdsId(c)) }]),
            c,
        ) is None,
{
    reveal_with_fuel(requested_parents, 3);
    reveal_with_fuel(change_order, 3);
    reveal_with_fuel(planned_links, 2);
    reveal_with_fuel(relink_parents, 2);
    let change = QueuedParentChange { child_id: XrdsId(c), parent_id: Some(XrdsId(c)) };
    let changes = seq![change];
    assert(changes.drop_last() =~= Seq::<QueuedParentChange>::empty());
    assert(changes.last() == change);
    let r = requested_parents(p, changes);
    assert(requested_parents(p, changes.drop_last()) == p);
    assert(r == p.insert(c, Some(c)));
    assert(change_order(changes.drop_last()) =~= Seq::<u64>::empty());
    assert(change_order(changes) =~= seq![c]);
    assert(resolved_parent(ids, r, c) is None);
    assert(seq![c].drop_last() =~= Seq::<u64>::empty());
    assert(seq![c].last() == c);
    assert(planned_links(ids, r, seq![c]) =~= seq![(c, None::<u64>)]);
    assert(seq![(c, None::<u64>)].drop_last() =~= Seq::<(u64, Option<u64>)>::empty());
    assert(relink_parents(p, seq![(c, None::<u64>)]) == crate::hierarchy::set_parent_parents(p, c, None));
}

/// Within one batch the last request for a child wins: an earlier request for the same
/// child changes nothing.
pub proof fn law_last_parent_request_wins(
    ids: Map<u64, u64>,
    p: Map<u64, Option<u64>>,
    c: u64,
    first: Option<XrdsId>,
    last: Option<XrdsId>,
)
    ensures
        parents_after_changes(ids, p, seq![
            QueuedParentChange { child_id: XrdsId(c), parent_id: first },
            QueuedParentChange { child_id: XrdsId(c), parent_id: last },
        ]) == parents_after_changes(ids, p, seq![QueuedParentChange { child_id: XrdsId(c), parent_id: last }]),
{
    reveal_with_fuel(requested_parents, 3);
    reveal_with_fuel(change_order, 3);
    reveal_with_fuel(planned_links, 2);
    reveal_with_fuel(relink_parents, 2);
    let a = QueuedParentChange { child_id: XrdsId(c), parent_id: first };
    let b = QueuedParentChange { child_id: XrdsId(c), parent_id: last };
    let two = seq![a, b];
    let one = seq![b];
    assert(two.drop_last() =~= seq![a]);
    assert(seq![a].drop_last() =~= Seq::<QueuedParentChange>::empty());
    assert(one.drop_last() =~= Seq::<QueuedParentChange>::empty());
    assert(requested_parents(p, two) =~= requested_parents(p, one));
    assert(change_order(seq![a]) =~= seq![c]);
    assert(seq![c][0] == c);
    assert(seq![c].contains(c));
    assert(two.last() == b);
    assert(change_order(two) =~= seq![c]);
    assert(change_order(one) =~= seq![c]);
}

/// Merging keeps every entry already in the catalog, in place.
pub proof fn law_merge_keeps_existing_entries(incoming: Seq<AssetView>, catalog: Seq<AssetView>)
    ensures
        merged_catalog(incoming, catalog).len() >= catalog.len(),
        merged_catalog(incoming, catalog).take(catalog.len() as int) == catalog,
    decreases incoming.len(),
{
    if incoming.len() > 0 {
        law_merge_keeps_existing_entries(incoming.drop_last(), catalog);
        let m = merged_catalog(incoming.drop_last(), catalog);
        assert(m.push(incoming.last()).take(catalog.len() as int) =~= m.take(catalog.len() as int));
    }
}

/// After a merge, every incoming id is in the catalog.
pub proof fn law_merge_covers_incoming(incoming: Seq<AssetView>, catalog: Seq<AssetView>)
    ensures
        forall|i: int| 0 <= i < incoming.len() ==> has_asset_id(merged_catalog(incoming, catalog), #[trigger] incoming[i].0),
    decreases incoming.len(),
{
    if incoming.len() > 0 {
        let l = incoming.drop_last();
        law_merge_covers_incoming(l, catalog);
        let m = merged_catalog(l, catalog);
        assert forall|i: int| 0 <= i < incoming.len() implies has_asset_id(merged_catalog(incoming, catalog), #[trigger] incoming[i].0) by {
            if i < l.len() {
                assert(incoming[i] == l[i]);
                assert(has_asset_id(m, l[i].0));
                let j = choose|j: int| 0 <= j < m.len() && #[trigger] m[j].0 == l[i].0;
                if !has_asset_id(m, incoming.last().0) {
                    assert(m.push(incoming.last())[j] == m[j]);
                }
            } else {
                if !has_asset_id(m, incoming.last().0) {
                    assert(m.push(incoming.last())[m.len() as int] == incoming.last());
                }
            }
        }
    }
}

/// A catalog that already holds every incoming id is left as it is by a merge.
pub proof fn law_merge_of_present_ids_changes_nothing(incoming: Seq<AssetView>, catalog: Seq<AssetView>)
    requires
        forall|i: int| 0 <= i < incoming.len() ==> has_asset_id(catalog, #[trigger] incoming[i].0),
    ensures
        merged_catalog(incoming, catalog) == catalog,
    decreases incoming.len(),
{
    if incoming.len() > 0 {
        let l = incoming.drop_last();
        assert forall|i: int| 0 <= i < l.len() implies has_asset_id(catalog, #[trigger] l[i].0) by {
            assert(l[i] == incoming[i]);
        }
        law_merge_of_present_ids_changes_nothing(l, catalog);
        assert(has_asset_id(catalog, incoming[incoming.len() - 1].0));
    }
}

/// Merging the same assets twice is merging them once.
pub proof fn law_merge_is_idempotent(incoming: Seq<AssetView>, catalog: Seq<AssetView>)
    ensures
        merged_catalog(incoming, merged_catalog(incoming, catalog)) == merged_catalog(incoming, catalog),
{
    law_merge_covers_incoming(incoming, catalog);
    law_merge_of_present_ids_changes_nothing(incoming, merged_catalog(incoming, catalog));
}

/// The catalog a scene export writes never holds two entries with one id, whatever the
/// runtime catalog held.
pub proof fn law_exported_catalog_ids_are_unique(catalog: Seq<AssetView>, refs: Seq<XrdsGltfAssetRef>)
    ensures
        distinct_ids(merged_catalog(catalog, rebuilt_catalog(refs).0)),
{
    lemma_rebuilt_catalog_wf(refs);
    lemma_merged_catalog_distinct(catalog, rebuilt_catalog(refs).0);
}

/// The catalog rebuilt from glTF nodes has exactly one glTF entry for each file the nodes
/// refer to.
pub proof fn law_rebuilt_catalog_has_one_entry_per_file(refs: Seq<XrdsGltfAssetRef>)
    ensures
        distinct_uris(rebuilt_catalog(refs).0),
        forall|i: int| 0 <= i < refs.len() ==> has_uri(rebuilt_catalog(refs).0, (#[trigger] refs[i]).uri@),
        forall|j: int| 0 <= j < rebuilt_catalog(refs).0.len() ==> {
            &&& (#[trigger] rebuilt_catalog(refs).0[j]).2 == XrdsSceneAssetKind::Gltf
            &&& exists|i: int| 0 <= i < refs.len() && rebuilt_catalog(refs).0[j].1 == #[trigger] refs[i].uri@
        },
    decreases refs.len(),
{
    lemma_rebuilt_catalog_wf(refs);
    if refs.len() > 0 {
        let l = refs.drop_last();
        law_rebuilt_catalog_has_one_entry_per_file(l);
        let prev = rebuilt_catalog(l).0;
        let cur = rebuilt_catalog(refs).0;
        let r = refs.last();
        assert(cur == prev || cur == prev.push((cur.last().0, r.uri@, XrdsSceneAssetKind::Gltf)));
        assert(has_uri(prev, r.uri@) ==> cur == prev);
        assert forall|u: Seq<char>| has_uri(prev, u) implies has_uri(cur, u) by {
            let j = choose|j: int| 0 <= j < prev.len() && #[trigger] prev[j].1 == u;
            assert(cur[j] == prev[j]);
        }
        assert(has_uri(cur, r.uri@)) by {
            if !has_uri(prev, r.uri@) {
                assert(cur[prev.len() as int].1 == r.uri@);
            }
        }
        assert forall|i: int| 0 <= i < refs.len() implies has_uri(cur, (#[trigger] refs[i]).uri@) by {
            if i < l.len() {
                assert(refs[i] == l[i]);
            }
        }
        assert forall|j: int| 0 <= j < cur.len() implies {
            &&& (#[trigger] cur[j]).2 == XrdsSceneAssetKind::Gltf
            &&& exists|i: int| 0 <= i < refs.len() && cur[j].1 == #[trigger] refs[i].uri@
        } by {
            if j < prev.len() {
                assert(cur[j] == prev[j]);
                let i = choose|i: int| 0 <= i < l.len() && prev[j].1 == #[trigger] l[i].uri@;
                assert(refs[i] == l[i]);
            } else {
                assert(cur[j].1 == refs[refs.len() - 1].uri@);
            }
        }
    }
}

/// Once committed, every realized queued spawn resolves from its queued id to its entity
/// and back, and what was registered before stays registered.
pub proof fn law_committed_spawns_resolve<D>(ids: Map<u64, u64>, entities: Map<u64, u64>, spawns: Seq<(QueuedSurfaceComponent<D>, Entity)>)
    requires
        spawns_fresh(ids, entities, spawns),
    ensures
        forall|i: int| 0 <= i < spawns.len() ==> {
            &&& ids_with_spawns(ids, spawns).contains_key((#[trigger] spawns[i]).0.id.0)
            &&& ids_with_spawns(ids, spawns)[spawns[i].0.id.0] == spawns[i].1.0
            &&& entities_with_spawns(entities, spawns).contains_key(spawns[i].1.0)
            &&& entities_with_spawns(entities, spawns)[spawns[i].1.0] == spawns[i].0.id.0
        },
        forall|x: u64| #[trigger] ids.contains_key(x) ==> ids_with_spawns(ids, spawns).contains_key(x) && ids_with_spawns(ids, spawns)[x] == ids[x],
        forall|e: u64| #[trigger] entities.contains_key(e) ==> entities_with_spawns(entities, spawns).contains_key(e) && entities_with_spawns(entities, spawns)[e] == entities[e],
    decreases spawns.len(),
{
    if spawns.len() > 0 {
        let l = spawns.drop_last();
        assert(spawns_fresh(ids, entities, l)) by {
            assert forall|i: int| 0 <= i < l.len() implies !ids.contains_key((#[trigger] l[i]).0.id.0) && !entities.contains_key(l[i].1.0) by {
                assert(l[i] == spawns[i]);
            }
            assert forall|i: int, j: int| 0 <= i < j < l.len() implies (#[trigger] l[i]).0.id != (#[trigger] l[j]).0.id && l[i].1 != l[j].1 by {
                assert(l[i] == spawns[i] && l[j] == spawns[j]);
            }
        }
        law_committed_spawns_resolve(ids, entities, l);
        let last = spawns.last();
        assert(!ids.contains_key(last.0.id.0) && !entities.contains_key(last.1.0)) by {
            assert(spawns[spawns.len() - 1] == last);
        }
        assert forall|i: int| 0 <= i < spawns.len() implies {
            &&& ids_with_spawns(ids, spawns).contains_key((#[trigger] spawns[i]).0.id.0)
            &&& ids_with_spawns(ids, spawns)[spawns[i].0.id.0] == spawns[i].1.0
            &&& entities_with_spawns(entities, spawns).contains_key(spawns[i].1.0)
            &&& entities_with_spawns(entities, spawns)[spawns[i].1.0] == spawns[i].0.id.0
        } by {
            if i < l.len() {
                assert(l[i] == spawns[i]);
                assert(spawns[i].0.id != spawns[spawns.len() - 1].0.id && spawns[i].1 != spawns[spawns.len() - 1].1);
            }
        }
    }
}

/// Once agents are stopped, none of them holds a lock.
pub proof fn law_stopped_agents_hold_nothing(held: Map<u64, u64>, stopped: Seq<XrdsAgent>)
    ensures
        forall|e: u64| #[trigger] released(held, stopped).contains_key(e) ==> !agent_entities(stopped).contains(Entity(released(held, stopped)[e])),
        forall|e: u64| #[trigger] released(held, stopped).contains_key(e) ==> held.contains_key(e) && released(held, stopped)[e] == held[e],
{
}

/// A subtree whose root is stored under a descriptor kind without a registered clone cannot
/// be duplicated: `duplicate` gives `None` for it and plans nothing.
pub proof fn law_duplicate_needs_a_clone<D: Clone, P>(w: XrdsWorld<D, P>, root: u64)
    requires
        w.ids().contains_key(root),
        w.stored().contains_key(w.ids()[root]),
        !w.cloner_kinds().contains(w.stored()[w.ids()[root]].kind),
    ensures
        !w.subtree_clonable(root),
{
    assert(walk(w.parents(), root, 0) == Some(root));
    assert(in_subtree(w.parents(), w.ids(), root, root));
    assert(w.subtree_of(root).contains(root));
}

/// A flush hands on every queued update whose descriptor kind and patch kind have a
/// registered updater, in queue order: when all of them have one, all are handed on, each
/// once, in the order they were queued.
pub proof fn law_registered_updates_are_all_dispatched<P>(updates: Seq<QueuedSurfaceUpdate<P>>, pairs: Set<(XrdsDescriptorKind, XrdsPatchKind)>)
    requires
        forall|i: int| 0 <= i < updates.len() ==> pairs.contains((#[trigger] updates[i].component_type, patch_kind(updates[i].patch))),
    ensures
        dispatchable(updates, pairs) == updates,
    decreases updates.len(),
{
    if updates.len() > 0 {
        let init = updates.drop_last();
        assert forall|i: int| 0 <= i < init.len() implies pairs.contains((#[trigger] init[i].component_type, patch_kind(init[i].patch))) by {
            assert(init[i] == updates[i]);
        }
        law_registered_updates_are_all_dispatched(init, pairs);
        assert(updates.last() == updates[updates.len() - 1]);
        assert(init.push(updates.last()) =~= updates);
    }
}

/// A registered node with no descriptor children below it can be duplicated exactly when
/// its descriptor kind has a registered clone: before `register_descriptor_clone` for its
/// kind `duplicate` gives `None`, after it a plan.
pub proof fn law_leaf_duplicates_with_a_clone<D: Clone, P>(w: XrdsWorld<D, P>, root: u64)
    requires
        w.ids().contains_key(root),
        w.stored().contains_key(w.ids()[root]),
        w.subtree_of(root) == set![root],
    ensures
        w.subtree_clonable(root) <==> w.cloner_kinds().contains(w.stored()[w.ids()[root]].kind),
{
    assert(w.subtree_of(root).contains(root));
}

/// The geometry patch each built-in mesh descriptor type is updated by.
pub open spec fn own_geometry(k: XrdsDescriptorKind) -> Option<XrdsPatchKind> {
    match k {
        XrdsDescriptorKind::Cube => Some(XrdsPatchKind::CubeGeometry),
        XrdsDescriptorKind::Cylinder => Some(XrdsPatchKind::CylinderGeometry),
        XrdsDescriptorKind::Sphere => Some(XrdsPatchKind::SphereGeometry),
        XrdsDescriptorKind::Plane3D => Some(XrdsPatchKind::Plane3DGeometry),
        XrdsDescriptorKind::Tetrahedron => Some(XrdsPatchKind::TetrahedronGeometry),
        _ => None,
    }
}

/// The parameter patch each built-in light descriptor type is updated by.
pub open spec fn own_light_params(k: XrdsDescriptorKind) -> Option<XrdsPatchKind> {
    match k {
        XrdsDescriptorKind::PointLight => Some(XrdsPatchKind::PointLightParams),
        XrdsDescriptorKind::DirectionalLight => Some(XrdsPatchKind::DirectionalLightParams),
        XrdsDescriptorKind::SpotLight => Some(XrdsPatchKind::SpotLightParams),
        XrdsDescriptorKind::AmbientLight => Some(XrdsPatchKind::AmbientLightParams),
        _ => None,
    }
}

/// Whether `p` changes the geometry of a mesh.
pub open spec fn is_geometry_patch(p: XrdsPatchKind) -> bool {
    ||| p == XrdsPatchKind::CubeGeometry
    ||| p == XrdsPatchKind::CylinderGeometry
    ||| p == XrdsPatchKind::CapsuleGeometry
    ||| p == XrdsPatchKind::SphereGeometry
    ||| p == XrdsPatchKind::Plane3DGeometry
    ||| p == XrdsPatchKind::TetrahedronGeometry
}

/// Out of the box, every built-in mesh type is updated by its own geometry patch and by
/// color and material patches, every built-in light type by its own parameter patch, and
/// nothing else by a geometry patch; the camera takes projection and look-at patches, a glTF
/// asset its source patch; and every one of them, and plain nodes, take transform, parent,
/// name and visibility patches.
pub proof fn law_fresh_world_updaters<D, P>(w: XrdsWorld<D, P>)
    requires
        w.is_fresh(),
    ensures
        forall|k: XrdsDescriptorKind| #[trigger] own_geometry(k) is Some ==> {
            &&& w.updater_pairs().contains((k, own_geometry(k)->0))
            &&& w.updater_pairs().contains((k, XrdsPatchKind::Color))
            &&& w.updater_pairs().contains((k, XrdsPatchKind::MaterialParams))
        },
        forall|k: XrdsDescriptorKind, p: XrdsPatchKind| #[trigger] w.updater_pairs().contains((k, p)) && is_geometry_patch(p)
            ==> own_geometry(k) == Some(p),
        forall|k: XrdsDescriptorKind| #[trigger] own_light_params(k) is Some ==> w.updater_pairs().contains((k, own_light_params(k)->0)),
        forall|k: XrdsDescriptorKind| (#[trigger] own_geometry(k) is Some || own_light_params(k) is Some
            || k == XrdsDescriptorKind::Node || k == XrdsDescriptorKind::Camera || k == XrdsDescriptorKind::GltfAsset) ==> {
            &&& w.updater_pairs().contains((k, XrdsPatchKind::Transform))
            &&& w.updater_pairs().contains((k, XrdsPatchKind::Parent))
            &&& w.updater_pairs().contains((k, XrdsPatchKind::Name))
            &&& w.updater_pairs().contains((k, XrdsPatchKind::Visibility))
        },
        w.updater_pairs().contains((XrdsDescriptorKind::Camera, XrdsPatchKind::CameraProjection)),
        w.updater_pairs().contains((XrdsDescriptorKind::Camera, XrdsPatchKind::CameraLookAt)),
        w.updater_pairs().contains((XrdsDescriptorKind::GltfAsset, XrdsPatchKind::GltfAssetSource)),
{
}

/// Out of the box, a queued update of a built-in mesh type's own geometry patch is handed
/// on by a flush, after the updates queued before it.
pub proof fn law_fresh_world_dispatches_geometry<D, P>(w: XrdsWorld<D, P>, updates: Seq<QueuedSurfaceUpdate<P>>, u: QueuedSurfaceUpdate<P>)
    requires
        w.is_fresh(),
        own_geometry(u.component_type) == Some(patch_kind(u.patch)),
    ensures
        dispatchable(updates.push(u), w.updater_pairs()) == dispatchable(updates, w.updater_pairs()).push(u),
{
    law_fresh_world_updaters(w);
    assert(updates.push(u).drop_last() =~= updates);
}

/// Out of the box, every built-in node, camera, glTF, mesh, effect, light, audio and text
/// descriptor type can be cloned for duplication.
pub proof fn law_fresh_world_cloners<D, P>(w: XrdsWorld<D, P>)
    requires
        w.is_fresh(),
    ensures
        w.cloner_kinds().contains(XrdsDescriptorKind::Node),
        w.cloner_kinds().contains(XrdsDescriptorKind::Camera),
        w.cloner_kinds().contains(XrdsDescriptorKind::GltfAsset),
        w.cloner_kinds().contains(XrdsDescriptorKind::Cube),
        w.cloner_kinds().contains(XrdsDescriptorKind::Cylinder),
        w.cloner_kinds().contains(XrdsDescriptorKind::Capsule),
        w.cloner_kinds().contains(XrdsDescriptorKind::Effect),
        w.cloner_kinds().contains(XrdsDescriptorKind::Sphere),
        w.cloner_kinds().contains(XrdsDescriptorKind::Plane3D),
        w.cloner_kinds().contains(XrdsDescriptorKind::Tetrahedron),
        w.cloner_kinds().contains(XrdsDescriptorKind::PointLight),
        w.cloner_kinds().contains(XrdsDescriptorKind::DirectionalLight),
        w.cloner_kinds().contains(XrdsDescriptorKind::SpotLight),
        w.cloner_kinds().contains(XrdsDescriptorKind::AmbientLight),
        w.cloner_kinds().contains(XrdsDescriptorKind::AudioClip),
        w.cloner_kinds().contains(XrdsDescriptorKind::Text),
        w.cloner_kinds().contains(XrdsDescriptorKind::ExtrudedText),
{
}

/// Updates never add or drop a stored descriptor, nor change its type, payload or source.
pub proof fn law_flush_keeps_descriptors<D, P>(stored: Map<u64, DescriptorView<D>>, updates: Seq<QueuedSurfaceUpdate<P>>)
    ensures
        forall|x: u64| #[trigger] stored_after_updates(stored, updates).contains_key(x) == stored.contains_key(x),
        forall|x: u64| stored.contains_key(x) ==> {
            &&& #[trigger] stored_after_updates(stored, updates)[x].kind == stored[x].kind
            &&& stored_after_updates(stored, updates)[x].payload == stored[x].payload
            &&& stored_after_updates(stored, updates)[x].gltf_source == stored[x].gltf_source
        },
    decreases updates.len(),
{
    if updates.len() > 0 {
        law_flush_keeps_descriptors(stored, updates.drop_last());
    }
}

/// After a flush, a stored descriptor is named by the last name patch handed on for its
/// entity and its type, whatever came before or after it for other entities, and whatever
/// other patches for it came after.
pub proof fn law_flush_applies_last_name<D, P>(stored: Map<u64, DescriptorView<D>>, updates: Seq<QueuedSurfaceUpdate<P>>, i: int)
    requires
        0 <= i < updates.len(),
        updates[i].patch is Name,
        stored.contains_key(updates[i].entity.0),
        stored[updates[i].entity.0].kind == updates[i].component_type,
        forall|j: int| i < j < updates.len() && (#[trigger] updates[j]).entity == updates[i].entity ==> !(updates[j].patch is Name),
    ensures
        stored_after_updates(stored, updates).contains_key(updates[i].entity.0),
        stored_after_updates(stored, updates)[updates[i].entity.0].name == updates[i].patch->Name_0.name@,
    decreases updates.len(),
{
    let e = updates[i].entity.0;
    let init = updates.drop_last();
    law_flush_keeps_descriptors(stored, init);
    if i < updates.len() - 1 {
        assert forall|j: int| i < j < init.len() && (#[trigger] init[j]).entity == init[i].entity implies !(init[j].patch is Name) by {
            assert(init[j] == updates[j]);
        }
        assert(init[i] == updates[i]);
        law_flush_applies_last_name(stored, init, i);
        let u = updates.last();
        assert(u == updates[updates.len() - 1]);
    }
}

/// After a flush, a stored descriptor is shown or hidden by the last visibility patch handed
/// on for its entity and its type.
pub proof fn law_flush_applies_last_visibility<D, P>(stored: Map<u64, DescriptorView<D>>, updates: Seq<QueuedSurfaceUpdate<P>>, i: int)
    requires
        0 <= i < updates.len(),
        updates[i].patch is Visibility,
        stored.contains_key(updates[i].entity.0),
        stored[updates[i].entity.0].kind == updates[i].component_type,
        forall|j: int| i < j < updates.len() && (#[trigger] updates[j]).entity == updates[i].entity ==> !(updates[j].patch is Visibility),
    ensures
        stored_after_updates(stored, updates).contains_key(updates[i].entity.0),
        stored_after_updates(stored, updates)[updates[i].entity.0].visible == updates[i].patch->Visibility_0.visible,
    decreases updates.len(),
{
    let init = updates.drop_last();
    law_flush_keeps_descriptors(stored, init);
    if i < updates.len() - 1 {
        assert forall|j: int| i < j < init.len() && (#[trigger] init[j]).entity == init[i].entity implies !(init[j].patch is Visibility) by {
            assert(init[j] == updates[j]);
        }
        assert(init[i] == updates[i]);
        law_flush_applies_last_visibility(stored, init, i);
        let u = updates.last();
        assert(u == updates[updates.len() - 1]);
    }
}

} // verus!
