//! The XRDS-owned part of a runtime world: the id and hierarchy indices, the queues of
//! pending spawns, parent changes and patches, the registries that decide dispatch, and the
//! engine work (parent links, despawns) that decisions leave for the engine to carry out.
use std::collections::HashMap;
use vstd::prelude::*;
use crate::ids::{Entity, Handle, XrdsId, XrdsIdAllocator, XrdsIdIndex};
use crate::hierarchy::{acyclic, hierarchy_wf, parent_step, XrdsHierarchyIndex};
use crate::paths::duplicate_name;
use crate::types::{not_realized, not_realized_text, copy_gltf_source, descriptor_view, source_view, DescriptorView, GltfAssetSourcePatch, XrdsComponentType, XrdsGltfAsset};
use crate::structure::{
    apply_parent_changes, children_after_changes, links_match, links_registered,
    parents_after_changes, planned_links, requested_parents, change_order, QueuedParentChange,
    XrdsParentLink, lemma_changes_keep_forest, lemma_fewer_links_acyclic, raw_id, raw_ids,
    collect_subtree_ids, entities_of, ids_of_entities, in_subtree, lemma_entities_of, lemma_removals_effect,
    lemma_removals_keep_forest, lemma_removals_children, seq_minus, lemma_entities_of_registered, registered_ids, unregister_entities, attach_change, hangs_under,
    lemma_leaf_attach, parent_earlier,
};
use crate::registry::{
    common_updater_pairs, default_cloner_kinds, default_interpreter_kinds, default_recipe_kinds, default_updater_pairs,
    register_default_descriptor_cloners, register_default_interpreters, register_default_updaters,
    SurfaceDescriptorRegistry, SurfaceInterpreterRegistry, SurfaceUpdateRegistry,
};
use crate::types::{
    patch_kind, QueuedSurfaceComponent, QueuedSurfaceUpdate, XrdsDescriptor, XrdsDescriptorKind, XrdsPatch,
    XrdsPatchKind, XrdsSceneImportError,
};
use crate::catalog::{
    assets_view, merge_asset_catalogs, merge_imported_asset_catalog, merged_catalog, rebuilt_catalog,
    reconstruct_asset_catalog, resolve_asset_uri, resolved_uri, name_of, AssetView, XrdsGltfAssetRef,
    XrdsSceneAsset, XrdsSceneAssetKind,
};
use crate::gltf_source::{source_verdict, validate_gltf_source, XrdsGltfFile, XrdsGltfSourceError};
use crate::locks::{increasing, lemma_conflicting, sorted_unique, XrdsTrackAssetLocks, XrdsTrackConflict};
use crate::panel::XrdsPanelElementIndex;

verus! {

broadcast use vstd::std_specs::hash::group_hash_axioms;

/// A keyboard key, by key code.
#[derive(Clone, Copy, Debug, PartialEq, Eq, Structural)]
pub struct XrdsKey(pub u32);

/// Keyboard state of the current frame.
pub struct XrdsKeyboard {
    pub pressed: Vec<XrdsKey>,
    pub just_pressed: Vec<XrdsKey>,
}

/// A running sequence or track agent.
#[derive(Clone, Copy, Debug, PartialEq, Eq, Structural)]
pub struct XrdsAgent {
    pub entity: Entity,
    pub target: Entity,
    pub is_track: bool,
    pub is_preview: bool,
    pub paused: bool,
}

/// The updates of `updates` that have an updater, in order.
pub open spec fn dispatchable<P>(
    updates: Seq<QueuedSurfaceUpdate<P>>,
    pairs: Set<(XrdsDescriptorKind, XrdsPatchKind)>,
) -> Seq<QueuedSurfaceUpdate<P>>
    decreases updates.len(),
{
    if updates.len() == 0 {
        Seq::empty()
    } else {
        let r = dispatchable(updates.drop_last(), pairs);
        let u = updates.last();
        if pairs.contains((u.component_type, patch_kind(u.patch))) {
            r.push(u)
        } else {
            r
        }
    }
}

/// The two directions of the id index are inverse to each other.
pub open spec fn ids_consistent(ids: Map<u64, u64>, entities: Map<u64, u64>) -> bool {
    &&& forall|x: u64| #[trigger] ids.contains_key(x) ==> entities.contains_key(ids[x]) && entities[ids[x]] == x
    &&& forall|e: u64| #[trigger] entities.contains_key(e) ==> ids.contains_key(entities[e]) && ids[entities[e]] == e
}

/// `id` is what the allocator hands out next: not live, at or after `next`, and every id
/// between `next` and it is live.
pub open spec fn fresh_id(ids: Map<u64, u64>, next: u64, id: u64) -> bool {
    &&& !ids.contains_key(id)
    &&& id >= next
    &&& forall|k: u64| next <= k < id ==> ids.contains_key(k)
}

/// The allocator's next candidate after handing out `id`.
pub open spec fn after_id(id: u64) -> u64 {
    if id == u64::MAX { u64::MAX } else { (id + 1) as u64 }
}

/// `p` with a root entry for `id` unless it has one.
pub open spec fn with_node(p: Map<u64, Option<u64>>, id: u64) -> Map<u64, Option<u64>> {
    if p.contains_key(id) { p } else { p.insert(id, None) }
}

/// `ch` with an empty child list for `id` unless it has one.
pub open spec fn with_child_list(ch: Map<u64, Seq<u64>>, id: u64) -> Map<u64, Seq<u64>> {
    if ch.contains_key(id) { ch } else { ch.insert(id, Seq::empty()) }
}

/// The recorded children of `id`, empty when it has no entry.
pub open spec fn children_of(ch: Map<u64, Seq<u64>>, id: u64) -> Seq<u64> {
    if ch.contains_key(id) { ch[id] } else { Seq::empty() }
}

/// The allocator's next candidate after reserving `id`.
pub open spec fn reserved_next(next: u64, id: u64) -> u64 {
    if id >= next { after_id(id) } else { next }
}

/// The payload of the `kind` descriptor stored on `entity`, if it has one.
pub open spec fn stored_payload_of<D>(stored: Map<u64, DescriptorView<D>>, entity: Entity, kind: XrdsDescriptorKind) -> Option<D> {
    if stored.contains_key(entity.0) && stored[entity.0].kind == kind {
        Some(stored[entity.0].payload)
    } else {
        None
    }
}

/// The asset path of a descriptor's glTF source; empty without one.
pub open spec fn asset_path_of(source: Option<GltfAssetSourcePatch>) -> Seq<char> {
    match source {
        Some(s) => s.gltf_asset_path@,
        None => Seq::empty(),
    }
}

/// The scene index of a descriptor's glTF source; 0 without one.
pub open spec fn asset_scene_of(source: Option<GltfAssetSourcePatch>) -> nat {
    match source {
        Some(s) => s.scene_index as nat,
        None => 0,
    }
}

/// The verdict behind an outcome: accepted or refused with its error.
pub open spec fn verdict_of<T>(r: Result<T, XrdsGltfSourceError>) -> Result<(), XrdsGltfSourceError> {
    match r {
        Ok(_) => Ok(()),
        Err(e) => Err(e),
    }
}

/// The source of the glTF asset descriptor stored on `entity`, if it has one.
pub open spec fn stored_gltf_source<D>(stored: Map<u64, DescriptorView<D>>, entity: Entity) -> Option<(Seq<char>, usize)> {
    if stored.contains_key(entity.0) && stored[entity.0].kind == XrdsDescriptorKind::GltfAsset {
        stored[entity.0].gltf_source
    } else {
        None
    }
}

/// Whether `key` is in `keys`.
pub fn key_in(keys: &Vec<XrdsKey>, key: XrdsKey) -> (r: bool)
    ensures
        r == keys@.contains(key),
{
    let mut i: usize = 0;
    while i < keys.len()
        invariant
            i <= keys.len(),
            forall|j: int| 0 <= j < i ==> keys@[j] != key,
        decreases keys.len() - i,
    {
        if keys[i] == key {
            assert(keys@[i as int] == key);
            return true;
        }
        i = i + 1;
    }
    false
}

/// The id of the first marked anchor of `s` whose entity is registered in `em`, among those
/// marked initial when `initial_only` holds.
pub open spec fn first_registered(s: Seq<(Entity, bool)>, em: Map<u64, u64>, initial_only: bool) -> Option<u64>
    decreases s.len(),
{
    if s.len() == 0 {
        None
    } else {
        let r = first_registered(s.drop_last(), em, initial_only);
        if r is Some {
            r
        } else if em.contains_key(s.last().0.0) && (s.last().1 || !initial_only) {
            Some(em[s.last().0.0])
        } else {
            None
        }
    }
}

/// The anchor a player starts at: the first registered anchor marked initial, or failing
/// that the first registered anchor, in marking order.
pub open spec fn preferred_anchor(s: Seq<(Entity, bool)>, em: Map<u64, u64>) -> Option<u64> {
    match first_registered(s, em, true) {
        Some(x) => Some(x),
        None => first_registered(s, em, false),
    }
}

/// Once a prefix has a registered anchor, the whole sequence answers the same.
pub proof fn lemma_first_registered_prefix(s: Seq<(Entity, bool)>, em: Map<u64, u64>, initial_only: bool, i: int)
    requires
        0 <= i <= s.len(),
        first_registered(s.take(i), em, initial_only) is Some,
    ensures
        first_registered(s, em, initial_only) == first_registered(s.take(i), em, initial_only),
    decreases s.len() - i,
{
    if i < s.len() {
        assert(s.take(i + 1).drop_last() =~= s.take(i));
        lemma_first_registered_prefix(s, em, initial_only, i + 1);
    } else {
        assert(s.take(i) =~= s);
    }
}

/// Whether a stop request on the node realized by `target` stops `a`: it was fired at that
/// node, or it is the track holding that node as an asset (`holder`).
pub open spec fn stops_on(a: XrdsAgent, target: Entity, holder: Option<u64>) -> bool {
    a.target == target || (a.is_track && holder == Some(a.entity.0))
}

/// The agents of `agents` that a stop request stops (`stopped`) or keeps (`!stopped`), in order.
pub open spec fn agents_where(agents: Seq<XrdsAgent>, target: Entity, holder: Option<u64>, stopped: bool) -> Seq<XrdsAgent>
    decreases agents.len(),
{
    if agents.len() == 0 {
        Seq::empty()
    } else {
        let r = agents_where(agents.drop_last(), target, holder, stopped);
        if stops_on(agents.last(), target, holder) == stopped {
            r.push(agents.last())
        } else {
            r
        }
    }
}

/// The entities of `agents`, in order.
pub open spec fn agent_entities(agents: Seq<XrdsAgent>) -> Seq<Entity> {
    agents.map_values(|a: XrdsAgent| a.entity)
}

/// The locks of `held` that none of `agents` holds.
pub open spec fn released(held: Map<u64, u64>, agents: Seq<XrdsAgent>) -> Map<u64, u64> {
    Map::new(
        |e: u64| held.contains_key(e) && !agent_entities(agents).contains(Entity(held[e])),
        |e: u64| held[e],
    )
}

/// Releasing one more agent is releasing it from what is left.
pub proof fn lemma_released_push(held: Map<u64, u64>, agents: Seq<XrdsAgent>, a: XrdsAgent)
    ensures
        released(held, agents.push(a)) == released(released(held, agents), seq![a]),
{
    assert(agent_entities(agents.push(a)) =~= agent_entities(agents).push(a.entity));
    assert(agent_entities(seq![a]) =~= seq![a.entity]);
    assert forall|x: Entity| #[trigger] agent_entities(agents).push(a.entity).contains(x) <==> (agent_entities(agents).contains(x) || x == a.entity) by {
        if agent_entities(agents).push(a.entity).contains(x) {
            let j = choose|j: int| 0 <= j < agent_entities(agents).push(a.entity).len() && agent_entities(agents).push(a.entity)[j] == x;
            if j < agent_entities(agents).len() {
                assert(agent_entities(agents)[j] == x);
            }
        }
        if agent_entities(agents).contains(x) {
            let j = choose|j: int| 0 <= j < agent_entities(agents).len() && agent_entities(agents)[j] == x;
            assert(agent_entities(agents).push(a.entity)[j] == x);
        }
        if x == a.entity {
            assert(agent_entities(agents).push(a.entity)[agent_entities(agents).len() as int] == x);
        }
    }
    assert forall|x: Entity| #[trigger] seq![a.entity].contains(x) <==> x == a.entity by {
        if x == a.entity {
            assert(seq![a.entity][0] == x);
        }
    }
    assert(released(held, agents.push(a)) =~= released(released(held, agents), seq![a]));
}

/// Dropping the locks of one agent.
pub proof fn lemma_released_one(before: Map<u64, u64>, after: Map<u64, u64>, a: XrdsAgent)
    requires
        forall|e: u64| #[trigger] after.contains_key(e) <==> (before.contains_key(e) && before[e] != a.entity.0),
        forall|e: u64| #[trigger] after.contains_key(e) ==> after[e] == before[e],
    ensures
        after == released(before, seq![a]),
{
    assert(agent_entities(seq![a]) =~= seq![a.entity]);
    assert forall|x: Entity| #[trigger] seq![a.entity].contains(x) <==> x == a.entity by {
        if x == a.entity {
            assert(seq![a.entity][0] == x);
        }
    }
    assert(after =~= released(before, seq![a]));
}

/// Adding an agent for an entity that runs no agent yet keeps the agents' entities distinct.
proof fn lemma_distinct_push(agents: Seq<XrdsAgent>, a: XrdsAgent)
    requires
        agent_entities(agents).no_duplicates(),
        !agent_entities(agents).contains(a.entity),
    ensures
        agent_entities(agents.push(a)).no_duplicates(),
{
    let es = agent_entities(agents);
    assert(agent_entities(agents.push(a)) =~= es.push(a.entity));
    assert forall|i: int, j: int| 0 <= i < j < es.push(a.entity).len() implies es.push(a.entity)[i] != es.push(a.entity)[j] by {
        if j == es.len() {
            assert(es[i] == es.push(a.entity)[i]);
        }
    }
}

/// The agents a stop request keeps, or stops, run on distinct entities, each of which ran
/// an agent before.
proof fn lemma_distinct_where(agents: Seq<XrdsAgent>, target: Entity, holder: Option<u64>, stopped: bool)
    requires
        agent_entities(agents).no_duplicates(),
    ensures
        agent_entities(agents_where(agents, target, holder, stopped)).no_duplicates(),
        forall|e: Entity| #[trigger] agent_entities(agents_where(agents, target, holder, stopped)).contains(e)
            ==> agent_entities(agents).contains(e),
    decreases agents.len(),
{
    if agents.len() > 0 {
        let init = agents.drop_last();
        let es = agent_entities(agents);
        assert(agent_entities(init) =~= es.drop_last());
        assert forall|i: int, j: int| 0 <= i < j < agent_entities(init).len() implies agent_entities(init)[i] != agent_entities(init)[j] by {
            assert(es[i] == agent_entities(init)[i] && es[j] == agent_entities(init)[j]);
        }
        lemma_distinct_where(init, target, holder, stopped);
        let r = agents_where(init, target, holder, stopped);
        assert forall|e: Entity| #[trigger] agent_entities(init).contains(e) implies agent_entities(agents).contains(e) by {
            let k = choose|k: int| 0 <= k < agent_entities(init).len() && agent_entities(init)[k] == e;
            assert(es[k] == e);
        }
        if stops_on(agents.last(), target, holder) == stopped {
            assert(!agent_entities(r).contains(agents.last().entity)) by {
                if agent_entities(r).contains(agents.last().entity) {
                    let k = choose|k: int| 0 <= k < agent_entities(init).len() && agent_entities(init)[k] == agents.last().entity;
                    assert(es[k] == es[es.len() - 1]);
                }
            }
            lemma_distinct_push(r, agents.last());
            assert(agent_entities(r.push(agents.last())) =~= agent_entities(r).push(agents.last().entity));
            assert forall|e: Entity| #[trigger] agent_entities(r.push(agents.last())).contains(e) implies agent_entities(agents).contains(e) by {
                let k = choose|k: int| 0 <= k < agent_entities(r.push(agents.last())).len() && agent_entities(r.push(agents.last()))[k] == e;
                if k < agent_entities(r).len() {
                    assert(agent_entities(r)[k] == e);
                    assert(agent_entities(r).contains(e));
                    assert(agent_entities(init).contains(e));
                } else {
                    assert(es[es.len() - 1] == e);
                }
            }
        }
    } else {
        assert(agent_entities(agents_where(agents, target, holder, stopped)) =~= Seq::<Entity>::empty());
    }
}

/// Taking one agent out keeps the agents' entities distinct.
proof fn lemma_distinct_remove(agents: Seq<XrdsAgent>, i: int)
    requires
        agent_entities(agents).no_duplicates(),
        0 <= i < agents.len(),
    ensures
        agent_entities(agents.remove(i)).no_duplicates(),
{
    let es = agent_entities(agents);
    let rs = agent_entities(agents.remove(i));
    assert(rs =~= es.remove(i));
    assert forall|a: int, b: int| 0 <= a < b < rs.len() implies rs[a] != rs[b] by {
        let a1 = if a < i { a } else { a + 1 };
        let b1 = if b < i { b } else { b + 1 };
        assert(rs[a] == es[a1] && rs[b] == es[b1]);
    }
}

/// The agent started by the editor's track preview.
pub open spec fn is_preview_agent(a: XrdsAgent) -> bool {
    a.is_track && a.is_preview
}

/// The position of the first preview agent.
pub open spec fn preview_index(agents: Seq<XrdsAgent>) -> Option<int> {
    if exists|i: int| 0 <= i < agents.len() && #[trigger] is_preview_agent(agents[i]) {
        Some(choose|i: int| 0 <= i < agents.len() && is_preview_agent(agents[i]) && forall|j: int| 0 <= j < i ==> !is_preview_agent(#[trigger] agents[j]))
    } else {
        None
    }
}

proof fn lemma_preview_index(agents: Seq<XrdsAgent>, i: int)
    requires
        0 <= i < agents.len(),
        is_preview_agent(agents[i]),
        forall|j: int| 0 <= j < i ==> !is_preview_agent(#[trigger] agents[j]),
    ensures
        preview_index(agents) == Some(i),
{
    let k = choose|k: int| 0 <= k < agents.len() && is_preview_agent(agents[k]) && forall|j: int| 0 <= j < k ==> !is_preview_agent(#[trigger] agents[j]);
    assert(0 <= k < agents.len() && is_preview_agent(agents[k]));
    if k < i {
        assert(!is_preview_agent(agents[k]));
    }
    if k > i {
        assert(!is_preview_agent(agents[i]));
    }
}

proof fn lemma_preview_index_none(agents: Seq<XrdsAgent>)
    requires
        forall|j: int| 0 <= j < agents.len() ==> !is_preview_agent(#[trigger] agents[j]),
    ensures
        preview_index(agents) is None,
{
}

/// How many of `agents` are preview agents.
pub open spec fn preview_count(agents: Seq<XrdsAgent>) -> nat
    decreases agents.len(),
{
    if agents.len() == 0 {
        0
    } else {
        preview_count(agents.drop_last()) + (if is_preview_agent(agents.last()) { 1nat } else { 0nat })
    }
}

/// Without preview agents there is no preview.
proof fn lemma_no_preview(agents: Seq<XrdsAgent>)
    requires
        preview_count(agents) == 0,
    ensures
        forall|j: int| 0 <= j < agents.len() ==> !is_preview_agent(#[trigger] agents[j]),
        preview_index(agents) is None,
    decreases agents.len(),
{
    if agents.len() > 0 {
        lemma_no_preview(agents.drop_last());
        assert forall|j: int| 0 <= j < agents.len() implies !is_preview_agent(#[trigger] agents[j]) by {
            if j < agents.len() - 1 {
                assert(agents.drop_last()[j] == agents[j]);
            }
        }
    }
}

/// Counted preview agents are there to be found.
proof fn lemma_counted_preview_exists(agents: Seq<XrdsAgent>)
    requires
        preview_count(agents) > 0,
    ensures
        preview_index(agents) is Some,
    decreases agents.len(),
{
    if is_preview_agent(agents.last()) {
        assert(is_preview_agent(agents[agents.len() - 1]));
    } else {
        lemma_counted_preview_exists(agents.drop_last());
        let i = choose|i: int| 0 <= i < agents.drop_last().len() && #[trigger] is_preview_agent(agents.drop_last()[i]);
        assert(agents.drop_last()[i] == agents[i]);
        assert(is_preview_agent(agents[i]));
    }
}

/// Taking out the preview agent leaves the agents distinct and without a preview.
proof fn lemma_stopped_preview(agents: Seq<XrdsAgent>, i: int)
    requires
        preview_index(agents) == Some(i),
        0 <= i < agents.len(),
        is_preview_agent(agents[i]),
        agent_entities(agents).no_duplicates(),
        preview_count(agents) <= 1,
    ensures
        agent_entities(agents.remove(i)).no_duplicates(),
        preview_count(agents.remove(i)) == 0,
        preview_index(agents.remove(i)) is None,
{
    lemma_distinct_remove(agents, i);
    lemma_preview_count_remove(agents, i);
    lemma_no_preview(agents.remove(i));
}

/// A preview agent is counted.
proof fn lemma_preview_counted(agents: Seq<XrdsAgent>, i: int)
    requires
        0 <= i < agents.len(),
        is_preview_agent(agents[i]),
    ensures
        preview_count(agents) >= 1,
    decreases agents.len(),
{
    if i < agents.len() - 1 {
        assert(agents.drop_last()[i] == agents[i]);
        lemma_preview_counted(agents.drop_last(), i);
    }
}

/// Taking agent `i` out takes its preview, if it is one, out of the count.
proof fn lemma_preview_count_remove(agents: Seq<XrdsAgent>, i: int)
    requires
        0 <= i < agents.len(),
    ensures
        preview_count(agents.remove(i)) + (if is_preview_agent(agents[i]) { 1nat } else { 0nat }) == preview_count(agents),
    decreases agents.len(),
{
    if i == agents.len() - 1 {
        assert(agents.remove(i) =~= agents.drop_last());
    } else {
        let r = agents.remove(i);
        assert(r.drop_last() =~= agents.drop_last().remove(i));
        assert(r.last() == agents.last());
        lemma_preview_count_remove(agents.drop_last(), i);
    }
}

/// Replacing agent `i` by one that is a preview agent just when it was keeps the count.
proof fn lemma_preview_count_update(agents: Seq<XrdsAgent>, i: int, a: XrdsAgent)
    requires
        0 <= i < agents.len(),
        is_preview_agent(a) == is_preview_agent(agents[i]),
    ensures
        preview_count(agents.update(i, a)) == preview_count(agents),
    decreases agents.len(),
{
    let u = agents.update(i, a);
    if i == agents.len() - 1 {
        assert(u.drop_last() =~= agents.drop_last());
    } else {
        assert(u.drop_last() =~= agents.drop_last().update(i, a));
        lemma_preview_count_update(agents.drop_last(), i, a);
    }
}

/// The agents a stop request keeps, or stops, hold no more previews than all agents.
proof fn lemma_preview_count_where(agents: Seq<XrdsAgent>, target: Entity, holder: Option<u64>, stopped: bool)
    ensures
        preview_count(agents_where(agents, target, holder, stopped)) <= preview_count(agents),
    decreases agents.len(),
{
    if agents.len() > 0 {
        lemma_preview_count_where(agents.drop_last(), target, holder, stopped);
        let r = agents_where(agents.drop_last(), target, holder, stopped);
        assert(r.push(agents.last()).drop_last() =~= r);
    }
}

/// A new name by value.
pub open spec fn name_view(name: Option<String>) -> Option<Seq<char>> {
    match name {
        Some(n) => Some(n@),
        None => None,
    }
}

/// `d` renamed and/or shown or hidden.
pub open spec fn renamed<D>(d: DescriptorView<D>, name: Option<Seq<char>>, visible: Option<bool>) -> DescriptorView<D> {
    DescriptorView {
        name: match name { Some(n) => n, None => d.name },
        visible: match visible { Some(v) => v, None => d.visible },
        ..d
    }
}

/// The parent changes that dispatched parent patches queue: one per patch whose entity is
/// registered, in order.
pub open spec fn parent_requests<P>(updates: Seq<QueuedSurfaceUpdate<P>>, em: Map<u64, u64>) -> Seq<QueuedParentChange>
    decreases updates.len(),
{
    if updates.len() == 0 {
        Seq::empty()
    } else {
        let r = parent_requests(updates.drop_last(), em);
        let u = updates.last();
        match u.patch {
            XrdsPatch::Parent(pp) => if em.contains_key(u.entity.0) {
                r.push(QueuedParentChange { child_id: XrdsId(em[u.entity.0]), parent_id: pp.parent_id })
            } else {
                r
            },
            _ => r,
        }
    }
}

/// The stored descriptors after dispatched name and visibility patches, each applying to
/// the descriptor of the type it was addressed to.
pub open spec fn stored_after_updates<D, P>(stored: Map<u64, DescriptorView<D>>, updates: Seq<QueuedSurfaceUpdate<P>>) -> Map<u64, DescriptorView<D>>
    decreases updates.len(),
{
    if updates.len() == 0 {
        stored
    } else {
        let s = stored_after_updates(stored, updates.drop_last());
        let u = updates.last();
        let hit = s.contains_key(u.entity.0) && s[u.entity.0].kind == u.component_type;
        match u.patch {
            XrdsPatch::Name(np) => if hit { s.insert(u.entity.0, renamed(s[u.entity.0], Some(np.name@), None)) } else { s },
            XrdsPatch::Visibility(vp) => if hit { s.insert(u.entity.0, renamed(s[u.entity.0], None, Some(vp.visible))) } else { s },
            _ => s,
        }
    }
}

/// One node of a planned duplicate: the entity it copies, the fresh id of the copy, the
/// cloned descriptor and the parent the copy gets.
pub struct XrdsDuplicateStep<D> {
    pub source: Entity,
    pub id: XrdsId,
    pub descriptor: XrdsDescriptor<D>,
    pub parent_id: Option<XrdsId>,
}

/// The ids of the copies, in order.
pub open spec fn step_ids<D>(steps: Seq<XrdsDuplicateStep<D>>) -> Seq<u64> {
    steps.map_values(|s: XrdsDuplicateStep<D>| s.id.0)
}

/// The first position of `q` in `xs`.
pub fn position_of(xs: &Vec<XrdsId>, q: XrdsId) -> (r: Option<usize>)
    ensures
        match r {
            Some(j) => j < xs@.len() && xs@[j as int] == q && forall|k: int| 0 <= k < j ==> xs@[k] != q,
            None => !xs@.contains(q),
        },
{
    let mut j: usize = 0;
    while j < xs.len()
        invariant
            j <= xs@.len(),
            forall|k: int| 0 <= k < j ==> xs@[k] != q,
        decreases xs.len() - j,
    {
        if xs[j] == q {
            return Some(j);
        }
        j = j + 1;
    }
    None
}

/// A scene node ready for import: its authored id and parent, its descriptor, and the entity
/// the engine realized it as (`None`: a glTF asset the engine could not load, skipped).
pub struct XrdsImportNode<D> {
    pub id: XrdsId,
    pub parent_id: Option<XrdsId>,
    pub descriptor: XrdsDescriptor<D>,
    pub entity: Option<Entity>,
}

/// id -> entity after registering the realized nodes of `nodes` in turn.
pub open spec fn import_ids<D>(ids: Map<u64, u64>, nodes: Seq<XrdsImportNode<D>>) -> Map<u64, u64>
    decreases nodes.len(),
{
    if nodes.len() == 0 {
        ids
    } else {
        let m = import_ids(ids, nodes.drop_last());
        match nodes.last().entity {
            Some(e) => m.insert(nodes.last().id.0, e.0),
            None => m,
        }
    }
}

/// entity -> id after registering the realized nodes of `nodes` in turn.
pub open spec fn import_entities<D>(entities: Map<u64, u64>, nodes: Seq<XrdsImportNode<D>>) -> Map<u64, u64>
    decreases nodes.len(),
{
    if nodes.len() == 0 {
        entities
    } else {
        let m = import_entities(entities, nodes.drop_last());
        match nodes.last().entity {
            Some(e) => m.insert(e.0, nodes.last().id.0),
            None => m,
        }
    }
}

/// The stored descriptors after storing those of the realized nodes of `nodes`.
pub open spec fn import_stored<D>(stored: Map<u64, DescriptorView<D>>, nodes: Seq<XrdsImportNode<D>>) -> Map<u64, DescriptorView<D>>
    decreases nodes.len(),
{
    if nodes.len() == 0 {
        stored
    } else {
        let m = import_stored(stored, nodes.drop_last());
        match nodes.last().entity {
            Some(e) => m.insert(e.0, descriptor_view(nodes.last().descriptor)),
            None => m,
        }
    }
}

/// The parent map with a root entry for every realized node of `nodes` that had none.
pub open spec fn import_nodes<D>(p: Map<u64, Option<u64>>, nodes: Seq<XrdsImportNode<D>>) -> Map<u64, Option<u64>>
    decreases nodes.len(),
{
    if nodes.len() == 0 {
        p
    } else {
        let m = import_nodes(p, nodes.drop_last());
        match nodes.last().entity {
            Some(_) => with_node(m, nodes.last().id.0),
            None => m,
        }
    }
}

/// The children map with an empty list for every realized node of `nodes` that had none.
pub open spec fn import_child_lists<D>(ch: Map<u64, Seq<u64>>, nodes: Seq<XrdsImportNode<D>>) -> Map<u64, Seq<u64>>
    decreases nodes.len(),
{
    if nodes.len() == 0 {
        ch
    } else {
        let m = import_child_lists(ch, nodes.drop_last());
        match nodes.last().entity {
            Some(_) => with_child_list(m, nodes.last().id.0),
            None => m,
        }
    }
}

/// The allocator's next candidate after reserving the ids of `nodes` in turn.
pub open spec fn import_next<D>(next: u64, nodes: Seq<XrdsImportNode<D>>) -> u64
    decreases nodes.len(),
{
    if nodes.len() == 0 {
        next
    } else {
        reserved_next(import_next(next, nodes.drop_last()), nodes.last().id.0)
    }
}

/// The ids of the realized nodes of `nodes`, in order.
pub open spec fn import_list<D>(nodes: Seq<XrdsImportNode<D>>) -> Seq<XrdsId>
    decreases nodes.len(),
{
    if nodes.len() == 0 {
        Seq::empty()
    } else {
        let r = import_list(nodes.drop_last());
        if nodes.last().entity is Some { r.push(nodes.last().id) } else { r }
    }
}

/// The parent assignments the realized nodes of `nodes` with an authored parent ask for.
pub open spec fn import_parent_changes<D>(nodes: Seq<XrdsImportNode<D>>) -> Seq<QueuedParentChange>
    decreases nodes.len(),
{
    if nodes.len() == 0 {
        Seq::empty()
    } else {
        let r = import_parent_changes(nodes.drop_last());
        let n = nodes.last();
        if n.entity is Some && n.parent_id is Some {
            r.push(QueuedParentChange { child_id: n.id, parent_id: n.parent_id })
        } else {
            r
        }
    }
}

/// The realized entities of `nodes`, in order.
pub open spec fn import_realized<D>(nodes: Seq<XrdsImportNode<D>>) -> Seq<Entity>
    decreases nodes.len(),
{
    if nodes.len() == 0 {
        Seq::empty()
    } else {
        let r = import_realized(nodes.drop_last());
        match nodes.last().entity {
            Some(e) => r.push(e),
            None => r,
        }
    }
}

/// Node `i` of `nodes` is refused: its id is live once the nodes before it are imported.
pub open spec fn import_refuses<D>(ids: Map<u64, u64>, nodes: Seq<XrdsImportNode<D>>, i: int) -> bool {
    import_ids(ids, nodes.take(i)).contains_key(nodes[i].id.0)
}

/// The first refused node of `nodes`.
pub open spec fn first_refused<D>(ids: Map<u64, u64>, nodes: Seq<XrdsImportNode<D>>) -> Option<int> {
    if exists|i: int| 0 <= i < nodes.len() && #[trigger] import_refuses(ids, nodes, i) {
        Some(choose|i: int| 0 <= i < nodes.len() && import_refuses(ids, nodes, i)
            && forall|j: int| 0 <= j < i ==> !#[trigger] import_refuses(ids, nodes, j))
    } else {
        None
    }
}

proof fn lemma_first_refused<D>(ids: Map<u64, u64>, nodes: Seq<XrdsImportNode<D>>, i: int)
    requires
        0 <= i < nodes.len(),
        import_refuses(ids, nodes, i),
        forall|j: int| 0 <= j < i ==> !#[trigger] import_refuses(ids, nodes, j),
    ensures
        first_refused(ids, nodes) == Some(i),
{
    let k = choose|k: int| 0 <= k < nodes.len() && import_refuses(ids, nodes, k)
        && forall|j: int| 0 <= j < k ==> !#[trigger] import_refuses(ids, nodes, j);
    if k < i {
        assert(!import_refuses(ids, nodes, k));
    }
    if k > i {
        assert(!import_refuses(ids, nodes, i));
    }
}

/// Which entities importing `nodes` registers.
pub proof fn lemma_import_entities_dom<D>(em: Map<u64, u64>, nodes: Seq<XrdsImportNode<D>>, x: u64)
    ensures
        import_entities(em, nodes).contains_key(x) <==> em.contains_key(x) || exists|j: int| 0 <= j < nodes.len() && #[trigger] nodes[j].entity == Some(Entity(x)),
    decreases nodes.len(),
{
    if nodes.len() > 0 {
        let l = nodes.drop_last();
        lemma_import_entities_dom(em, l, x);
        if exists|j: int| 0 <= j < l.len() && #[trigger] l[j].entity == Some(Entity(x)) {
            let j = choose|j: int| 0 <= j < l.len() && #[trigger] l[j].entity == Some(Entity(x));
            assert(nodes[j] == l[j]);
        }
        if exists|j: int| 0 <= j < nodes.len() && #[trigger] nodes[j].entity == Some(Entity(x)) {
            let j = choose|j: int| 0 <= j < nodes.len() && #[trigger] nodes[j].entity == Some(Entity(x));
            if j < l.len() {
                assert(l[j] == nodes[j]);
            }
        }
    }
}


/// The realized entities of `nodes` are new and distinct.
#[verifier::opaque]
pub open spec fn fresh_realized<D>(em: Map<u64, u64>, nodes: Seq<XrdsImportNode<D>>) -> bool {
    &&& forall|i: int| 0 <= i < nodes.len() ==> ((#[trigger] nodes[i]).entity matches Some(e) ==> !em.contains_key(e.0))
    &&& forall|i: int, j: int| 0 <= i < j < nodes.len() && (#[trigger] nodes[i]).entity is Some && (#[trigger] nodes[j]).entity is Some
        ==> nodes[i].entity != nodes[j].entity
}

/// The entity realized for node `k` is not registered once the nodes before it are imported.
pub proof fn lemma_fresh_next<D>(em: Map<u64, u64>, nodes: Seq<XrdsImportNode<D>>, k: int)
    requires
        fresh_realized(em, nodes),
        0 <= k < nodes.len(),
    ensures
        nodes[k].entity matches Some(e) ==> !import_entities(em, nodes.take(k)).contains_key(e.0),
{
    reveal(fresh_realized);
    if nodes[k].entity is None {
        return;
    }
    let e = nodes[k].entity->0;
    lemma_import_entities_dom(em, nodes.take(k), e.0);
    if import_entities(em, nodes.take(k)).contains_key(e.0) {
        if !em.contains_key(e.0) {
            let j = choose|j: int| 0 <= j < nodes.take(k).len() && #[trigger] nodes.take(k)[j].entity == Some(Entity(e.0));
            assert(nodes[j].entity == Some(e));
            assert(nodes[j].entity != nodes[k].entity);
        }
    }
}

/// Taking one more node.
pub proof fn lemma_take_next<A>(s: Seq<A>, k: int)
    requires
        0 <= k < s.len(),
    ensures
        s.take(k + 1).drop_last() == s.take(k),
        s.take(k + 1).last() == s[k],
        s.skip(k)[0] == s[k],
{
    assert(s.take(k + 1).drop_last() =~= s.take(k));
}

/// The entities realized for a sequence are those of its first node, then those of the rest.
pub proof fn lemma_realized_front<D>(nodes: Seq<XrdsImportNode<D>>)
    requires
        nodes.len() > 0,
    ensures
        import_realized(nodes) == (match nodes[0].entity { Some(e) => seq![e], None => Seq::<Entity>::empty() }) + import_realized(nodes.skip(1)),
    decreases nodes.len(),
{
    let first = match nodes[0].entity { Some(e) => seq![e], None => Seq::<Entity>::empty() };
    reveal_with_fuel(import_realized, 2);
    if nodes.len() == 1 {
        assert(nodes.skip(1) =~= Seq::<XrdsImportNode<D>>::empty());
        assert(nodes.drop_last() =~= Seq::<XrdsImportNode<D>>::empty());
        assert(nodes.last() == nodes[0]);
        assert(import_realized(nodes) =~= first);
        assert(first + Seq::<Entity>::empty() =~= first);
    } else {
        let l = nodes.drop_last();
        lemma_realized_front(l);
        assert(l.skip(1) =~= nodes.skip(1).drop_last());
        assert(nodes.skip(1).last() == nodes.last());
        match nodes.last().entity {
            Some(e) => {
                assert(first + import_realized(l.skip(1)).push(e) =~= (first + import_realized(l.skip(1))).push(e));
            },
            None => {},
        }
    }
}

/// The queued components the engine realized, in queue order, each with the entity realized
/// for it: `entities[i]` answers the `i`-th queued component (`None`: nothing was realized).
pub open spec fn realized_spawns<D>(queue: Seq<QueuedSurfaceComponent<D>>, entities: Seq<Option<Entity>>) -> Seq<(QueuedSurfaceComponent<D>, Entity)>
    decreases entities.len(),
{
    if entities.len() == 0 {
        Seq::empty()
    } else {
        let prev = realized_spawns(queue, entities.drop_last());
        match entities.last() {
            Some(e) => prev.push((queue[entities.len() - 1], e)),
            None => prev,
        }
    }
}

/// `ids` with each realized spawn's id registered to its entity.
pub open spec fn ids_with_spawns<D>(ids: Map<u64, u64>, spawns: Seq<(QueuedSurfaceComponent<D>, Entity)>) -> Map<u64, u64>
    decreases spawns.len(),
{
    if spawns.len() == 0 {
        ids
    } else {
        ids_with_spawns(ids, spawns.drop_last()).insert(spawns.last().0.id.0, spawns.last().1.0)
    }
}

/// `entities` with each realized spawn's entity registered to its id.
pub open spec fn entities_with_spawns<D>(entities: Map<u64, u64>, spawns: Seq<(QueuedSurfaceComponent<D>, Entity)>) -> Map<u64, u64>
    decreases spawns.len(),
{
    if spawns.len() == 0 {
        entities
    } else {
        entities_with_spawns(entities, spawns.drop_last()).insert(spawns.last().1.0, spawns.last().0.id.0)
    }
}

/// `stored` with each realized spawn's descriptor stored on its entity.
pub open spec fn stored_with_spawns<D>(stored: Map<u64, DescriptorView<D>>, spawns: Seq<(QueuedSurfaceComponent<D>, Entity)>) -> Map<u64, DescriptorView<D>>
    decreases spawns.len(),
{
    if spawns.len() == 0 {
        stored
    } else {
        stored_with_spawns(stored, spawns.drop_last()).insert(spawns.last().1.0, descriptor_view(spawns.last().0.component))
    }
}

/// The initial parent assignment of each realized spawn, in order.
pub open spec fn spawn_parent_changes<D>(spawns: Seq<(QueuedSurfaceComponent<D>, Entity)>) -> Seq<QueuedParentChange> {
    spawns.map_values(|s: (QueuedSurfaceComponent<D>, Entity)| QueuedParentChange { child_id: s.0.id, parent_id: s.0.parent_id })
}

/// The realized spawns can be registered: their ids are not live and their entities not
/// registered, neither repeated among them.
pub open spec fn spawns_fresh<D>(ids: Map<u64, u64>, entities: Map<u64, u64>, spawns: Seq<(QueuedSurfaceComponent<D>, Entity)>) -> bool {
    &&& forall|i: int| 0 <= i < spawns.len() ==> !ids.contains_key((#[trigger] spawns[i]).0.id.0) && !entities.contains_key(spawns[i].1.0)
    &&& forall|i: int, j: int| 0 <= i < j < spawns.len() ==> (#[trigger] spawns[i]).0.id != (#[trigger] spawns[j]).0.id && spawns[i].1 != spawns[j].1
}

/// The realized spawns of a longer prefix of answers extend those of a shorter one.
pub proof fn lemma_realized_prefix<D>(queue: Seq<QueuedSurfaceComponent<D>>, entities: Seq<Option<Entity>>, i: int)
    requires
        0 <= i < entities.len(),
    ensures
        realized_spawns(queue, entities.take(i + 1)).len() >= realized_spawns(queue, entities.take(i)).len(),
        realized_spawns(queue, entities.take(i + 1)).take(realized_spawns(queue, entities.take(i)).len() as int)
            == realized_spawns(queue, entities.take(i)),
        realized_spawns(queue, entities) .len() >= realized_spawns(queue, entities.take(i + 1)).len(),
        realized_spawns(queue, entities).take(realized_spawns(queue, entities.take(i + 1)).len() as int)
            == realized_spawns(queue, entities.take(i + 1)),
    decreases entities.len(),
{
    let t = entities.take(i + 1);
    assert(t.drop_last() =~= entities.take(i));
    let a = realized_spawns(queue, entities.take(i));
    let b = realized_spawns(queue, t);
    assert(b.take(a.len() as int) =~= a);
    if i + 1 == entities.len() {
        assert(t =~= entities);
        assert(b.take(b.len() as int) =~= b);
    } else {
        let l = entities.drop_last();
        assert(l.take(i + 1) =~= t);
        assert(l.take(i) =~= entities.take(i));
        lemma_realized_prefix(queue, l, i);
        let c = realized_spawns(queue, l);
        let d = realized_spawns(queue, entities);
        assert(d.take(c.len() as int) =~= c);
        assert(d.take(b.len() as int) =~= c.take(b.len() as int));
    }
}

/// A realized spawn is not registered by the spawns before it.
pub proof fn lemma_spawned_not_yet<D>(ids: Map<u64, u64>, entities: Map<u64, u64>, spawns: Seq<(QueuedSurfaceComponent<D>, Entity)>, k: int, m: int)
    requires
        0 <= m <= k < spawns.len(),
        spawns_fresh(ids, entities, spawns),
    ensures
        !ids_with_spawns(ids, spawns.take(m)).contains_key(spawns[k].0.id.0),
        !entities_with_spawns(entities, spawns.take(m)).contains_key(spawns[k].1.0),
    decreases m,
{
    if m > 0 {
        let t = spawns.take(m);
        assert(t.drop_last() =~= spawns.take(m - 1));
        assert(t.last() == spawns[m - 1]);
        assert(spawns[m - 1].0.id != spawns[k].0.id && spawns[m - 1].1 != spawns[k].1);
        lemma_spawned_not_yet(ids, entities, spawns, k, m - 1);
    } else {
        assert(spawns.take(0) =~= Seq::<(QueuedSurfaceComponent<D>, Entity)>::empty());
    }
}

/// `anchors` without the entities `entities` registers, in order.
pub open spec fn without_registered(anchors: Seq<(Entity, bool)>, entities: Map<u64, u64>) -> Seq<(Entity, bool)>
    decreases anchors.len(),
{
    if anchors.len() == 0 {
        anchors
    } else {
        let r = without_registered(anchors.drop_last(), entities);
        if entities.contains_key(anchors.last().0.0) { r } else { r.push(anchors.last()) }
    }
}

/// One node of a scene export: its id, entity and recorded parent.
#[derive(Clone, Copy, Debug, PartialEq, Eq, Structural)]
pub struct XrdsExportEntry {
    pub id: XrdsId,
    pub entity: Entity,
    pub parent_id: Option<XrdsId>,
}

/// Where `x` goes in the increasing `sorted` to keep it increasing.
pub fn insertion_point(sorted: &Vec<XrdsId>, x: u64) -> (pos: usize)
    requires
        forall|a: int, b: int| 0 <= a < b < sorted@.len() ==> sorted@[a].0 < sorted@[b].0,
        !sorted@.contains(XrdsId(x)),
    ensures
        pos <= sorted@.len(),
        forall|a: int| 0 <= a < pos ==> sorted@[a].0 < x,
        forall|a: int| pos <= a < sorted@.len() ==> sorted@[a].0 > x,
{
    let mut pos: usize = 0;
    while pos < sorted.len() && sorted[pos].0 < x
        invariant
            pos <= sorted@.len(),
            forall|a: int| 0 <= a < pos ==> sorted@[a].0 < x,
        decreases sorted.len() - pos,
    {
        pos = pos + 1;
    }
    proof {
        if pos < sorted@.len() {
            assert(sorted@[pos as int].0 != x) by {
                if sorted@[pos as int].0 == x {
                    assert(sorted@[pos as int] == XrdsId(x));
                }
            }
            assert forall|a: int| pos <= a < sorted@.len() implies sorted@[a].0 > x by {
                if a > pos {
                    assert(sorted@[pos as int].0 < sorted@[a].0);
                }
            }
        }
    }
    pos
}

/// The XRDS-owned state of a runtime world.
pub struct XrdsWorld<D, P> {
    ids: XrdsIdIndex,
    hierarchy: XrdsHierarchyIndex,
    allocator: XrdsIdAllocator,
    stored: HashMap<u64, XrdsDescriptor<D>>,
    interpreters: SurfaceInterpreterRegistry,
    descriptors: SurfaceDescriptorRegistry,
    updaters: SurfaceUpdateRegistry,
    queued_components: Vec<QueuedSurfaceComponent<D>>,
    queued_parent_changes: Vec<QueuedParentChange>,
    queued_updates: Vec<QueuedSurfaceUpdate<P>>,
    pending_links: Vec<XrdsParentLink>,
    pending_despawns: Vec<Entity>,
    asset_catalog: Vec<XrdsSceneAsset>,
    anchor_roots: Vec<(Entity, bool)>,
    keyboard: Option<XrdsKeyboard>,
    panel_elements: XrdsPanelElementIndex,
    track_locks: XrdsTrackAssetLocks,
    agents: Vec<XrdsAgent>,
}

impl<D, P> XrdsWorld<D, P> {
    /// id -> entity
    pub closed spec fn ids(&self) -> Map<u64, u64> {
        self.ids.ids()
    }

    /// entity -> id
    pub closed spec fn entities(&self) -> Map<u64, u64> {
        self.ids.entities()
    }

    pub closed spec fn parents(&self) -> Map<u64, Option<u64>> {
        self.hierarchy.parents()
    }

    pub closed spec fn children(&self) -> Map<u64, Seq<u64>> {
        self.hierarchy.children()
    }

    /// The allocator's next candidate id.
    pub closed spec fn next_id(&self) -> u64 {
        self.allocator.next
    }

    /// entity -> the descriptor stored on it when it was spawned, as updates left it
    pub closed spec fn stored(&self) -> Map<u64, DescriptorView<D>> {
        self.stored@.map_values(|d: XrdsDescriptor<D>| descriptor_view(d))
    }

    pub closed spec fn interpreter_kinds(&self) -> Set<XrdsDescriptorKind> {
        self.interpreters.interpreters()
    }

    pub closed spec fn recipe_kinds(&self) -> Set<XrdsDescriptorKind> {
        self.interpreters.recipes()
    }

    pub closed spec fn cloner_kinds(&self) -> Set<XrdsDescriptorKind> {
        self.descriptors.cloners()
    }

    pub closed spec fn updater_pairs(&self) -> Set<(XrdsDescriptorKind, XrdsPatchKind)> {
        self.updaters.updaters()
    }

    pub closed spec fn queued_components(&self) -> Seq<QueuedSurfaceComponent<D>> {
        self.queued_components@
    }

    pub closed spec fn queued_parent_changes(&self) -> Seq<QueuedParentChange> {
        self.queued_parent_changes@
    }

    pub closed spec fn queued_updates(&self) -> Seq<QueuedSurfaceUpdate<P>> {
        self.queued_updates@
    }

    /// Engine parent links still to be mirrored, oldest first.
    pub closed spec fn pending_links(&self) -> Seq<XrdsParentLink> {
        self.pending_links@
    }

    /// Entities still to be despawned by the engine, in order.
    pub closed spec fn pending_despawns(&self) -> Seq<Entity> {
        self.pending_despawns@
    }

    pub closed spec fn catalog(&self) -> Seq<AssetView> {
        assets_view(self.asset_catalog@)
    }

    /// The marked player anchors in marking order, each with whether it is marked initial.
    pub closed spec fn anchor_roots(&self) -> Seq<(Entity, bool)> {
        self.anchor_roots@
    }

    pub closed spec fn keyboard(&self) -> Option<(Seq<XrdsKey>, Seq<XrdsKey>)> {
        match self.keyboard {
            Some(k) => Some((k.pressed@, k.just_pressed@)),
            None => None,
        }
    }

    pub closed spec fn panel_elements(&self) -> Map<(u64, Seq<char>), u64> {
        self.panel_elements.view()
    }

    /// entity -> agent holding it
    pub closed spec fn locks(&self) -> Map<u64, u64> {
        self.track_locks.held()
    }

    pub closed spec fn agents(&self) -> Seq<XrdsAgent> {
        self.agents@
    }

    /// The most recent refusal of a track to start, for an editor to show.
    pub closed spec fn track_conflict(&self) -> Option<XrdsTrackConflict> {
        self.track_locks.conflict()
    }

    /// Everything the id index and the hierarchy hold.
    pub open spec fn index_view(&self) -> (Map<u64, u64>, Map<u64, u64>, Map<u64, Option<u64>>, Map<u64, Seq<u64>>, u64, Map<u64, DescriptorView<D>>) {
        (self.ids(), self.entities(), self.parents(), self.children(), self.next_id(), self.stored())
    }

    /// Everything waiting in a queue.
    pub open spec fn queue_view(&self) -> (Seq<QueuedSurfaceComponent<D>>, Seq<QueuedParentChange>, Seq<QueuedSurfaceUpdate<P>>, Seq<XrdsParentLink>, Seq<Entity>) {
        (self.queued_components(), self.queued_parent_changes(), self.queued_updates(), self.pending_links(), self.pending_despawns())
    }

    /// What is registered.
    pub open spec fn registry_view(&self) -> (Set<XrdsDescriptorKind>, Set<XrdsDescriptorKind>, Set<XrdsDescriptorKind>, Set<(XrdsDescriptorKind, XrdsPatchKind)>) {
        (self.interpreter_kinds(), self.recipe_kinds(), self.cloner_kinds(), self.updater_pairs())
    }

    /// The rest of the scene state.
    pub open spec fn scene_view(&self) -> (Seq<AssetView>, Seq<(Entity, bool)>, Option<(Seq<XrdsKey>, Seq<XrdsKey>)>, Map<(u64, Seq<char>), u64>, Map<u64, u64>, Seq<XrdsAgent>, Option<XrdsTrackConflict>) {
        (self.catalog(), self.anchor_roots(), self.keyboard(), self.panel_elements(), self.locks(), self.agents(), self.track_conflict())
    }

    /// `after` is this world with `entity` registered under `id` and `descriptor` stored on
    /// it, and nothing else changed but the allocator.
    pub open spec fn registers(self, after: Self, id: u64, descriptor: XrdsDescriptor<D>, entity: Entity) -> bool {
        &&& after.ids() == self.ids().insert(id, entity.0)
        &&& after.entities() == self.entities().insert(entity.0, id)
        &&& after.parents() == with_node(self.parents(), id)
        &&& after.children() == with_child_list(self.children(), id)
        &&& after.stored() == self.stored().insert(entity.0, descriptor_view(descriptor))
        &&& after.queue_view() == self.queue_view()
        &&& after.registry_view() == self.registry_view()
        &&& after.scene_view() == self.scene_view()
    }

    /// `after` is this world with `entities` appended to the despawn list and nothing else
    /// changed.
    pub open spec fn discards(self, after: Self, entities: Seq<Entity>) -> bool {
        &&& after.index_view() == self.index_view()
        &&& after.queued_components() == self.queued_components()
        &&& after.queued_parent_changes() == self.queued_parent_changes()
        &&& after.queued_updates() == self.queued_updates()
        &&& after.pending_links() == self.pending_links()
        &&& after.pending_despawns() == self.pending_despawns() + entities
        &&& after.registry_view() == self.registry_view()
        &&& after.scene_view() == self.scene_view()
    }

    pub proof fn lemma_ids_finite(&self)
        ensures
            self.ids().dom().finite(),
            self.entities().dom().finite(),
    {
        self.ids.lemma_finite();
    }

    /// `after` is this world with the batch `changes` applied to the hierarchy and the
    /// engine links it planned appended to the pending links; the parent change queue aside,
    /// nothing else changed.
    pub open spec fn relinks(self, after: Self, changes: Seq<QueuedParentChange>) -> bool {
        &&& after.parents() == parents_after_changes(self.ids(), self.parents(), changes)
        &&& after.children() == children_after_changes(self.ids(), self.parents(), self.children(), changes)
        &&& after.pending_links().len() >= self.pending_links().len()
        &&& after.pending_links().take(self.pending_links().len() as int) == self.pending_links()
        &&& links_match(
            after.pending_links().skip(self.pending_links().len() as int),
            self.ids(),
            planned_links(self.ids(), requested_parents(self.parents(), changes), change_order(changes)),
        )
        &&& after.ids() == self.ids()
        &&& after.entities() == self.entities()
        &&& after.next_id() == self.next_id()
        &&& after.stored() == self.stored()
        &&& after.queued_components() == self.queued_components()
        &&& after.queued_updates() == self.queued_updates()
        &&& after.pending_despawns() == self.pending_despawns()
        &&& after.registry_view() == self.registry_view()
        &&& after.scene_view() == self.scene_view()
    }

    /// `after` is this world once the agents fired at the node `node`, or holding it as an
    /// asset, were stopped (`n` of them): they are gone from the agent list, their locks are
    /// released and their entities left for despawning, in order. Nothing changes when
    /// `node` is not live.
    pub open spec fn stops_sequences_on(self, after: Self, node: XrdsId, n: usize) -> bool {
        if !self.ids().contains_key(node.0) {
            n == 0 && self.unchanged(after)
        } else {
            let target = Entity(self.ids()[node.0]);
            let holder = if self.locks().contains_key(target.0) { Some(self.locks()[target.0]) } else { None };
            let stopped = agents_where(self.agents(), target, holder, true);
            let despawned = after.pending_despawns().skip(self.pending_despawns().len() as int);
            &&& after.agents() == agents_where(self.agents(), target, holder, false)
            &&& after.locks() == released(self.locks(), stopped)
            &&& after.pending_despawns().len() >= self.pending_despawns().len()
            &&& after.pending_despawns().take(self.pending_despawns().len() as int) == self.pending_despawns()
            &&& increasing(despawned)
            &&& forall|e: Entity| #[trigger] despawned.contains(e) <==> agent_entities(stopped).contains(e)
            &&& n == despawned.len()
            &&& self.same_but_agents(after)
        }
    }

    /// `after` is this world once every agent was stopped (`n` of them).
    pub open spec fn stops_all(self, after: Self, n: usize) -> bool {
        &&& n == self.agents().len()
        &&& n == agent_entities(self.agents()).to_set().len()
        &&& after.agents().len() == 0
        &&& after.locks() == released(self.locks(), self.agents())
        &&& after.pending_despawns() == self.pending_despawns() + agent_entities(self.agents())
        &&& self.same_but_agents(after)
    }

    /// `after` differs from this world at most in its agents, locks and despawn list.
    pub open spec fn same_but_agents(self, after: Self) -> bool {
        &&& after.index_view() == self.index_view()
        &&& after.registry_view() == self.registry_view()
        &&& after.queued_components() == self.queued_components()
        &&& after.queued_parent_changes() == self.queued_parent_changes()
        &&& after.queued_updates() == self.queued_updates()
        &&& after.pending_links() == self.pending_links()
        &&& after.catalog() == self.catalog()
        &&& after.anchor_roots() == self.anchor_roots()
        &&& after.keyboard() == self.keyboard()
        &&& after.panel_elements() == self.panel_elements()
        &&& after.track_conflict() == self.track_conflict()
    }

    /// `after` is this world with `u` appended to the update queue and nothing else changed.
    pub open spec fn queues_update(self, after: Self, u: QueuedSurfaceUpdate<P>) -> bool {
        &&& after.queued_updates() == self.queued_updates().push(u)
        &&& after.index_view() == self.index_view()
        &&& after.queued_components() == self.queued_components()
        &&& after.queued_parent_changes() == self.queued_parent_changes()
        &&& after.pending_links() == self.pending_links()
        &&& after.pending_despawns() == self.pending_despawns()
        &&& after.registry_view() == self.registry_view()
        &&& after.scene_view() == self.scene_view()
    }

    /// `after` differs from this world only in its registries, which are `registries`.
    pub open spec fn registers_kinds(self, after: Self, registries: (Set<XrdsDescriptorKind>, Set<XrdsDescriptorKind>, Set<XrdsDescriptorKind>, Set<(XrdsDescriptorKind, XrdsPatchKind)>)) -> bool {
        &&& after.registry_view() == registries
        &&& after.index_view() == self.index_view()
        &&& after.queue_view() == self.queue_view()
        &&& after.scene_view() == self.scene_view()
    }

    /// `after` holds the same state as this world but for the allocator.
    pub open spec fn same_but_allocator(self, after: Self) -> bool {
        &&& after.ids() == self.ids()
        &&& after.entities() == self.entities()
        &&& after.parents() == self.parents()
        &&& after.children() == self.children()
        &&& after.stored() == self.stored()
        &&& after.queue_view() == self.queue_view()
        &&& after.registry_view() == self.registry_view()
        &&& after.scene_view() == self.scene_view()
    }

    /// `after` holds the same state as this world.
    pub open spec fn unchanged(self, after: Self) -> bool {
        &&& after.index_view() == self.index_view()
        &&& after.queue_view() == self.queue_view()
        &&& after.registry_view() == self.registry_view()
        &&& after.scene_view() == self.scene_view()
    }

    /// `after` differs from this world at most in the allocator and the spawn queue.
    pub open spec fn same_but_spawn_queue(self, after: Self) -> bool {
        &&& after.ids() == self.ids()
        &&& after.entities() == self.entities()
        &&& after.parents() == self.parents()
        &&& after.children() == self.children()
        &&& after.stored() == self.stored()
        &&& after.queued_parent_changes() == self.queued_parent_changes()
        &&& after.queued_updates() == self.queued_updates()
        &&& after.pending_links() == self.pending_links()
        &&& after.pending_despawns() == self.pending_despawns()
        &&& after.registry_view() == self.registry_view()
        &&& after.scene_view() == self.scene_view()
    }

    /// `after` is this world once the realized queued spawns `spawns` were registered, each
    /// with its descriptor stored, and their initial parent assignments put before the queued
    /// parent changes; the spawn queue is left empty.
    pub open spec fn commits_spawns(self, after: Self, spawns: Seq<(QueuedSurfaceComponent<D>, Entity)>) -> bool {
        &&& after.ids() == ids_with_spawns(self.ids(), spawns)
        &&& after.entities() == entities_with_spawns(self.entities(), spawns)
        &&& after.stored() == stored_with_spawns(self.stored(), spawns)
        &&& after.parents() == self.parents()
        &&& after.children() == self.children()
        &&& after.next_id() == self.next_id()
        &&& after.queued_components().len() == 0
        &&& after.queued_parent_changes() == spawn_parent_changes(spawns) + self.queued_parent_changes()
        &&& after.queued_updates() == self.queued_updates()
        &&& after.pending_links() == self.pending_links()
        &&& after.pending_despawns() == self.pending_despawns()
        &&& after.registry_view() == self.registry_view()
        &&& after.scene_view() == self.scene_view()
    }

    /// `after` is this world once a reimport began: every registered entity is left for
    /// despawning, each once, and forgotten with its stored descriptor and its anchor mark;
    /// the id index, the hierarchy and the queued parent changes are empty; the incoming
    /// `assets` are merged into the catalog. The allocator keeps its place.
    pub open spec fn begins_reimport(self, after: Self, assets: Seq<AssetView>) -> bool {
        let despawned = after.pending_despawns().skip(self.pending_despawns().len() as int);
        &&& after.ids() == Map::<u64, u64>::empty()
        &&& after.entities() == Map::<u64, u64>::empty()
        &&& after.parents() == Map::<u64, Option<u64>>::empty()
        &&& after.children() == Map::<u64, Seq<u64>>::empty()
        &&& after.stored() == self.stored().remove_keys(self.entities().dom())
        &&& after.next_id() == self.next_id()
        &&& after.queued_parent_changes().len() == 0
        &&& after.queued_components() == self.queued_components()
        &&& after.queued_updates() == self.queued_updates()
        &&& after.pending_links() == self.pending_links()
        &&& after.pending_despawns().len() >= self.pending_despawns().len()
        &&& after.pending_despawns().take(self.pending_despawns().len() as int) == self.pending_despawns()
        &&& despawned.no_duplicates()
        &&& forall|e: Entity| #[trigger] despawned.contains(e) <==> self.entities().contains_key(e.0)
        &&& after.registry_view() == self.registry_view()
        &&& after.catalog() == merged_catalog(assets, self.catalog())
        &&& after.anchor_roots() == without_registered(self.anchor_roots(), self.entities())
        &&& after.keyboard() == self.keyboard()
        &&& after.panel_elements() == self.panel_elements()
        &&& after.locks() == self.locks()
        &&& after.agents() == self.agents()
        &&& after.track_conflict() == self.track_conflict()
    }

    /// `after` is this world once the document node `node` was added to it, with outcome
    /// `r`: refused when its id is live (the entity realized for it, if any, left for
    /// despawning); refused as an invalid document when nothing was realized (its id stays
    /// reserved); otherwise its entity registered under it with its descriptor stored, and the
    /// queued parent changes, its own parent assignment last, applied as one batch.
    pub open spec fn adds_document_node(self, after: Self, node: XrdsImportNode<D>, r: Result<XrdsId, XrdsSceneImportError>) -> bool {
        if self.ids().contains_key(node.id.0) {
            &&& r == Err::<XrdsId, XrdsSceneImportError>(XrdsSceneImportError::DuplicateRuntimeId(node.id))
            &&& self.discards(after, match node.entity { Some(e) => seq![e], None => Seq::<Entity>::empty() })
        } else {
            match node.entity {
                None => {
                    &&& r matches Err(XrdsSceneImportError::InvalidDocument(m)) && m@ == not_realized_text(node.id)
                    &&& after.next_id() == reserved_next(self.next_id(), node.id.0)
                    &&& self.same_but_allocator(after)
                },
                Some(e) => {
                    let changes = match node.parent_id {
                        Some(p) => self.queued_parent_changes().push(QueuedParentChange { child_id: node.id, parent_id: Some(p) }),
                        None => self.queued_parent_changes(),
                    };
                    let mid_ids = self.ids().insert(node.id.0, e.0);
                    &&& r == Ok::<XrdsId, XrdsSceneImportError>(node.id)
                    &&& after.ids() == mid_ids
                    &&& after.entities() == self.entities().insert(e.0, node.id.0)
                    &&& after.stored() == self.stored().insert(e.0, descriptor_view(node.descriptor))
                    &&& after.next_id() == reserved_next(self.next_id(), node.id.0)
                    &&& after.parents() == parents_after_changes(mid_ids, self.parents(), changes)
                    &&& after.children() == children_after_changes(mid_ids, self.parents(), self.children(), changes)
                    &&& after.queued_parent_changes().len() == 0
                    &&& after.pending_links().len() >= self.pending_links().len()
                    &&& after.pending_links().take(self.pending_links().len() as int) == self.pending_links()
                    &&& links_match(
                        after.pending_links().skip(self.pending_links().len() as int),
                        mid_ids,
                        planned_links(mid_ids, requested_parents(self.parents(), changes), change_order(changes)),
                    )
                    &&& after.queued_components() == self.queued_components()
                    &&& after.queued_updates() == self.queued_updates()
                    &&& after.pending_despawns() == self.pending_despawns()
                    &&& after.registry_view() == self.registry_view()
                    &&& after.scene_view() == self.scene_view()
                },
            }
        }
    }

    /// `after` is this world once the document node `node` was reimported (`imported`
    /// tells whether it was): a node whose id is live is skipped; otherwise its id is
    /// reserved and, when it was realized, its entity registered under it with its
    /// descriptor stored and its parent assignment, if any, queued.
    pub open spec fn reimports_node(self, after: Self, node: XrdsImportNode<D>, imported: bool) -> bool {
        &&& imported == (!self.ids().contains_key(node.id.0) && node.entity is Some)
        &&& if self.ids().contains_key(node.id.0) {
            self.unchanged(after)
        } else {
            &&& after.next_id() == reserved_next(self.next_id(), node.id.0)
            &&& after.parents() == self.parents()
            &&& after.children() == self.children()
            &&& after.queued_components() == self.queued_components()
            &&& after.queued_updates() == self.queued_updates()
            &&& after.pending_links() == self.pending_links()
            &&& after.pending_despawns() == self.pending_despawns()
            &&& after.registry_view() == self.registry_view()
            &&& after.scene_view() == self.scene_view()
            &&& match node.entity {
                Some(e) => {
                    &&& after.ids() == self.ids().insert(node.id.0, e.0)
                    &&& after.entities() == self.entities().insert(e.0, node.id.0)
                    &&& after.stored() == self.stored().insert(e.0, descriptor_view(node.descriptor))
                    &&& after.queued_parent_changes() == (match node.parent_id {
                        Some(p) => self.queued_parent_changes().push(QueuedParentChange { child_id: node.id, parent_id: Some(p) }),
                        None => self.queued_parent_changes(),
                    })
                },
                None => {
                    &&& after.ids() == self.ids()
                    &&& after.entities() == self.entities()
                    &&& after.stored() == self.stored()
                    &&& after.queued_parent_changes() == self.queued_parent_changes()
                },
            }
        }
    }

    pub closed spec fn locks_wf(&self) -> bool {
        self.track_locks.wf()
    }

    /// The two directions of the id index agree, the hierarchy is a well formed forest over
    /// registered ids, no entity runs as two agents, and at most one agent is a preview.
    pub open spec fn inv(&self) -> bool {
        &&& ids_consistent(self.ids(), self.entities())
        &&& hierarchy_wf(self.parents(), self.children())
        &&& acyclic(self.parents())
        &&& links_registered(self.parents(), self.ids())
        &&& self.locks_wf()
        &&& agent_entities(self.agents()).no_duplicates()
        &&& preview_count(self.agents()) <= 1
    }

    /// Nothing registered, queued or held yet; the built-in registries installed; the
    /// allocator at its first id.
    pub open spec fn is_fresh(&self) -> bool {
        &&& self.inv()
        &&& self.ids() == Map::<u64, u64>::empty()
        &&& self.entities() == Map::<u64, u64>::empty()
        &&& self.parents() == Map::<u64, Option<u64>>::empty()
        &&& self.children() == Map::<u64, Seq<u64>>::empty()
        &&& self.next_id() == 1
        &&& self.stored() == Map::<u64, DescriptorView<D>>::empty()
        &&& self.registry_view() == (default_interpreter_kinds(), default_recipe_kinds(), default_cloner_kinds(), default_updater_pairs())
        &&& self.queued_components().len() == 0
        &&& self.queued_parent_changes().len() == 0
        &&& self.queued_updates().len() == 0
        &&& self.pending_links().len() == 0
        &&& self.pending_despawns().len() == 0
        &&& self.catalog().len() == 0
        &&& self.anchor_roots().len() == 0
        &&& self.keyboard() is None
        &&& self.panel_elements() == Map::<(u64, Seq<char>), u64>::empty()
        &&& self.locks() == Map::<u64, u64>::empty()
        &&& self.agents().len() == 0
    }

    /// A fresh world with the built-in registries installed.
    pub fn new() -> (w: XrdsWorld<D, P>)
        ensures
            w.is_fresh(),
            w.inv(),
            w.ids() == Map::<u64, u64>::empty(),
            w.entities() == Map::<u64, u64>::empty(),
            w.parents() == Map::<u64, Option<u64>>::empty(),
            w.children() == Map::<u64, Seq<u64>>::empty(),
            w.next_id() == 1,
            w.stored() == Map::<u64, DescriptorView<D>>::empty(),
            w.registry_view() == (default_interpreter_kinds(), default_recipe_kinds(), default_cloner_kinds(), default_updater_pairs()),
            w.queued_components().len() == 0,
            w.queued_parent_changes().len() == 0,
            w.queued_updates().len() == 0,
            w.pending_links().len() == 0,
            w.pending_despawns().len() == 0,
            w.catalog().len() == 0,
            w.anchor_roots().len() == 0,
            w.keyboard() is None,
            w.panel_elements() == Map::<(u64, Seq<char>), u64>::empty(),
            w.locks() == Map::<u64, u64>::empty(),
            w.agents().len() == 0,
    {
        let mut interpreters = SurfaceInterpreterRegistry::new();
        register_default_interpreters(&mut interpreters);
        let mut descriptors = SurfaceDescriptorRegistry::new();
        register_default_descriptor_cloners(&mut descriptors);
        let mut updaters = SurfaceUpdateRegistry::new();
        register_default_updaters(&mut updaters);
        let w = XrdsWorld {
            ids: XrdsIdIndex::new(),
            hierarchy: XrdsHierarchyIndex::new(),
            allocator: XrdsIdAllocator::default(),
            stored: HashMap::new(),
            interpreters,
            descriptors,
            updaters,
            queued_components: Vec::new(),
            queued_parent_changes: Vec::new(),
            queued_updates: Vec::new(),
            pending_links: Vec::new(),
            pending_despawns: Vec::new(),
            asset_catalog: Vec::new(),
            anchor_roots: Vec::new(),
            keyboard: None,
            panel_elements: XrdsPanelElementIndex::default(),
            track_locks: XrdsTrackAssetLocks::default(),
            agents: Vec::new(),
        };
        assert(w.registry_view().0 =~= default_interpreter_kinds());
        assert(w.registry_view().1 =~= default_recipe_kinds());
        assert(w.registry_view().2 =~= default_cloner_kinds());
        assert(w.registry_view().3 =~= default_updater_pairs());
        assert(w.stored() =~= Map::<u64, DescriptorView<D>>::empty());
        w
    }

    /// Claim `id` for an incoming node: refused when it is already live; otherwise the
    /// allocator moves past it.
    pub fn reserve_runtime_id(&mut self, id: XrdsId) -> (r: Result<(), XrdsSceneImportError>)
        ensures
            r == (if old(self).ids().contains_key(id.0) {
                Err::<(), XrdsSceneImportError>(XrdsSceneImportError::DuplicateRuntimeId(id))
            } else {
                Ok(())
            }),
            final(self).next_id() == (if !old(self).ids().contains_key(id.0) && id.0 >= old(self).next_id() {
                if id.0 == u64::MAX { u64::MAX } else { (id.0 + 1) as u64 }
            } else {
                old(self).next_id()
            }),
            final(self).ids() == old(self).ids(),
            final(self).entities() == old(self).entities(),
            final(self).parents() == old(self).parents(),
            final(self).children() == old(self).children(),
            final(self).stored() == old(self).stored(),
            final(self).queue_view() == old(self).queue_view(),
            final(self).registry_view() == old(self).registry_view(),
            final(self).scene_view() == old(self).scene_view(),
            old(self).inv() ==> final(self).inv(),
    {
        if self.ids.contains_id(id) {
            return Err(XrdsSceneImportError::DuplicateRuntimeId(id));
        }
        let next = self.allocator.next;
        if id.0 >= next {
            self.allocator.next = id.0.saturating_add(1);
        }
        Ok(())
    }

    /// Allocate the least id at or after the allocator's next candidate that is not live.
    pub fn new_id(&mut self) -> (id: XrdsId)
        requires
            old(self).next_id() + old(self).ids().len() <= u64::MAX,
        ensures
            !old(self).ids().contains_key(id.0),
            id.0 >= old(self).next_id(),
            forall|k: u64| old(self).next_id() <= k < id.0 ==> old(self).ids().contains_key(k),
            final(self).next_id() == (if id.0 == u64::MAX { u64::MAX } else { (id.0 + 1) as u64 }),
            final(self).ids() == old(self).ids(),
            final(self).entities() == old(self).entities(),
            final(self).parents() == old(self).parents(),
            final(self).children() == old(self).children(),
            final(self).stored() == old(self).stored(),
            final(self).queue_view() == old(self).queue_view(),
            final(self).registry_view() == old(self).registry_view(),
            final(self).scene_view() == old(self).scene_view(),
            old(self).inv() ==> final(self).inv(),
    {
        let next = self.allocator.next;
        let ghost dom = self.ids.ids().dom();
        proof {
            self.ids.lemma_finite();
        }
        let mut candidate = next;
        while self.ids.contains_id(XrdsId(candidate))
            invariant
                next <= candidate,
                dom == self.ids.ids().dom(),
                dom.finite(),
                next + dom.len() <= u64::MAX,
                forall|k: u64| next <= k < candidate ==> dom.contains(k),
            decreases next + dom.len() - candidate,
        {
            proof {
                lemma_range_in_set(next as int, candidate + 1, dom);
            }
            candidate = candidate + 1;
        }
        self.allocator.next = candidate.saturating_add(1);
        XrdsId(candidate)
    }

    /// The id registered for `entity`.
    pub fn id_of(&self, entity: Entity) -> (r: Option<XrdsId>)
        ensures
            r == (if self.entities().contains_key(entity.0) {
                Some(XrdsId(self.entities()[entity.0]))
            } else {
                None
            }),
    {
        self.ids.id_of(entity)
    }

    /// The entity registered for `id`.
    pub fn entity_of_id(&self, id: XrdsId) -> (r: Option<Entity>)
        ensures
            r == (if self.ids().contains_key(id.0) {
                Some(Entity(self.ids()[id.0]))
            } else {
                None
            }),
    {
        self.ids.entity_of(id)
    }

    /// The recorded parent of `id`.
    pub fn parent_id_of(&self, id: XrdsId) -> (r: Option<XrdsId>)
        ensures
            raw_id(r) == parent_step(self.parents(), id.0),
    {
        let r = self.hierarchy.parent_id_of(id);
        r
    }

    /// The recorded children of `id`, in the order they were attached.
    pub fn child_ids_of(&self, id: XrdsId) -> (r: Vec<XrdsId>)
        ensures
            raw_ids(r@) == children_of(self.children(), id.0),
    {
        let r = self.hierarchy.child_ids_of(id);
        assert(raw_ids(r@) =~= children_of(self.children(), id.0));
        r
    }

    /// Record a freshly spawned entity under `id`: both directions of the id index, a
    /// hierarchy node if it has none, and the descriptor stored on the entity.
    pub fn register_spawned(&mut self, id: XrdsId, descriptor: XrdsDescriptor<D>, entity: Entity)
        ensures
            old(self).registers(*final(self), id.0, descriptor, entity),
            final(self).next_id() == old(self).next_id(),
            old(self).inv() && !old(self).ids().contains_key(id.0) && !old(self).entities().contains_key(entity.0) ==> final(self).inv(),
    {
        let ghost p0 = self.parents();
        self.ids.register(id, entity);
        self.hierarchy.ensure_node(id);
        self.stored.insert(entity.0, descriptor);
        assert(self.stored() =~= old(self).stored().insert(entity.0, descriptor_view(descriptor)));
        proof {
            let p1 = self.parents();
            assert forall|y: u64| #[trigger] parent_step(p1, y) is Some implies parent_step(p1, y) == parent_step(p0, y) by {}
            if acyclic(p0) {
                lemma_fewer_links_acyclic(p0, p1);
            }
        }
    }

    /// Spawn path with a fresh id: allocate an id and register the entity the engine
    /// realized `descriptor` as.
    pub fn spawn<C: XrdsComponentType>(&mut self, descriptor: XrdsDescriptor<D>, entity: Entity) -> (h: Handle<C>)
        requires
            old(self).next_id() + old(self).ids().len() <= u64::MAX,
            descriptor.kind == C::spec_kind(),
            old(self).interpreter_kinds().contains(C::spec_kind()),
            !old(self).entities().contains_key(entity.0),
        ensures
            h.spec_entity() == entity,
            fresh_id(old(self).ids(), old(self).next_id(), final(self).entities()[entity.0]),
            final(self).next_id() == after_id(final(self).entities()[entity.0]),
            old(self).registers(*final(self), final(self).entities()[entity.0], descriptor, entity),
            old(self).inv() ==> final(self).inv(),
    {
        let id = self.new_id();
        self.register_spawned(id, descriptor, entity);
        Handle::from(entity)
    }

    /// Spawn path for asset descriptors: the descriptor's glTF source (an empty path without
    /// one) is judged first, given the file found for it (see `validate_gltf_source`). A
    /// refused source registers nothing, and the entity the engine set aside is left for
    /// despawning; an accepted one is spawned under a fresh id.
    pub fn spawn_asset<C: XrdsComponentType>(&mut self, descriptor: XrdsDescriptor<D>, file: Option<XrdsGltfFile>, entity: Entity) -> (r: Result<Handle<C>, XrdsGltfSourceError>)
        requires
            old(self).next_id() + old(self).ids().len() <= u64::MAX,
            descriptor.kind == C::spec_kind(),
            old(self).interpreter_kinds().contains(C::spec_kind()),
            !old(self).entities().contains_key(entity.0),
        ensures
            source_verdict(asset_path_of(descriptor.gltf_source), asset_scene_of(descriptor.gltf_source), file, verdict_of(r)),
            r is Err ==> old(self).discards(*final(self), seq![entity]),
            r matches Ok(h) ==> {
                &&& h.spec_entity() == entity
                &&& fresh_id(old(self).ids(), old(self).next_id(), final(self).entities()[entity.0])
                &&& final(self).next_id() == after_id(final(self).entities()[entity.0])
                &&& old(self).registers(*final(self), final(self).entities()[entity.0], descriptor, entity)
            },
            old(self).inv() ==> final(self).inv(),
    {
        let verdict = match &descriptor.gltf_source {
            Some(source) => validate_gltf_source(source.gltf_asset_path.as_str(), source.scene_index, file),
            None => {
                proof {
                    reveal_strlit("");
                }
                validate_gltf_source("", 0, file)
            },
        };
        match verdict {
            Err(e) => {
                self.pending_despawns.push(entity);
                assert(self.pending_despawns@ =~= old(self).pending_despawns@ + seq![entity]);
                Err(e)
            },
            Ok(()) => Ok(self.spawn(descriptor, entity)),
        }
    }

    /// Spawn path for an authored id: refused when the id is live (the entity the engine
    /// realized is then left for despawning); otherwise the id is reserved and the entity
    /// registered under it.
    pub fn spawn_with_id<C: XrdsComponentType>(
        &mut self,
        id: XrdsId,
        descriptor: XrdsDescriptor<D>,
        entity: Entity,
    ) -> (r: Result<Handle<C>, XrdsSceneImportError>)
        requires
            descriptor.kind == C::spec_kind(),
            old(self).interpreter_kinds().contains(C::spec_kind()),
            !old(self).entities().contains_key(entity.0),
        ensures
            (r is Err) == old(self).ids().contains_key(id.0),
            r is Err ==> r == Err::<Handle<C>, XrdsSceneImportError>(XrdsSceneImportError::DuplicateRuntimeId(id))
                && old(self).discards(*final(self), seq![entity]),
            r is Ok ==> r->Ok_0.spec_entity() == entity
                && final(self).next_id() == reserved_next(old(self).next_id(), id.0)
                && old(self).registers(*final(self), id.0, descriptor, entity),
            old(self).inv() ==> final(self).inv(),
    {
        match self.reserve_runtime_id(id) {
            Err(e) => {
                self.pending_despawns.push(entity);
                assert(self.pending_despawns@ =~= old(self).pending_despawns@ + seq![entity]);
                Err(e)
            },
            Ok(()) => {
                self.register_spawned(id, descriptor, entity);
                Ok(Handle::from(entity))
            },
        }
    }

    /// Queue `descriptor` for spawning under a fresh id, at the root.
    pub fn queue_spawn(&mut self, descriptor: XrdsDescriptor<D>) -> (id: XrdsId)
        requires
            old(self).next_id() + old(self).ids().len() <= u64::MAX,
        ensures
            fresh_id(old(self).ids(), old(self).next_id(), id.0),
            final(self).next_id() == after_id(id.0),
            final(self).queued_components() == old(self).queued_components().push(
                QueuedSurfaceComponent { id, component: descriptor, parent_id: None },
            ),
            old(self).same_but_spawn_queue(*final(self)),
            old(self).inv() ==> final(self).inv(),
    {
        let id = self.new_id();
        self.queued_components.push(QueuedSurfaceComponent { id, component: descriptor, parent_id: None });
        id
    }

    /// Queue `descriptor` for spawning under an authored id; refused when the id is live.
    pub fn queue_spawn_with_id(&mut self, id: XrdsId, descriptor: XrdsDescriptor<D>) -> (r: Result<XrdsId, XrdsSceneImportError>)
        ensures
            r == (if old(self).ids().contains_key(id.0) {
                Err::<XrdsId, XrdsSceneImportError>(XrdsSceneImportError::DuplicateRuntimeId(id))
            } else {
                Ok(id)
            }),
            r is Err ==> old(self).unchanged(*final(self)),
            r is Ok ==> final(self).next_id() == reserved_next(old(self).next_id(), id.0)
                && final(self).queued_components() == old(self).queued_components().push(
                    QueuedSurfaceComponent { id, component: descriptor, parent_id: None },
                )
                && old(self).same_but_spawn_queue(*final(self)),
            old(self).inv() ==> final(self).inv(),
    {
        match self.reserve_runtime_id(id) {
            Err(e) => Err(e),
            Ok(()) => {
                self.queued_components.push(QueuedSurfaceComponent { id, component: descriptor, parent_id: None });
                Ok(id)
            },
        }
    }

    /// The components waiting to be spawned, in queue order, for the engine to interpret.
    pub fn queued_spawns(&self) -> (r: &Vec<QueuedSurfaceComponent<D>>)
        ensures
            r@ == self.queued_components(),
    {
        &self.queued_components
    }

    /// Commit the queued spawns once the engine interpreted them, in queue order:
    /// `entities[i]` is the entity realized for the `i`-th queued component, `None` where
    /// none was (its component is dropped). Each realized component is registered under its
    /// queued id with its descriptor stored on its entity, and its initial parent assignment
    /// (to the root when it has none) is put, in queue order, before the parent changes
    /// already queued. The spawn queue is left empty.
    pub fn commit_queued_spawns(&mut self, entities: Vec<Option<Entity>>)
        requires
            old(self).inv(),
            entities@.len() == old(self).queued_components().len(),
            spawns_fresh(old(self).ids(), old(self).entities(), realized_spawns(old(self).queued_components(), entities@)),
        ensures
            final(self).inv(),
            old(self).commits_spawns(*final(self), realized_spawns(old(self).queued_components(), entities@)),
    {
        let ghost q = self.queued_components@;
        let ghost all = realized_spawns(q, entities@);
        let ghost w0 = *self;
        let mut queue: Vec<QueuedSurfaceComponent<D>> = Vec::new();
        core::mem::swap(&mut queue, &mut self.queued_components);
        let n = entities.len();
        let mut initial: Vec<QueuedParentChange> = Vec::new();
        let mut i: usize = 0;
        while i < n
            invariant
                i <= n,
                n == entities@.len(),
                n == q.len(),
                queue@ == q.skip(i as int),
                all == realized_spawns(q, entities@),
                spawns_fresh(w0.ids(), w0.entities(), all),
                self.inv(),
                self.ids() == ids_with_spawns(w0.ids(), realized_spawns(q, entities@.take(i as int))),
                self.entities() == entities_with_spawns(w0.entities(), realized_spawns(q, entities@.take(i as int))),
                self.stored() == stored_with_spawns(w0.stored(), realized_spawns(q, entities@.take(i as int))),
                initial@ == spawn_parent_changes(realized_spawns(q, entities@.take(i as int))),
                realized_spawns(q, entities@.take(i as int)) == all.take(realized_spawns(q, entities@.take(i as int)).len() as int),
                self.parents() == w0.parents(),
                self.children() == w0.children(),
                self.next_id() == w0.next_id(),
                self.queued_components().len() == 0,
                self.queued_parent_changes() == w0.queued_parent_changes(),
                self.queued_updates() == w0.queued_updates(),
                self.pending_links() == w0.pending_links(),
                self.pending_despawns() == w0.pending_despawns(),
                self.registry_view() == w0.registry_view(),
                self.scene_view() == w0.scene_view(),
            decreases n - i,
        {
            let component = queue.remove(0);
            proof {
                assert(component == q[i as int]);
                assert(queue@ =~= q.skip(i + 1));
                assert(entities@.take(i + 1).drop_last() =~= entities@.take(i as int));
                assert(entities@.take(i + 1).last() == entities@[i as int]);
                lemma_realized_prefix(q, entities@, i as int);
            }
            match entities[i] {
                Some(e) => {
                    let ghost before = *self;
                    let ghost done = realized_spawns(q, entities@.take(i as int));
                    proof {
                        let k = done.len() as int;
                        let after_done = realized_spawns(q, entities@.take(i + 1));
                        assert(entities@.take(i + 1).last() == Some(e));
                        assert(after_done == done.push((q[i as int], e)));
                        assert(all.take(after_done.len() as int) == after_done);
                        assert(all[k] == after_done[k]);
                        assert(all.take(k) =~= done);
                        lemma_spawned_not_yet(w0.ids(), w0.entities(), all, k, k);
                    }
                    let id = component.id;
                    let parent_id = component.parent_id;
                    self.register_queued(id, component.component, e);
                    initial.push(QueuedParentChange { child_id: id, parent_id });
                    proof {
                        let after_done = realized_spawns(q, entities@.take(i + 1));
                        assert(after_done == done.push((q[i as int], e)));
                        assert(after_done.drop_last() =~= done);
                        assert(initial@ =~= spawn_parent_changes(after_done));
                    }
                },
                None => {
                    proof {
                        assert(realized_spawns(q, entities@.take(i + 1)) == realized_spawns(q, entities@.take(i as int)));
                    }
                },
            }
            i = i + 1;
        }
        proof {
            assert(entities@.take(n as int) =~= entities@);
        }
        let mut rest: Vec<QueuedParentChange> = Vec::new();
        core::mem::swap(&mut rest, &mut self.queued_parent_changes);
        let ghost r0 = rest@;
        let mut j: usize = 0;
        while j < rest.len()
            invariant
                j <= rest@.len(),
                rest@ == r0,
                initial@ == spawn_parent_changes(all) + r0.take(j as int),
            decreases rest.len() - j,
        {
            initial.push(rest[j]);
            assert(r0.take(j + 1) =~= r0.take(j as int).push(r0[j as int]));
            assert(initial@ =~= spawn_parent_changes(all) + r0.take(j + 1));
            j = j + 1;
        }
        assert(r0.take(rest.len() as int) =~= r0);
        self.queued_parent_changes = initial;
    }

    /// Register `entity` under `id` with `descriptor` stored on it.
    fn register_queued(&mut self, id: XrdsId, descriptor: XrdsDescriptor<D>, entity: Entity)
        requires
            old(self).inv(),
            !old(self).ids().contains_key(id.0),
            !old(self).entities().contains_key(entity.0),
        ensures
            final(self).inv(),
            final(self).ids() == old(self).ids().insert(id.0, entity.0),
            final(self).entities() == old(self).entities().insert(entity.0, id.0),
            final(self).stored() == old(self).stored().insert(entity.0, descriptor_view(descriptor)),
            final(self).parents() == old(self).parents(),
            final(self).children() == old(self).children(),
            final(self).next_id() == old(self).next_id(),
            final(self).queue_view() == old(self).queue_view(),
            final(self).registry_view() == old(self).registry_view(),
            final(self).scene_view() == old(self).scene_view(),
    {
        self.ids.register(id, entity);
        self.stored.insert(entity.0, descriptor);
        assert(self.stored() =~= old(self).stored().insert(entity.0, descriptor_view(descriptor)));
    }

    /// Begin a reimport: leave every registered entity for despawning and forget it with its
    /// stored descriptor and anchor mark, clear the id index, the hierarchy and the queued
    /// parent changes, and merge the incoming `assets` into the catalog. The allocator keeps
    /// its place, so ids handed out before are not handed out again.
    pub fn begin_reimport(&mut self, assets: &[XrdsSceneAsset])
        requires
            old(self).inv(),
        ensures
            final(self).inv(),
            old(self).begins_reimport(*final(self), assets_view(assets@)),
    {
        let ghost em0 = self.entities();
        let ghost im0 = self.ids();
        let ghost s0 = self.stored@;
        let ghost d0 = self.pending_despawns@;
        let ids = self.ids.all_ids();
        let mut gone: Vec<Entity> = Vec::new();
        let mut i: usize = 0;
        while i < ids.len()
            invariant
                i <= ids@.len(),
                ids@.no_duplicates(),
                forall|x: u64| #[trigger] im0.contains_key(x) <==> ids@.contains(XrdsId(x)),
                im0 == self.ids(),
                em0 == self.entities(),
                ids_consistent(im0, em0),
                gone@.len() == i,
                forall|j: int| 0 <= j < i ==> im0.contains_key(ids@[j].0) && #[trigger] gone@[j] == Entity(im0[ids@[j].0]),
            decreases ids.len() - i,
        {
            let id = ids[i];
            assert(ids@.contains(id));
            let e = self.ids.entity_of(id).unwrap();
            gone.push(e);
            i = i + 1;
        }
        proof {
            assert forall|a: int, b: int| 0 <= a < b < gone@.len() implies gone@[a] != gone@[b] by {
                if gone@[a] == gone@[b] {
                    assert(em0[im0[ids@[a].0]] == ids@[a].0);
                    assert(em0[im0[ids@[b].0]] == ids@[b].0);
                }
            }
            assert forall|e: Entity| #[trigger] gone@.contains(e) <==> em0.contains_key(e.0) by {
                if gone@.contains(e) {
                    let j = choose|j: int| 0 <= j < gone@.len() && gone@[j] == e;
                    assert(gone@[j] == Entity(im0[ids@[j].0]));
                }
                if em0.contains_key(e.0) {
                    let x = em0[e.0];
                    assert(im0.contains_key(x));
                    assert(ids@.contains(XrdsId(x)));
                    let j = choose|j: int| 0 <= j < ids@.len() && ids@[j] == XrdsId(x);
                    assert(gone@[j] == Entity(im0[x]));
                }
            }
        }
        let mut k: usize = 0;
        while k < gone.len()
            invariant
                k <= gone@.len(),
                self.pending_despawns@ == d0 + gone@.take(k as int),
                forall|key: u64| #[trigger] self.stored@.contains_key(key) <==> s0.contains_key(key) && !(exists|t: int| 0 <= t < k && #[trigger] gone@[t].0 == key),
                forall|key: u64| #[trigger] self.stored@.contains_key(key) ==> self.stored@[key] == s0[key],
                self.ids.ids() == im0,
                self.ids.entities() == em0,
                self.hierarchy.parents() == old(self).parents(),
                self.hierarchy.children() == old(self).children(),
                self.hierarchy.wf(),
                self.allocator.next == old(self).next_id(),
                self.interpreters.interpreters() == old(self).interpreter_kinds(),
                self.interpreters.recipes() == old(self).recipe_kinds(),
                self.descriptors.cloners() == old(self).cloner_kinds(),
                self.updaters.updaters() == old(self).updater_pairs(),
                self.queued_components@ == old(self).queued_components(),
                self.queued_parent_changes@ == old(self).queued_parent_changes(),
                self.queued_updates@ == old(self).queued_updates(),
                self.pending_links@ == old(self).pending_links(),
                assets_view(self.asset_catalog@) == old(self).catalog(),
                self.anchor_roots@ == old(self).anchor_roots(),
                self.keyboard() == old(self).keyboard(),
                self.panel_elements.view() == old(self).panel_elements(),
                self.track_locks.held() == old(self).locks(),
                self.track_locks.wf() == old(self).locks_wf(),
                self.track_locks.conflict() == old(self).track_conflict(),
                self.agents@ == old(self).agents(),
            decreases gone.len() - k,
        {
            let e = gone[k];
            self.stored.remove(&e.0);
            self.pending_despawns.push(e);
            assert(gone@.take(k + 1) =~= gone@.take(k as int).push(e));
            assert(self.pending_despawns@ =~= d0 + gone@.take(k + 1));
            assert forall|key: u64| #[trigger] self.stored@.contains_key(key) <==> s0.contains_key(key) && !(exists|t: int| 0 <= t < k + 1 && #[trigger] gone@[t].0 == key) by {
                if key == e.0 {
                    assert(gone@[k as int].0 == key);
                }
            }
            k = k + 1;
        }
        assert(gone@.take(gone.len() as int) =~= gone@);
        proof {
            assert forall|key: u64| #[trigger] self.stored@.contains_key(key) <==> s0.contains_key(key) && !em0.dom().contains(key) by {
                if exists|t: int| 0 <= t < gone@.len() && #[trigger] gone@[t].0 == key {
                    let t = choose|t: int| 0 <= t < gone@.len() && #[trigger] gone@[t].0 == key;
                    assert(gone@.contains(gone@[t]));
                }
                if em0.contains_key(key) {
                    assert(gone@.contains(Entity(key)));
                    let t = choose|t: int| 0 <= t < gone@.len() && gone@[t] == Entity(key);
                    assert(gone@[t].0 == key);
                }
            }
            assert(self.stored@ =~= s0.remove_keys(em0.dom()));
            assert(self.stored() =~= old(self).stored().remove_keys(em0.dom()));
            assert(self.pending_despawns@.skip(d0.len() as int) =~= gone@);
            assert(self.pending_despawns@.take(d0.len() as int) =~= d0);
        }
        self.ids = XrdsIdIndex::new();
        self.hierarchy = XrdsHierarchyIndex::new();
        self.queued_parent_changes = Vec::new();
        let mut kept: Vec<(Entity, bool)> = Vec::new();
        let mut a: usize = 0;
        while a < self.anchor_roots.len()
            invariant
                a <= self.anchor_roots@.len(),
                self.anchor_roots@ == old(self).anchor_roots(),
                kept@ == without_registered(self.anchor_roots@.take(a as int), em0),
                forall|e: Entity| #[trigger] gone@.contains(e) <==> em0.contains_key(e.0),
            decreases self.anchor_roots.len() - a,
        {
            let anchor = self.anchor_roots[a];
            let e = anchor.0;
            assert(self.anchor_roots@.take(a + 1).drop_last() =~= self.anchor_roots@.take(a as int));
            assert(self.anchor_roots@.take(a + 1).last() == anchor);
            let mut registered = false;
            let mut t: usize = 0;
            while t < gone.len()
                invariant
                    t <= gone@.len(),
                    registered == gone@.take(t as int).contains(e),
                decreases gone.len() - t,
            {
                if gone[t] == e {
                    registered = true;
                }
                proof {
                    crate::hierarchy::lemma_push_contains(gone@.take(t as int), gone@[t as int], e);
                    assert(gone@.take(t + 1) =~= gone@.take(t as int).push(gone@[t as int]));
                }
                t = t + 1;
            }
            assert(gone@.take(gone.len() as int) =~= gone@);
            if !registered {
                kept.push(anchor);
            }
            a = a + 1;
        }
        assert(self.anchor_roots@.take(self.anchor_roots.len() as int) =~= self.anchor_roots@);
        self.anchor_roots = kept;
        merge_imported_asset_catalog(&mut self.asset_catalog, assets);
    }

    /// Reimport one document node, once the engine realized it (or not: `node.entity` is
    /// `None`): a node whose id is live is skipped; otherwise its id is reserved and, when
    /// it was realized, its entity is registered under it with its descriptor stored and its
    /// parent assignment, if any, queued. Returns whether the node was imported.
    pub fn reimport_node(&mut self, node: XrdsImportNode<D>) -> (imported: bool)
        requires
            old(self).inv(),
            node.entity matches Some(e) ==> !old(self).entities().contains_key(e.0),
        ensures
            final(self).inv(),
            old(self).reimports_node(*final(self), node, imported),
    {
        if self.reserve_runtime_id(node.id).is_err() {
            return false;
        }
        let XrdsImportNode { id, parent_id, descriptor, entity } = node;
        match entity {
            Some(e) => {
                self.register_queued(id, descriptor, e);
                if let Some(p) = parent_id {
                    self.queued_parent_changes.push(QueuedParentChange { child_id: id, parent_id: Some(p) });
                }
                true
            },
            None => false,
        }
    }

    /// Add one document node to a live scene, once the engine realized it (or not:
    /// `node.entity` is `None`). Refused when its id is live (the entity realized for it, if
    /// any, is left for despawning). Otherwise its id is reserved; when nothing was realized
    /// that is reported; else its entity is registered under it with its descriptor stored,
    /// and the queued parent changes, with its own parent assignment last, are applied.
    pub fn spawn_document_node(&mut self, node: XrdsImportNode<D>) -> (r: Result<XrdsId, XrdsSceneImportError>)
        requires
            old(self).inv(),
            node.entity matches Some(e) ==> !old(self).entities().contains_key(e.0),
        ensures
            final(self).inv(),
            old(self).adds_document_node(*final(self), node, r),
    {
        if self.ids.contains_id(node.id) {
            let id = node.id;
            let entity = node.entity;
            if let Some(e) = entity {
                self.pending_despawns.push(e);
            }
            proof {
                let d = match entity { Some(e) => seq![e], None => Seq::<Entity>::empty() };
                assert(self.pending_despawns@ =~= old(self).pending_despawns() + d);
            }
            return Err(XrdsSceneImportError::DuplicateRuntimeId(id));
        }
        let id = node.id;
        let realized = node.entity.is_some();
        self.reimport_node(node);
        if !realized {
            return Err(not_realized(id));
        }
        self.apply_queued_parent_changes();
        Ok(id)
    }

    /// Queue a parent assignment (`None`: detach to the root).
    pub fn queue_parent_change(&mut self, child_id: XrdsId, parent_id: Option<XrdsId>)
        ensures
            final(self).queued_parent_changes() == old(self).queued_parent_changes().push(
                QueuedParentChange { child_id, parent_id },
            ),
            final(self).index_view() == old(self).index_view(),
            final(self).queued_components() == old(self).queued_components(),
            final(self).queued_updates() == old(self).queued_updates(),
            final(self).pending_links() == old(self).pending_links(),
            final(self).pending_despawns() == old(self).pending_despawns(),
            final(self).registry_view() == old(self).registry_view(),
            final(self).scene_view() == old(self).scene_view(),
            old(self).inv() ==> final(self).inv(),
    {
        self.queued_parent_changes.push(QueuedParentChange { child_id, parent_id });
    }

    /// Queue `patch` for the entity of `handle`, addressed to descriptor type `C`.
    pub fn queue_update<C: XrdsComponentType>(&mut self, handle: &Handle<C>, patch: XrdsPatch<P>)
        ensures
            final(self).queued_updates() == old(self).queued_updates().push(
                QueuedSurfaceUpdate { entity: handle.spec_entity(), component_type: C::spec_kind(), patch },
            ),
            final(self).index_view() == old(self).index_view(),
            final(self).queued_components() == old(self).queued_components(),
            final(self).queued_parent_changes() == old(self).queued_parent_changes(),
            final(self).pending_links() == old(self).pending_links(),
            final(self).pending_despawns() == old(self).pending_despawns(),
            final(self).registry_view() == old(self).registry_view(),
            final(self).scene_view() == old(self).scene_view(),
            old(self).inv() ==> final(self).inv(),
    {
        let entity = handle.entity();
        let kind = C::kind();
        self.queued_updates.push(QueuedSurfaceUpdate { entity, component_type: kind, patch });
    }

    /// The payload of the `C` descriptor stored on the entity of `handle`, if it has one.
    pub fn stored_payload<C: XrdsComponentType>(&self, handle: &Handle<C>) -> (r: Option<&D>)
        ensures
            r is None <==> stored_payload_of(self.stored(), handle.spec_entity(), C::spec_kind()) is None,
            r matches Some(x) ==> stored_payload_of(self.stored(), handle.spec_entity(), C::spec_kind()) == Some(*x),
    {
        let entity = handle.entity();
        let kind = C::kind();
        match self.stored.get(&entity.0) {
            Some(d) => if d.kind == kind {
                Some(&d.payload)
            } else {
                None
            },
            None => None,
        }
    }

    /// Record an entity interpreter for `kind`.
    pub fn register_interpreter(&mut self, kind: XrdsDescriptorKind)
        ensures
            final(self).registry_view() == (old(self).interpreter_kinds().insert(kind), old(self).recipe_kinds(), old(self).cloner_kinds(), old(self).updater_pairs()),
            final(self).index_view() == old(self).index_view(),
            final(self).queue_view() == old(self).queue_view(),
            final(self).scene_view() == old(self).scene_view(),
            old(self).inv() ==> final(self).inv(),
    {
        self.interpreters.register_entity(kind);
    }

    /// Record a geometry recipe for `kind` together with the interpreter realizing it.
    pub fn register_recipe(&mut self, kind: XrdsDescriptorKind)
        ensures
            final(self).registry_view() == (old(self).interpreter_kinds().insert(kind), old(self).recipe_kinds().insert(kind), old(self).cloner_kinds(), old(self).updater_pairs()),
            final(self).index_view() == old(self).index_view(),
            final(self).queue_view() == old(self).queue_view(),
            final(self).scene_view() == old(self).scene_view(),
            old(self).inv() ==> final(self).inv(),
    {
        self.interpreters.register_recipe(kind);
    }

    /// Record that descriptors of type `kind` can be cloned for duplication.
    pub fn register_clone(&mut self, kind: XrdsDescriptorKind)
        ensures
            final(self).registry_view() == (old(self).interpreter_kinds(), old(self).recipe_kinds(), old(self).cloner_kinds().insert(kind), old(self).updater_pairs()),
            final(self).index_view() == old(self).index_view(),
            final(self).queue_view() == old(self).queue_view(),
            final(self).scene_view() == old(self).scene_view(),
            old(self).inv() ==> final(self).inv(),
    {
        self.descriptors.register_clone(kind);
    }

    /// Record an updater for `patch` patches on `component` descriptors.
    pub fn register_updater(&mut self, component: XrdsDescriptorKind, patch: XrdsPatchKind)
        ensures
            final(self).registry_view() == (old(self).interpreter_kinds(), old(self).recipe_kinds(), old(self).cloner_kinds(), old(self).updater_pairs().insert((component, patch))),
            final(self).index_view() == old(self).index_view(),
            final(self).queue_view() == old(self).queue_view(),
            final(self).scene_view() == old(self).scene_view(),
            old(self).inv() ==> final(self).inv(),
    {
        self.updaters.register(component, patch);
    }

    /// Record the transform, parent, name and visibility updaters for `component`.
    pub fn register_common_updaters(&mut self, component: XrdsDescriptorKind)
        ensures
            final(self).registry_view() == (old(self).interpreter_kinds(), old(self).recipe_kinds(), old(self).cloner_kinds(), old(self).updater_pairs().union(common_updater_pairs(component))),
            final(self).index_view() == old(self).index_view(),
            final(self).queue_view() == old(self).queue_view(),
            final(self).scene_view() == old(self).scene_view(),
            old(self).inv() ==> final(self).inv(),
    {
        self.updaters.register_common_stored_updaters(component);
    }

    /// Merge incoming scene assets into the runtime catalog: present ids keep their entry,
    /// new ids are appended in order.
    pub fn merge_scene_assets(&mut self, assets: &[XrdsSceneAsset])
        ensures
            final(self).catalog() == merged_catalog(assets_view(assets@), old(self).catalog()),
            final(self).index_view() == old(self).index_view(),
            final(self).queue_view() == old(self).queue_view(),
            final(self).registry_view() == old(self).registry_view(),
            final(self).anchor_roots() == old(self).anchor_roots(),
            final(self).keyboard() == old(self).keyboard(),
            final(self).panel_elements() == old(self).panel_elements(),
            final(self).locks() == old(self).locks(),
            final(self).agents() == old(self).agents(),
            old(self).inv() ==> final(self).inv(),
    {
        merge_imported_asset_catalog(&mut self.asset_catalog, assets);
    }

    /// Replace the keyboard state of this frame (`None`: no keyboard input available).
    pub fn set_keyboard(&mut self, keyboard: Option<XrdsKeyboard>)
        ensures
            final(self).keyboard() == (match keyboard {
                Some(k) => Some((k.pressed@, k.just_pressed@)),
                None => None,
            }),
            final(self).index_view() == old(self).index_view(),
            final(self).queue_view() == old(self).queue_view(),
            final(self).registry_view() == old(self).registry_view(),
            final(self).catalog() == old(self).catalog(),
            final(self).anchor_roots() == old(self).anchor_roots(),
            final(self).panel_elements() == old(self).panel_elements(),
            final(self).locks() == old(self).locks(),
            final(self).agents() == old(self).agents(),
            old(self).inv() ==> final(self).inv(),
    {
        self.keyboard = keyboard;
    }

    /// Whether `key` is held down this frame.
    pub fn key_pressed(&self, key: XrdsKey) -> (r: bool)
        ensures
            r == (match self.keyboard() {
                Some(k) => k.0.contains(key),
                None => false,
            }),
    {
        match &self.keyboard {
            Some(k) => key_in(&k.pressed, key),
            None => false,
        }
    }

    /// Whether `key` went down this frame.
    pub fn key_just_pressed(&self, key: XrdsKey) -> (r: bool)
        ensures
            r == (match self.keyboard() {
                Some(k) => k.1.contains(key),
                None => false,
            }),
    {
        match &self.keyboard {
            Some(k) => key_in(&k.just_pressed, key),
            None => false,
        }
    }

    /// Record that `entity` carries the player anchor marker, and whether it is the anchor
    /// the document marks initial.
    pub fn mark_player_anchor(&mut self, entity: Entity, is_initial: bool)
        ensures
            final(self).anchor_roots() == old(self).anchor_roots().push((entity, is_initial)),
            final(self).index_view() == old(self).index_view(),
            final(self).queue_view() == old(self).queue_view(),
            final(self).registry_view() == old(self).registry_view(),
            final(self).catalog() == old(self).catalog(),
            final(self).keyboard() == old(self).keyboard(),
            final(self).panel_elements() == old(self).panel_elements(),
            final(self).locks() == old(self).locks(),
            final(self).agents() == old(self).agents(),
            final(self).track_conflict() == old(self).track_conflict(),
            old(self).inv() ==> final(self).inv(),
    {
        self.anchor_roots.push((entity, is_initial));
    }

    /// The first registered anchor of `anchor_roots`, among those marked initial when
    /// `initial_only` holds.
    fn first_registered_anchor(&self, initial_only: bool) -> (r: Option<XrdsId>)
        ensures
            raw_id(r) == first_registered(self.anchor_roots(), self.entities(), initial_only),
    {
        let mut i: usize = 0;
        while i < self.anchor_roots.len()
            invariant
                i <= self.anchor_roots.len(),
                first_registered(self.anchor_roots@.take(i as int), self.entities(), initial_only) is None,
            decreases self.anchor_roots.len() - i,
        {
            assert(self.anchor_roots@.take(i + 1).drop_last() =~= self.anchor_roots@.take(i as int));
            let (entity, is_initial) = self.anchor_roots[i];
            if is_initial || !initial_only {
                if let Some(id) = self.ids.id_of(entity) {
                    proof {
                        lemma_first_registered_prefix(self.anchor_roots@, self.entities(), initial_only, i + 1);
                    }
                    return Some(id);
                }
            }
            i = i + 1;
        }
        assert(self.anchor_roots@.take(self.anchor_roots.len() as int) =~= self.anchor_roots@);
        None
    }

    /// The id of the anchor a player starts at: the first registered anchor marked initial,
    /// or failing that the first registered anchor, in marking order.
    pub fn initial_player_anchor_id(&self) -> (r: Option<XrdsId>)
        ensures
            raw_id(r) == preferred_anchor(self.anchor_roots(), self.entities()),
    {
        match self.first_registered_anchor(true) {
            Some(id) => Some(id),
            None => self.first_registered_anchor(false),
        }
    }

    /// Record a running sequence or track agent; an entity already listed is not added again,
    /// and neither is a preview agent while a preview runs (a new preview is started once the
    /// current one is stopped).
    pub fn register_agent(&mut self, agent: XrdsAgent) -> (added: bool)
        ensures
            added == (!agent_entities(old(self).agents()).contains(agent.entity)
                && !(is_preview_agent(agent) && preview_index(old(self).agents()) is Some)),
            final(self).agents() == (if added { old(self).agents().push(agent) } else { old(self).agents() }),
            final(self).index_view() == old(self).index_view(),
            final(self).queue_view() == old(self).queue_view(),
            final(self).registry_view() == old(self).registry_view(),
            final(self).catalog() == old(self).catalog(),
            final(self).anchor_roots() == old(self).anchor_roots(),
            final(self).keyboard() == old(self).keyboard(),
            final(self).panel_elements() == old(self).panel_elements(),
            final(self).locks() == old(self).locks(),
            old(self).inv() ==> final(self).inv(),
    {
        let mut i: usize = 0;
        while i < self.agents.len()
            invariant
                i <= self.agents.len(),
                forall|j: int| 0 <= j < i ==> self.agents@[j].entity != agent.entity,
            decreases self.agents.len() - i,
        {
            if self.agents[i].entity == agent.entity {
                assert(agent_entities(self.agents@)[i as int] == agent.entity);
                return false;
            }
            i = i + 1;
        }
        assert(!agent_entities(self.agents@).contains(agent.entity)) by {
            if agent_entities(self.agents@).contains(agent.entity) {
                let j = choose|j: int| 0 <= j < agent_entities(self.agents@).len() && agent_entities(self.agents@)[j] == agent.entity;
                assert(self.agents@[j].entity == agent.entity);
            }
        }
        if agent.is_track && agent.is_preview {
            if self.find_preview().is_some() {
                return false;
            }
        }
        proof {
            if old(self).inv() {
                lemma_distinct_push(self.agents@, agent);
                if is_preview_agent(agent) && preview_count(self.agents@) > 0 {
                    lemma_counted_preview_exists(self.agents@);
                }
                assert(self.agents@.push(agent).drop_last() =~= self.agents@);
            }
        }
        self.agents.push(agent);
        true
    }

    /// Cancel every agent fired at the node `node`, or driving it as a held asset; each
    /// stopped agent releases its asset locks and is left for despawning. Returns how many
    /// were stopped (none when `node` is not live).
    pub fn stop_sequences_on(&mut self, node: XrdsId) -> (n: usize)
        requires
            old(self).inv(),
        ensures
            final(self).inv(),
            old(self).stops_sequences_on(*final(self), node, n),
    {
        let target = match self.ids.entity_of(node) {
            Some(t) => t,
            None => return 0,
        };
        let holder_entity = self.track_locks.holder_of(target);
        let holder: Option<u64> = match holder_entity {
            Some(h) => Some(h.0),
            None => None,
        };
        let stopped = self.stop_agents_where(target, holder);
        let mut doomed = sorted_unique(stopped.as_slice());
        let n = doomed.len();
        let ghost d0 = self.pending_despawns@;
        let ghost dv = doomed@;
        self.pending_despawns.append(&mut doomed);
        assert(self.pending_despawns@.skip(d0.len() as int) =~= dv);
        assert(self.pending_despawns@.take(d0.len() as int) =~= d0);
        n
    }

    /// Cancel every agent in the world, releasing all their asset locks. Returns how many
    /// were stopped.
    pub fn stop_all_sequences(&mut self) -> (n: usize)
        requires
            old(self).inv(),
        ensures
            final(self).inv(),
            old(self).stops_all(*final(self), n),
    {
        let ghost a0 = self.agents@;
        let ghost h0 = self.track_locks.held();
        let ghost d0 = self.pending_despawns@;
        let mut i: usize = 0;
        while i < self.agents.len()
            invariant
                i <= self.agents.len(),
                self.agents@ == a0,
                self.track_locks.wf(),
                self.track_locks.held() == released(h0, a0.take(i as int)),
                self.track_locks.conflict() == old(self).track_conflict(),
                self.pending_despawns@ == d0 + agent_entities(a0.take(i as int)),
                self.ids.ids() == old(self).ids(),
                self.ids.entities() == old(self).entities(),
                self.hierarchy.parents() == old(self).parents(),
                self.hierarchy.children() == old(self).children(),
                self.allocator.next == old(self).next_id(),
                self.stored() == old(self).stored(),
                self.interpreters.interpreters() == old(self).interpreter_kinds(),
                self.interpreters.recipes() == old(self).recipe_kinds(),
                self.descriptors.cloners() == old(self).cloner_kinds(),
                self.updaters.updaters() == old(self).updater_pairs(),
                self.queued_components@ == old(self).queued_components(),
                self.queued_parent_changes@ == old(self).queued_parent_changes(),
                self.queued_updates@ == old(self).queued_updates(),
                self.pending_links@ == old(self).pending_links(),
                assets_view(self.asset_catalog@) == old(self).catalog(),
                self.anchor_roots@ == old(self).anchor_roots(),
                self.keyboard() == old(self).keyboard(),
                self.panel_elements.view() == old(self).panel_elements(),
            decreases self.agents.len() - i,
        {
            let agent = self.agents[i].entity;
            let ghost before = self.track_locks.held();
            self.track_locks.release_agent(agent);
            proof {
                lemma_released_push(h0, a0.take(i as int), a0[i as int]);
                assert(a0.take(i + 1) =~= a0.take(i as int).push(a0[i as int]));
                lemma_released_one(before, self.track_locks.held(), a0[i as int]);
            }
            self.pending_despawns.push(agent);
            proof {
                assert(agent_entities(a0.take(i + 1)) =~= agent_entities(a0.take(i as int)).push(agent));
                assert(self.pending_despawns@ =~= d0 + agent_entities(a0.take(i + 1)));
            }
            i = i + 1;
        }
        assert(a0.take(a0.len() as int) =~= a0);
        proof {
            agent_entities(a0).unique_seq_to_set();
        }
        let n = self.agents.len();
        self.agents = Vec::new();
        assert(agent_entities(self.agents@) =~= Seq::<Entity>::empty());
        assert(preview_count(self.agents@) == 0);
        n
    }

    fn stop_agents_where(&mut self, target: Entity, holder: Option<u64>) -> (stopped: Vec<Entity>)
        requires
            old(self).inv(),
        ensures
            final(self).inv(),
            stopped@ == agent_entities(agents_where(old(self).agents(), target, holder, true)),
            final(self).agents() == agents_where(old(self).agents(), target, holder, false),
            final(self).locks() == released(old(self).locks(), agents_where(old(self).agents(), target, holder, true)),
            final(self).pending_despawns() == old(self).pending_despawns(),
            final(self).index_view() == old(self).index_view(),
            final(self).registry_view() == old(self).registry_view(),
            final(self).queued_components() == old(self).queued_components(),
            final(self).queued_parent_changes() == old(self).queued_parent_changes(),
            final(self).queued_updates() == old(self).queued_updates(),
            final(self).pending_links() == old(self).pending_links(),
            final(self).catalog() == old(self).catalog(),
            final(self).anchor_roots() == old(self).anchor_roots(),
            final(self).keyboard() == old(self).keyboard(),
            final(self).panel_elements() == old(self).panel_elements(),
            final(self).track_conflict() == old(self).track_conflict(),
    {
        let ghost a0 = self.agents@;
        let ghost h0 = self.track_locks.held();
        let ghost d0 = self.pending_despawns@;
        let mut kept: Vec<XrdsAgent> = Vec::new();
        let mut stopped: Vec<Entity> = Vec::new();
        let mut i: usize = 0;
        while i < self.agents.len()
            invariant
                i <= self.agents.len(),
                self.agents@ == a0,
                kept@ == agents_where(a0.take(i as int), target, holder, false),
                self.track_locks.wf(),
                self.track_locks.held() == released(h0, agents_where(a0.take(i as int), target, holder, true)),
                self.track_locks.conflict() == old(self).track_conflict(),
                self.pending_despawns@ == d0,
                stopped@ == agent_entities(agents_where(a0.take(i as int), target, holder, true)),
                self.ids.ids() == old(self).ids(),
                self.ids.entities() == old(self).entities(),
                self.hierarchy.parents() == old(self).parents(),
                self.hierarchy.children() == old(self).children(),
                self.allocator.next == old(self).next_id(),
                self.stored() == old(self).stored(),
                self.interpreters.interpreters() == old(self).interpreter_kinds(),
                self.interpreters.recipes() == old(self).recipe_kinds(),
                self.descriptors.cloners() == old(self).cloner_kinds(),
                self.updaters.updaters() == old(self).updater_pairs(),
                self.queued_components@ == old(self).queued_components(),
                self.queued_parent_changes@ == old(self).queued_parent_changes(),
                self.queued_updates@ == old(self).queued_updates(),
                self.pending_links@ == old(self).pending_links(),
                assets_view(self.asset_catalog@) == old(self).catalog(),
                self.anchor_roots@ == old(self).anchor_roots(),
                self.keyboard() == old(self).keyboard(),
                self.panel_elements.view() == old(self).panel_elements(),
            decreases self.agents.len() - i,
        {
            let a = self.agents[i];
            assert(a0.take(i + 1).drop_last() =~= a0.take(i as int));
            let stop = a.target == target || match holder {
                Some(h) => a.is_track && h == a.entity.0,
                None => false,
            };
            assert(stop == stops_on(a, target, holder));
            if stop {
                let ghost sel = agents_where(a0.take(i as int), target, holder, true);
                self.track_locks.release_agent(a.entity);
                proof {
                    lemma_released_push(h0, sel, a);
                    lemma_released_one(released(h0, sel), self.track_locks.held(), a);
                }
                stopped.push(a.entity);
                proof {
                    assert(agent_entities(sel.push(a)) =~= agent_entities(sel).push(a.entity));
                }
            } else {
                kept.push(a);
            }
            i = i + 1;
        }
        assert(a0.take(a0.len() as int) =~= a0);
        proof {
            lemma_distinct_where(a0, target, holder, false);
            lemma_preview_count_where(a0, target, holder, false);
        }
        self.agents = kept;
        stopped
    }

    /// Pause or resume the editor's track preview. Returns whether a preview was found.
    pub fn preview_pause_track(&mut self, paused: bool) -> (found: bool)
        ensures
            found == preview_index(old(self).agents()) is Some,
            final(self).agents() == (match preview_index(old(self).agents()) {
                Some(i) => old(self).agents().update(i, XrdsAgent { paused, ..old(self).agents()[i] }),
                None => old(self).agents(),
            }),
            final(self).index_view() == old(self).index_view(),
            final(self).queue_view() == old(self).queue_view(),
            final(self).registry_view() == old(self).registry_view(),
            final(self).catalog() == old(self).catalog(),
            final(self).anchor_roots() == old(self).anchor_roots(),
            final(self).keyboard() == old(self).keyboard(),
            final(self).panel_elements() == old(self).panel_elements(),
            final(self).locks() == old(self).locks(),
            old(self).inv() ==> final(self).inv(),
    {
        match self.find_preview() {
            Some(i) => {
                let mut a = self.agents[i];
                a.paused = paused;
                let ghost before = self.agents@;
                self.agents.set(i, a);
                assert(agent_entities(self.agents@) =~= agent_entities(before));
                proof {
                    lemma_preview_count_update(before, i as int, a);
                }
                true
            },
            None => false,
        }
    }

    /// Stop the editor's track preview: it releases its asset locks and is left for
    /// despawning. Returns the ids of the nodes it was driving (none without a preview).
    pub fn preview_stop_track(&mut self) -> (ids: Vec<XrdsId>)
        requires
            old(self).inv(),
        ensures
            final(self).inv(),
            preview_index(final(self).agents()) is None,
            preview_index(old(self).agents()) is None ==> ids@.len() == 0 && old(self).unchanged(*final(self)),
            preview_index(old(self).agents()) matches Some(i) ==> {
                let agent = old(self).agents()[i];
                &&& forall|x: u64| #[trigger] raw_ids(ids@).contains(x) <==> exists|e: u64|
                    #[trigger] old(self).locks().contains_key(e) && old(self).locks()[e] == agent.entity.0
                        && old(self).entities().contains_key(e) && old(self).entities()[e] == x
                &&& final(self).agents() == old(self).agents().remove(i)
                &&& final(self).locks() == released(old(self).locks(), seq![agent])
                &&& final(self).pending_despawns() == old(self).pending_despawns().push(agent.entity)
                &&& old(self).same_but_agents(*final(self))
            },
    {
        let i = match self.find_preview() {
            Some(i) => i,
            None => return Vec::new(),
        };
        let agent = self.agents[i];
        let held = self.track_locks.entities_held_by(agent.entity);
        let ghost h0 = self.track_locks.held();
        let ghost em = self.ids.entities();
        let mut ids: Vec<XrdsId> = Vec::new();
        let mut k: usize = 0;
        while k < held.len()
            invariant
                k <= held.len(),
                h0 == self.track_locks.held(),
                em == self.ids.entities(),
                forall|e: Entity| #[trigger] held@.contains(e) <==> (h0.contains_key(e.0) && h0[e.0] == agent.entity.0),
                forall|x: u64| #[trigger] raw_ids(ids@).contains(x) <==> exists|j: int|
                    0 <= j < k && #[trigger] em.contains_key(held@[j].0) && em[held@[j].0] == x,
            decreases held.len() - k,
        {
            let ghost before = ids@;
            if let Some(id) = self.ids.id_of(held[k]) {
                ids.push(id);
                assert(raw_ids(ids@) =~= raw_ids(before).push(id.0));
            }
            proof {
                assert forall|x: u64| #[trigger] raw_ids(ids@).contains(x) <==> exists|j: int|
                    0 <= j < k + 1 && #[trigger] em.contains_key(held@[j].0) && em[held@[j].0] == x by {
                    crate::hierarchy::lemma_push_contains(raw_ids(before), em[held@[k as int].0], x);
                }
            }
            k = k + 1;
        }
        proof {
            assert forall|x: u64| #[trigger] raw_ids(ids@).contains(x) <==> exists|e: u64|
                #[trigger] h0.contains_key(e) && h0[e] == agent.entity.0 && em.contains_key(e) && em[e] == x by {
                if raw_ids(ids@).contains(x) {
                    let j = choose|j: int| 0 <= j < held@.len() && #[trigger] em.contains_key(held@[j].0) && em[held@[j].0] == x;
                    assert(held@.contains(held@[j]));
                }
                if exists|e: u64| #[trigger] h0.contains_key(e) && h0[e] == agent.entity.0 && em.contains_key(e) && em[e] == x {
                    let e = choose|e: u64| #[trigger] h0.contains_key(e) && h0[e] == agent.entity.0 && em.contains_key(e) && em[e] == x;
                    assert(held@.contains(Entity(e)));
                    let j = choose|j: int| 0 <= j < held@.len() && held@[j] == Entity(e);
                    assert(em.contains_key(held@[j].0));
                }
            }
        }
        assert(h0 == old(self).locks());
        assert(em == old(self).entities());
        assert(agent == old(self).agents()[i as int]);
        assert(forall|x: u64| #[trigger] raw_ids(ids@).contains(x) <==> exists|e: u64|
                    #[trigger] old(self).locks().contains_key(e) && old(self).locks()[e] == agent.entity.0
                        && old(self).entities().contains_key(e) && old(self).entities()[e] == x);
        self.track_locks.release_agent(agent.entity);
        proof {
            lemma_released_one(h0, self.track_locks.held(), agent);
        }
        self.pending_despawns.push(agent.entity);
        proof {
            lemma_stopped_preview(self.agents@, i as int);
        }
        self.agents.remove(i);
        ids
    }

    fn find_preview(&self) -> (r: Option<usize>)
        ensures
            match r {
                Some(i) => preview_index(self.agents()) == Some(i as int) && i < self.agents().len()
                    && is_preview_agent(self.agents()[i as int]),
                None => preview_index(self.agents()) is None,
            },
    {
        let mut i: usize = 0;
        while i < self.agents.len()
            invariant
                i <= self.agents.len(),
                forall|j: int| 0 <= j < i ==> !is_preview_agent(#[trigger] self.agents@[j]),
            decreases self.agents.len() - i,
        {
            if self.agents[i].is_track && self.agents[i].is_preview {
                proof { lemma_preview_index(self.agents@, i as int); }
                return Some(i);
            }
            i = i + 1;
        }
        proof { lemma_preview_index_none(self.agents@); }
        None
    }

    /// The registered ids in the subtree of `root`, as subtree collection finds them.
    pub open spec fn subtree_of(&self, root: u64) -> Set<u64> {
        Set::new(|x: u64| self.ids().contains_key(x) && in_subtree(self.parents(), self.ids(), root, x))
    }

    /// The entities realizing the registered ids of the subtree of `root`.
    pub open spec fn subtree_entities(&self, root: u64) -> Set<u64> {
        Set::new(|e: u64| self.entities().contains_key(e) && self.subtree_of(root).contains(self.entities()[e]))
    }

    /// `after` is this world with the subtree of `root` deleted: its ids and entities
    /// unregistered, its stored descriptors dropped, its nodes gone from the hierarchy with
    /// their surviving children detached to the root, and its entities left for despawning,
    /// each once.
    pub open spec fn deletes_subtree(self, after: Self, root: u64) -> bool {
        let gone = self.subtree_of(root);
        let gone_entities = self.subtree_entities(root);
        let despawned = after.pending_despawns().skip(self.pending_despawns().len() as int);
        &&& after.ids() == self.ids().remove_keys(gone)
        &&& after.entities() == self.entities().remove_keys(gone_entities)
        &&& after.stored() == self.stored().remove_keys(gone_entities)
        &&& forall|x: u64| #[trigger] after.parents().contains_key(x) <==> self.parents().contains_key(x) && !gone.contains(x)
        &&& forall|x: u64| #[trigger] after.parents().contains_key(x) ==> after.parents()[x] == (
            if self.parents()[x] is Some && gone.contains(self.parents()[x]->0) { None } else { self.parents()[x] }
        )
        &&& forall|x: u64| #[trigger] after.children().contains_key(x) ==> after.children()[x] == seq_minus(self.children()[x], gone)
        &&& after.next_id() == self.next_id()
        &&& after.pending_despawns().len() >= self.pending_despawns().len()
        &&& after.pending_despawns().take(self.pending_despawns().len() as int) == self.pending_despawns()
        &&& despawned.no_duplicates()
        &&& forall|e: Entity| #[trigger] despawned.contains(e) <==> gone_entities.contains(e.0)
        &&& despawned.len() > 0 && despawned.last() == Entity(self.ids()[root])
        &&& forall|a: int, b: int|
            #![trigger despawned[a], despawned[b]]
            0 <= a < despawned.len() && 0 <= b < despawned.len() && self.entities()[despawned[a].0] != root
                && parent_step(self.parents(), self.entities()[despawned[a].0]) == Some(self.entities()[despawned[b].0])
                ==> a < b
        &&& after.queued_components() == self.queued_components()
        &&& after.queued_parent_changes() == self.queued_parent_changes()
        &&& after.queued_updates() == self.queued_updates()
        &&& after.pending_links() == self.pending_links()
        &&& after.registry_view() == self.registry_view()
        &&& after.scene_view() == self.scene_view()
    }

    /// Delete the entity of `handle` together with its XRDS subtree. Returns whether the
    /// entity was registered (nothing happens otherwise).
    pub fn delete<C>(&mut self, handle: &Handle<C>) -> (deleted: bool)
        requires
            old(self).inv(),
        ensures
            final(self).inv(),
            deleted == old(self).entities().contains_key(handle.spec_entity().0),
            !deleted ==> old(self).unchanged(*final(self)),
            deleted ==> old(self).deletes_subtree(*final(self), old(self).entities()[handle.spec_entity().0]),
    {
        let root_id = match self.ids.id_of(handle.entity()) {
            Some(id) => id,
            None => return false,
        };
        let ghost im0 = self.ids.ids();
        let ghost em0 = self.ids.entities();
        let ghost p0 = self.hierarchy.parents();
        let ghost ch0 = self.hierarchy.children();
        let ghost s0 = self.stored@;
        let ghost d0 = self.pending_despawns@;
        let ghost root = root_id.0;
        let subtree = collect_subtree_ids(&self.ids, &self.hierarchy, root_id);
        let ghost xs = raw_ids(subtree@);
        let mut entities: Vec<Entity> = Vec::new();
        let mut i: usize = 0;
        while i < subtree.len()
            invariant
                i <= subtree.len(),
                xs == raw_ids(subtree@),
                im0 == self.ids.ids(),
                entities@ == entities_of(xs.take(i as int), im0),
            decreases subtree.len() - i,
        {
            assert(xs.take(i + 1).drop_last() =~= xs.take(i as int));
            assert(xs.take(i + 1).last() == subtree@[i as int].0);
            if let Some(e) = self.ids.entity_of(subtree[i]) {
                entities.push(e);
            }
            i = i + 1;
        }
        assert(xs.take(subtree.len() as int) =~= xs);
        proof {
            lemma_entities_of(xs, im0, em0);
        }
        let ghost ents = entities@;
        let ghost rid = registered_ids(xs, im0);
        unregister_entities(&mut self.ids, &mut self.hierarchy, &entities);
        proof {
            lemma_removals_effect(p0, ch0, rid);
            lemma_removals_keep_forest(p0, ch0, rid);
            lemma_removals_children(p0, ch0, rid);
        }
        let n = entities.len();
        let mut j: usize = n;
        let ghost im1 = self.ids.ids();
        let ghost em1 = self.ids.entities();
        let ghost p1 = self.hierarchy.parents();
        let ghost ch1 = self.hierarchy.children();
        while j > 0
            invariant
                j <= n,
                n == entities@.len(),
                entities@ == ents,
                self.ids.ids() == im1,
                self.ids.entities() == em1,
                self.hierarchy.parents() == p1,
                self.hierarchy.children() == ch1,
                self.allocator.next == old(self).next_id(),
                self.interpreters.interpreters() == old(self).interpreter_kinds(),
                self.interpreters.recipes() == old(self).recipe_kinds(),
                self.descriptors.cloners() == old(self).cloner_kinds(),
                self.updaters.updaters() == old(self).updater_pairs(),
                self.queued_components@ == old(self).queued_components(),
                self.queued_parent_changes@ == old(self).queued_parent_changes(),
                self.queued_updates@ == old(self).queued_updates(),
                self.pending_links@ == old(self).pending_links(),
                assets_view(self.asset_catalog@) == old(self).catalog(),
                self.anchor_roots@ == old(self).anchor_roots(),
                self.keyboard() == old(self).keyboard(),
                self.panel_elements.view() == old(self).panel_elements(),
                self.track_locks.held() == old(self).locks(),
                self.track_locks.wf() == old(self).locks_wf(),
                self.track_locks.conflict() == old(self).track_conflict(),
                self.agents@ == old(self).agents(),
                self.pending_despawns@ == d0 + Seq::new((n - j) as nat, |t: int| ents[n - 1 - t]),
                forall|k: u64| #[trigger] self.stored@.contains_key(k) <==> s0.contains_key(k) && !(exists|t: int| j <= t < n && #[trigger] ents[t].0 == k),
                forall|k: u64| #[trigger] self.stored@.contains_key(k) ==> self.stored@[k] == s0[k],
            decreases j,
        {
            j = j - 1;
            let e = entities[j];
            self.stored.remove(&e.0);
            self.pending_despawns.push(e);
            assert(self.pending_despawns@ =~= d0 + Seq::new((n - j) as nat, |t: int| ents[n - 1 - t]));
            assert forall|k: u64| #[trigger] self.stored@.contains_key(k) <==> s0.contains_key(k) && !(exists|t: int| j <= t < n && #[trigger] ents[t].0 == k) by {
                if k == e.0 {
                    assert(ents[j as int].0 == k);
                }
            }
        }
        proof {
            let w0 = *old(self);
            let gone = w0.subtree_of(root);
            let gone_e = w0.subtree_entities(root);
            assert(root == em0[handle.spec_entity().0]);
            assert forall|x: u64| #[trigger] rid.contains(x) <==> gone.contains(x) by {
                assert(xs.contains(x) <==> in_subtree(p0, im0, root, x));
            }
            assert forall|e: u64| #[trigger] ents.contains(Entity(e)) <==> gone_e.contains(e) by {
                if ents.contains(Entity(e)) {
                    let x = choose|x: u64| #[trigger] xs.contains(x) && im0.contains_key(x) && im0[x] == e;
                    assert(em0.contains_key(e) && em0[e] == x);
                }
                if gone_e.contains(e) {
                    let x = em0[e];
                    assert(im0.contains_key(x) && im0[x] == e);
                    assert(xs.contains(x));
                }
            }
            assert(ids_of_entities(ents, em0) == rid);
            assert forall|x: u64| #[trigger] self.ids.ids().contains_key(x) <==> im0.contains_key(x) && !gone.contains(x) by {
                assert(self.ids.ids().contains_key(x) <==> im0.contains_key(x) && !ids_of_entities(ents, em0).contains(x));
                assert(rid.contains(x) <==> gone.contains(x));
            }
            assert(self.ids.ids() =~= im0.remove_keys(gone));
            assert(rid.to_set() =~= gone);
            assert forall|e: u64| #[trigger] self.ids.entities().contains_key(e) <==> em0.contains_key(e) && !gone_e.contains(e) by {
                let ex = exists|t: int| 0 <= t < ents.len() && #[trigger] ents[t].0 == e;
                assert(ex <==> ents.contains(Entity(e))) by {
                    if ex {
                        let t = choose|t: int| 0 <= t < ents.len() && #[trigger] ents[t].0 == e;
                        assert(ents[t] == Entity(e));
                    }
                    if ents.contains(Entity(e)) {
                        let t = choose|t: int| 0 <= t < ents.len() && ents[t] == Entity(e);
                        assert(ents[t].0 == e);
                    }
                }
                assert(ents.contains(Entity(e)) <==> gone_e.contains(e));
            }
            assert(self.ids.entities() =~= em0.remove_keys(gone_e));
            assert forall|k: u64| #[trigger] self.stored@.contains_key(k) <==> s0.contains_key(k) && !gone_e.contains(k) by {
                if exists|t: int| 0 <= t < n && #[trigger] ents[t].0 == k {
                    let t = choose|t: int| 0 <= t < n && #[trigger] ents[t].0 == k;
                    assert(ents.contains(ents[t]));
                    assert(ents[t] == Entity(k));
                }
                if ents.contains(Entity(k)) {
                    let t = choose|t: int| 0 <= t < ents.len() && ents[t] == Entity(k);
                    assert(ents[t].0 == k);
                }
            }
            assert(self.stored@ =~= s0.remove_keys(gone_e));
            assert(self.stored() =~= old(self).stored().remove_keys(gone_e));
            let despawned = self.pending_despawns@.skip(d0.len() as int);
            assert(despawned =~= Seq::new(n as nat, |t: int| ents[n - 1 - t]));
            assert(self.pending_despawns@.take(d0.len() as int) =~= d0);
            assert forall|e: Entity| #[trigger] despawned.contains(e) <==> gone_e.contains(e.0) by {
                if despawned.contains(e) {
                    let t = choose|t: int| 0 <= t < despawned.len() && despawned[t] == e;
                    assert(ents[n - 1 - t] == e);
                    assert(ents.contains(e));
                }
                if gone_e.contains(e.0) {
                    assert(ents.contains(Entity(e.0)));
                    let t = choose|t: int| 0 <= t < ents.len() && ents[t] == Entity(e.0);
                    assert(despawned[n - 1 - t] == e);
                }
            }
            assert forall|a: int, b: int| 0 <= a < despawned.len() && 0 <= b < despawned.len() && a != b implies despawned[a] != despawned[b] by {
                assert(despawned[a] == ents[n - 1 - a]);
                assert(despawned[b] == ents[n - 1 - b]);
            }
            assert forall|k: int| 0 <= k < xs.len() implies im0.contains_key(#[trigger] xs[k]) by {
                assert(hangs_under(xs, p0, im0, root, subtree@[k].0));
                if xs[k] != root {
                    assert(parent_step(p0, xs[k]) is Some);
                }
            }
            lemma_entities_of_registered(xs, im0);
            assert(ents == entities_of(xs, im0));
            assert(despawned.last() == ents[0]);
            assert(xs[0] == root);
            assert forall|a: int, b: int|
                #![trigger despawned[a], despawned[b]]
                0 <= a < despawned.len() && 0 <= b < despawned.len() && em0[despawned[a].0] != root
                    && parent_step(p0, em0[despawned[a].0]) == Some(em0[despawned[b].0])
                    implies a < b by {
                let i = n - 1 - a;
                let j0 = n - 1 - b;
                assert(despawned[a] == Entity(im0[xs[i]]));
                assert(despawned[b] == Entity(im0[xs[j0]]));
                assert(em0[im0[xs[i]]] == xs[i]);
                assert(em0[im0[xs[j0]]] == xs[j0]);
                assert(i > 0);
                assert(parent_earlier(xs, p0, i));
                let j = choose|j: int| 0 <= j < i && Some(#[trigger] xs[j]) == parent_step(p0, xs[i]);
                assert(xs[j] == xs[j0]);
            }
            // the invariant
            assert forall|x: u64| #[trigger] self.ids.ids().contains_key(x) implies self.ids.entities().contains_key(self.ids.ids()[x]) && self.ids.entities()[self.ids.ids()[x]] == x by {
                let e = im0[x];
                assert(em0.contains_key(e) && em0[e] == x);
                if gone_e.contains(e) {
                    assert(gone.contains(x));
                }
            }
            assert forall|e: u64| #[trigger] self.ids.entities().contains_key(e) implies self.ids.ids().contains_key(self.ids.entities()[e]) && self.ids.ids()[self.ids.entities()[e]] == e by {
                let x = em0[e];
                assert(im0.contains_key(x) && im0[x] == e);
                if gone.contains(x) {
                    assert(gone_e.contains(e));
                }
            }
            assert forall|c: u64| #[trigger] parent_step(self.hierarchy.parents(), c) is Some implies self.ids.ids().contains_key(c) by {
                assert(parent_step(p0, c) is Some);
                assert(!rid.contains(c));
            }
        }
        true
    }

    /// Apply `changes` now as one batch (see `apply_parent_changes`) and leave the engine
    /// links it decided for the engine to mirror.
    pub fn apply_changes_now(&mut self, changes: Vec<QueuedParentChange>)
        requires
            old(self).inv(),
        ensures
            final(self).inv(),
            old(self).relinks(*final(self), changes@),
            final(self).queued_parent_changes() == old(self).queued_parent_changes(),
    {
        let links = apply_parent_changes(&self.ids, &mut self.hierarchy, &changes);
        proof {
            lemma_changes_keep_forest(old(self).ids(), old(self).parents(), changes@);
        }
        let mut pending: Vec<XrdsParentLink> = Vec::new();
        core::mem::swap(&mut pending, &mut self.pending_links);
        let ghost l0 = pending@;
        let mut i: usize = 0;
        while i < links.len()
            invariant
                i <= links.len(),
                pending@ == l0 + links@.take(i as int),
            decreases links.len() - i,
        {
            pending.push(links[i]);
            assert(links@.take(i + 1) =~= links@.take(i as int).push(links@[i as int]));
            assert(pending@ =~= l0 + links@.take(i + 1));
            i = i + 1;
        }
        assert(links@.take(links.len() as int) =~= links@);
        assert(pending@.skip(l0.len() as int) =~= links@);
        assert(pending@.take(l0.len() as int) =~= l0);
        self.pending_links = pending;
    }

    /// Apply every queued parent change as one batch (see `apply_parent_changes`) and leave
    /// the engine links it decided for the engine to mirror.
    pub fn apply_queued_parent_changes(&mut self)
        requires
            old(self).inv(),
        ensures
            final(self).inv(),
            old(self).relinks(*final(self), old(self).queued_parent_changes()),
            final(self).queued_parent_changes().len() == 0,
    {
        let mut changes: Vec<QueuedParentChange> = Vec::new();
        core::mem::swap(&mut changes, &mut self.queued_parent_changes);
        self.apply_changes_now(changes);
    }

    /// Dispatch every queued patch: those without an updater for their (descriptor type,
    /// patch type) pair are dropped; for the others XRDS applies its own part (a parent patch
    /// queues a parent change for a registered entity; a name or visibility patch updates the
    /// stored descriptor of that type) and hands the patch back, in order, for the engine side.
    pub fn apply_surface_updates(&mut self) -> (dispatched: Vec<QueuedSurfaceUpdate<P>>)
        requires
            old(self).inv(),
        ensures
            final(self).inv(),
            dispatched@ == dispatchable(old(self).queued_updates(), old(self).updater_pairs()),
            final(self).queued_updates().len() == 0,
            final(self).queued_parent_changes() == old(self).queued_parent_changes() + parent_requests(dispatched@, old(self).entities()),
            final(self).stored() == stored_after_updates(old(self).stored(), dispatched@),
            final(self).ids() == old(self).ids(),
            final(self).entities() == old(self).entities(),
            final(self).parents() == old(self).parents(),
            final(self).children() == old(self).children(),
            final(self).next_id() == old(self).next_id(),
            final(self).queued_components() == old(self).queued_components(),
            final(self).pending_links() == old(self).pending_links(),
            final(self).pending_despawns() == old(self).pending_despawns(),
            final(self).registry_view() == old(self).registry_view(),
            final(self).scene_view() == old(self).scene_view(),
    {
        let mut updates: Vec<QueuedSurfaceUpdate<P>> = Vec::new();
        core::mem::swap(&mut updates, &mut self.queued_updates);
        let ghost q0 = updates@;
        let ghost pairs = self.updaters.updaters();
        let ghost pc0 = self.queued_parent_changes@;
        let ghost s0 = self.stored();
        let ghost em = self.ids.entities();
        let mut dispatched: Vec<QueuedSurfaceUpdate<P>> = Vec::new();
        while updates.len() > 0
            invariant
                updates@.len() <= q0.len(),
                updates@ == q0.skip(q0.len() - updates@.len()),
                dispatched@ == dispatchable(q0.take(q0.len() - updates@.len()), pairs),
                self.queued_parent_changes@ == pc0 + parent_requests(dispatched@, em),
                self.stored() == stored_after_updates(s0, dispatched@),
                pairs == self.updaters.updaters(),
                em == self.ids.entities(),
                self.ids.ids() == old(self).ids(),
                self.hierarchy.parents() == old(self).parents(),
                self.hierarchy.children() == old(self).children(),
                self.allocator.next == old(self).next_id(),
                self.interpreters.interpreters() == old(self).interpreter_kinds(),
                self.interpreters.recipes() == old(self).recipe_kinds(),
                self.descriptors.cloners() == old(self).cloner_kinds(),
                self.queued_components@ == old(self).queued_components(),
                self.queued_updates@.len() == 0,
                self.pending_links@ == old(self).pending_links(),
                self.pending_despawns@ == old(self).pending_despawns(),
                assets_view(self.asset_catalog@) == old(self).catalog(),
                self.anchor_roots@ == old(self).anchor_roots(),
                self.keyboard() == old(self).keyboard(),
                self.panel_elements.view() == old(self).panel_elements(),
                self.track_locks.held() == old(self).locks(),
                self.track_locks.wf() == old(self).locks_wf(),
                self.track_locks.conflict() == old(self).track_conflict(),
                self.agents@ == old(self).agents(),
            decreases updates@.len(),
        {
            let ghost k = q0.len() - updates@.len();
            let u = updates.remove(0);
            assert(u == q0[k]);
            assert(q0.take(k + 1).drop_last() =~= q0.take(k));
            assert(q0.take(k + 1).last() == u);
            assert(updates@ =~= q0.skip(q0.len() - updates@.len()));
            let kind = u.patch.kind();
            if self.updaters.updater_for(u.component_type, kind) {
                let ghost before = dispatched@;
                match &u.patch {
                    XrdsPatch::Parent(pp) => {
                        if let Some(id) = self.ids.id_of(u.entity) {
                            self.queued_parent_changes.push(QueuedParentChange { child_id: id, parent_id: pp.parent_id });
                        }
                    },
                    XrdsPatch::Name(np) => {
                        let name = np.name.clone();
                        self.update_stored(u.entity, u.component_type, Some(name), None);
                    },
                    XrdsPatch::Visibility(vp) => {
                        self.update_stored(u.entity, u.component_type, None, Some(vp.visible));
                    },
                    _ => {},
                }
                dispatched.push(u);
                proof {
                    assert(dispatched@.drop_last() == before);
                    assert(self.queued_parent_changes@ =~= pc0 + parent_requests(dispatched@, em));
                }
            }
        }
        assert(q0.take(q0.len() as int) =~= q0);
        dispatched
    }

    /// Rename and/or show/hide the descriptor of type `kind` stored on `entity`.
    fn update_stored(&mut self, entity: Entity, kind: XrdsDescriptorKind, name: Option<String>, visible: Option<bool>)
        ensures
            old(self).stored().contains_key(entity.0) && old(self).stored()[entity.0].kind == kind ==> {
                let d0 = old(self).stored()[entity.0];
                let d1 = final(self).stored()[entity.0];
                &&& final(self).stored().contains_key(entity.0)
                &&& d1.name == (match name { Some(n) => n@, None => d0.name })
                &&& d1.visible == (match visible { Some(v) => v, None => d0.visible })
                &&& d1.kind == d0.kind
                &&& d1.payload == d0.payload
                &&& d1.gltf_source == d0.gltf_source
            },
            final(self).stored() == (if old(self).stored().contains_key(entity.0) && old(self).stored()[entity.0].kind == kind {
                old(self).stored().insert(entity.0, renamed(old(self).stored()[entity.0], name_view(name), visible))
            } else {
                old(self).stored()
            }),
            final(self).ids == old(self).ids,
            final(self).hierarchy == old(self).hierarchy,
            final(self).allocator == old(self).allocator,
            final(self).interpreters == old(self).interpreters,
            final(self).descriptors == old(self).descriptors,
            final(self).updaters == old(self).updaters,
            final(self).queued_components == old(self).queued_components,
            final(self).queued_parent_changes == old(self).queued_parent_changes,
            final(self).queued_updates == old(self).queued_updates,
            final(self).pending_links == old(self).pending_links,
            final(self).pending_despawns == old(self).pending_despawns,
            final(self).asset_catalog == old(self).asset_catalog,
            final(self).anchor_roots == old(self).anchor_roots,
            final(self).keyboard == old(self).keyboard,
            final(self).panel_elements == old(self).panel_elements,
            final(self).track_locks == old(self).track_locks,
            final(self).agents == old(self).agents,
    {
        let matches = match self.stored.get(&entity.0) {
            Some(d) => d.kind == kind,
            None => false,
        };
        if matches {
            let mut d = self.stored.remove(&entity.0).unwrap();
            match name {
                Some(n) => { d.name = n; },
                None => {},
            }
            match visible {
                Some(v) => { d.visible = v; },
                None => {},
            }
            self.stored.insert(entity.0, d);
        }
        assert(self.stored() =~= (if old(self).stored().contains_key(entity.0) && old(self).stored()[entity.0].kind == kind {
            old(self).stored().insert(entity.0, renamed(old(self).stored()[entity.0], name_view(name), visible))
        } else {
            old(self).stored()
        }));
    }

    /// Every live XRDS id, each once, in no particular order.
    pub fn all_runtime_ids(&self) -> (r: Vec<XrdsId>)
        ensures
            r@.no_duplicates(),
            forall|x: u64| #[trigger] self.ids().contains_key(x) <==> r@.contains(XrdsId(x)),
    {
        self.ids.all_ids()
    }

    /// Show or hide immediately: when an updater handles visibility patches for `C`, the
    /// `C` descriptor stored on the entity follows (and `true` is returned); the engine-side
    /// visibility is set by the caller either way.
    pub fn set_visibility<C: XrdsComponentType>(&mut self, handle: &Handle<C>, visible: bool) -> (through_updater: bool)
        ensures
            through_updater == old(self).updater_pairs().contains((C::spec_kind(), XrdsPatchKind::Visibility)),
            through_updater && old(self).stored().contains_key(handle.spec_entity().0)
                && old(self).stored()[handle.spec_entity().0].kind == C::spec_kind() ==> {
                &&& final(self).stored()[handle.spec_entity().0].visible == visible
                &&& final(self).stored()[handle.spec_entity().0].name == old(self).stored()[handle.spec_entity().0].name
            },
            final(self).stored() == (if through_updater
                && old(self).stored().contains_key(handle.spec_entity().0)
                && old(self).stored()[handle.spec_entity().0].kind == C::spec_kind() {
                old(self).stored().insert(handle.spec_entity().0, renamed(old(self).stored()[handle.spec_entity().0], None, Some(visible)))
            } else {
                old(self).stored()
            }),
            final(self).ids() == old(self).ids(),
            final(self).entities() == old(self).entities(),
            final(self).parents() == old(self).parents(),
            final(self).children() == old(self).children(),
            final(self).next_id() == old(self).next_id(),
            final(self).queue_view() == old(self).queue_view(),
            final(self).registry_view() == old(self).registry_view(),
            final(self).scene_view() == old(self).scene_view(),
            old(self).inv() ==> final(self).inv(),
    {
        let kind = C::kind();
        if self.updaters.updater_for(kind, XrdsPatchKind::Visibility) {
            self.update_stored(handle.entity(), kind, None, Some(visible));
            true
        } else {
            false
        }
    }

    /// Replace the payload of the descriptor stored on `entity` after the engine side applied
    /// a payload patch to it. Returns whether the entity has a stored descriptor.
    pub fn set_stored_payload(&mut self, entity: Entity, payload: D) -> (found: bool)
        ensures
            found == old(self).stored().contains_key(entity.0),
            final(self).stored() == (if found {
                old(self).stored().insert(entity.0, DescriptorView { payload, ..old(self).stored()[entity.0] })
            } else {
                old(self).stored()
            }),
            final(self).ids() == old(self).ids(),
            final(self).entities() == old(self).entities(),
            final(self).parents() == old(self).parents(),
            final(self).children() == old(self).children(),
            final(self).next_id() == old(self).next_id(),
            final(self).queue_view() == old(self).queue_view(),
            final(self).registry_view() == old(self).registry_view(),
            final(self).scene_view() == old(self).scene_view(),
            old(self).inv() ==> final(self).inv(),
    {
        match self.stored.remove(&entity.0) {
            Some(mut d) => {
                d.payload = payload;
                self.stored.insert(entity.0, d);
                assert(self.stored() =~= old(self).stored().insert(entity.0, DescriptorView { payload, ..old(self).stored()[entity.0] }));
                true
            },
            None => {
                assert(self.stored() =~= old(self).stored());
                false
            },
        }
    }

    /// Record the new source of the glTF asset descriptor stored on `entity`, once the engine
    /// side accepted a source patch. Returns whether such a descriptor is stored there.
    pub fn record_gltf_source(&mut self, entity: Entity, source: GltfAssetSourcePatch) -> (found: bool)
        ensures
            found == (old(self).stored().contains_key(entity.0) && old(self).stored()[entity.0].kind == XrdsDescriptorKind::GltfAsset),
            final(self).stored() == (if found {
                old(self).stored().insert(entity.0, DescriptorView { gltf_source: source_view(Some(source)), ..old(self).stored()[entity.0] })
            } else {
                old(self).stored()
            }),
            final(self).ids() == old(self).ids(),
            final(self).entities() == old(self).entities(),
            final(self).parents() == old(self).parents(),
            final(self).children() == old(self).children(),
            final(self).next_id() == old(self).next_id(),
            final(self).queue_view() == old(self).queue_view(),
            final(self).registry_view() == old(self).registry_view(),
            final(self).scene_view() == old(self).scene_view(),
            old(self).inv() ==> final(self).inv(),
    {
        let is_gltf = match self.stored.get(&entity.0) {
            Some(d) => match d.kind {
                XrdsDescriptorKind::GltfAsset => true,
                _ => false,
            },
            None => false,
        };
        if is_gltf {
            let mut d = self.stored.remove(&entity.0).unwrap();
            d.gltf_source = Some(source);
            self.stored.insert(entity.0, d);
            assert(self.stored() =~= old(self).stored().insert(entity.0, DescriptorView { gltf_source: source_view(Some(source)), ..old(self).stored()[entity.0] }));
        }
        is_gltf
    }

    /// Carry out a dispatched glTF source patch on `entity`: judge the new source, given the
    /// file the engine side found for its path (see `validate_gltf_source`), and record it on
    /// the stored glTF descriptor when it is accepted; a refused source leaves the world as it
    /// was.
    pub fn apply_gltf_source(&mut self, entity: Entity, source: GltfAssetSourcePatch, file: Option<XrdsGltfFile>) -> (r: Result<(), XrdsGltfSourceError>)
        requires
            old(self).inv(),
        ensures
            final(self).inv(),
            source_verdict(source.gltf_asset_path@, source.scene_index as nat, file, r),
            r is Err ==> old(self).unchanged(*final(self)),
            r is Ok ==> {
                let found = old(self).stored().contains_key(entity.0) && old(self).stored()[entity.0].kind == XrdsDescriptorKind::GltfAsset;
                &&& final(self).stored() == (if found {
                    old(self).stored().insert(entity.0, DescriptorView { gltf_source: source_view(Some(source)), ..old(self).stored()[entity.0] })
                } else {
                    old(self).stored()
                })
                &&& final(self).ids() == old(self).ids()
                &&& final(self).entities() == old(self).entities()
                &&& final(self).parents() == old(self).parents()
                &&& final(self).children() == old(self).children()
                &&& final(self).next_id() == old(self).next_id()
                &&& final(self).queue_view() == old(self).queue_view()
                &&& final(self).registry_view() == old(self).registry_view()
                &&& final(self).scene_view() == old(self).scene_view()
            },
    {
        let verdict = validate_gltf_source(source.gltf_asset_path.as_str(), source.scene_index, file);
        if verdict.is_ok() {
            let _ = self.record_gltf_source(entity, source);
        }
        verdict
    }

    /// Hand the engine links decided so far to the engine, oldest first.
    pub fn take_pending_links(&mut self) -> (links: Vec<XrdsParentLink>)
        ensures
            links@ == old(self).pending_links(),
            final(self).pending_links().len() == 0,
            final(self).index_view() == old(self).index_view(),
            final(self).queued_components() == old(self).queued_components(),
            final(self).queued_parent_changes() == old(self).queued_parent_changes(),
            final(self).queued_updates() == old(self).queued_updates(),
            final(self).pending_despawns() == old(self).pending_despawns(),
            final(self).registry_view() == old(self).registry_view(),
            final(self).scene_view() == old(self).scene_view(),
            old(self).inv() ==> final(self).inv(),
    {
        let mut links: Vec<XrdsParentLink> = Vec::new();
        core::mem::swap(&mut links, &mut self.pending_links);
        links
    }

    /// Hand the entities left for despawning to the engine, in order.
    pub fn take_pending_despawns(&mut self) -> (entities: Vec<Entity>)
        ensures
            entities@ == old(self).pending_despawns(),
            final(self).pending_despawns().len() == 0,
            final(self).index_view() == old(self).index_view(),
            final(self).queued_components() == old(self).queued_components(),
            final(self).queued_parent_changes() == old(self).queued_parent_changes(),
            final(self).queued_updates() == old(self).queued_updates(),
            final(self).pending_links() == old(self).pending_links(),
            final(self).registry_view() == old(self).registry_view(),
            final(self).scene_view() == old(self).scene_view(),
            old(self).inv() ==> final(self).inv(),
    {
        let mut entities: Vec<Entity> = Vec::new();
        core::mem::swap(&mut entities, &mut self.pending_despawns);
        entities
    }

    /// Register the entity the engine realized for one step of a planned duplicate, then
    /// attach it under its planned parent right away, as a batch of one change.
    pub fn spawn_duplicate_step(&mut self, step: XrdsDuplicateStep<D>, entity: Entity)
        requires
            old(self).inv(),
            !old(self).ids().contains_key(step.id.0),
            !old(self).entities().contains_key(entity.0),
        ensures
            final(self).inv(),
            final(self).ids() == old(self).ids().insert(step.id.0, entity.0),
            final(self).entities() == old(self).entities().insert(entity.0, step.id.0),
            final(self).stored() == old(self).stored().insert(entity.0, descriptor_view(step.descriptor)),
            final(self).parents() == parents_after_changes(
                final(self).ids(),
                with_node(old(self).parents(), step.id.0),
                seq![QueuedParentChange { child_id: step.id, parent_id: step.parent_id }],
            ),
            final(self).children() == children_after_changes(
                final(self).ids(),
                with_node(old(self).parents(), step.id.0),
                with_child_list(old(self).children(), step.id.0),
                seq![QueuedParentChange { child_id: step.id, parent_id: step.parent_id }],
            ),
            step.parent_id matches Some(q) ==> (old(self).ids().contains_key(q.0) && old(self).parents().contains_key(q.0)
                ==> parent_step(final(self).parents(), step.id.0) == Some(q.0)),
            final(self).next_id() == old(self).next_id(),
            final(self).pending_links().len() >= old(self).pending_links().len(),
            final(self).pending_links().take(old(self).pending_links().len() as int) == old(self).pending_links(),
            final(self).queued_components() == old(self).queued_components(),
            final(self).queued_parent_changes() == old(self).queued_parent_changes(),
            final(self).queued_updates() == old(self).queued_updates(),
            final(self).pending_despawns() == old(self).pending_despawns(),
            final(self).registry_view() == old(self).registry_view(),
            final(self).scene_view() == old(self).scene_view(),
    {
        let id = step.id;
        let parent_id = step.parent_id;
        self.register_spawned(id, step.descriptor, entity);
        let ghost mid = *self;
        proof {
            if let Some(q) = parent_id {
                if old(self).ids().contains_key(q.0) && old(self).parents().contains_key(q.0) {
                    self.lemma_ids_finite();
                    self.hierarchy.lemma_finite();
                    assert forall|y: u64| #[trigger] parent_step(mid.parents(), y) != Some(id.0) by {
                        if parent_step(mid.parents(), y) == Some(id.0) {
                            assert(parent_step(old(self).parents(), y) == Some(id.0));
                        }
                    }
                    lemma_leaf_attach(mid.ids(), mid.parents(), id.0, q.0);
                    assert(seq![QueuedParentChange { child_id: id, parent_id }] == seq![attach_change(id.0, q.0)]);
                }
            }
        }
        let mut changes: Vec<QueuedParentChange> = Vec::new();
        changes.push(QueuedParentChange { child_id: id, parent_id });
        assert(changes@ =~= seq![QueuedParentChange { child_id: id, parent_id }]);
        self.apply_changes_now(changes);
    }

    /// `after` and `r` are what importing `nodes` into this world gives (see
    /// `import_runtime_nodes`).
    pub open spec fn imports_runtime_nodes(self, after: Self, nodes: Seq<XrdsImportNode<D>>, r: Result<Vec<XrdsId>, XrdsSceneImportError>) -> bool {
        &&& (first_refused(self.ids(), nodes) matches Some(f) ==> {
                &&& r == Err::<Vec<XrdsId>, XrdsSceneImportError>(XrdsSceneImportError::DuplicateRuntimeId(nodes[f].id))
                &&& self.imports_nodes(after, nodes.take(f))
                &&& after.pending_links() == self.pending_links()
                &&& after.pending_despawns() == self.pending_despawns() + import_realized(nodes.skip(f))
            })
        &&& (first_refused(self.ids(), nodes) is None ==> {
                let ids1 = import_ids(self.ids(), nodes);
                let p1 = import_nodes(self.parents(), nodes);
                let ch1 = import_child_lists(self.children(), nodes);
                let changes = import_parent_changes(nodes);
                &&& r matches Ok(imported) && imported@ == import_list(nodes)
                &&& after.ids() == ids1
                &&& after.entities() == import_entities(self.entities(), nodes)
                &&& after.stored() == import_stored(self.stored(), nodes)
                &&& after.next_id() == import_next(self.next_id(), nodes)
                &&& after.parents() == parents_after_changes(ids1, p1, changes)
                &&& after.children() == children_after_changes(ids1, p1, ch1, changes)
                &&& after.pending_links().len() >= self.pending_links().len()
                &&& after.pending_links().take(self.pending_links().len() as int) == self.pending_links()
                &&& links_match(
                    after.pending_links().skip(self.pending_links().len() as int),
                    ids1,
                    planned_links(ids1, requested_parents(p1, changes), change_order(changes)),
                )
                &&& after.pending_despawns() == self.pending_despawns()
                &&& after.queued_components() == self.queued_components()
                &&& after.queued_parent_changes() == self.queued_parent_changes()
                &&& after.queued_updates() == self.queued_updates()
                &&& after.registry_view() == self.registry_view()
                &&& after.scene_view() == self.scene_view()
            })
    }

    /// `after` is this world with the realized nodes of `nodes` registered in turn (ids
    /// reserved, entities registered, descriptors stored, hierarchy entries made), before any
    /// parent is assigned; queues and pending engine work aside, nothing else changed.
    pub open spec fn imports_nodes(self, after: Self, nodes: Seq<XrdsImportNode<D>>) -> bool {
        &&& after.ids() == import_ids(self.ids(), nodes)
        &&& after.entities() == import_entities(self.entities(), nodes)
        &&& after.stored() == import_stored(self.stored(), nodes)
        &&& after.parents() == import_nodes(self.parents(), nodes)
        &&& after.children() == import_child_lists(self.children(), nodes)
        &&& after.next_id() == import_next(self.next_id(), nodes)
        &&& after.queued_components() == self.queued_components()
        &&& after.queued_parent_changes() == self.queued_parent_changes()
        &&& after.queued_updates() == self.queued_updates()
        &&& after.registry_view() == self.registry_view()
        &&& after.scene_view() == self.scene_view()
    }

    /// Import scene nodes realized by the engine, preserving their ids: each node's id is
    /// reserved and its entity registered, in order; a glTF node the engine could not load is
    /// skipped after its id is reserved. A node whose id is already live refuses the import:
    /// the nodes before it stay imported, no parent is assigned, and the entities realized for
    /// it and the nodes after it are left for despawning. Otherwise the authored parents are
    /// assigned as one batch and the imported ids are returned in order.
    #[verifier::spinoff_prover]
    #[verifier::loop_isolation(false)]
    pub fn import_runtime_nodes(&mut self, nodes: Vec<XrdsImportNode<D>>) -> (r: Result<Vec<XrdsId>, XrdsSceneImportError>)
        requires
            old(self).inv(),
            fresh_realized(old(self).entities(), nodes@),
            forall|i: int| 0 <= i < nodes@.len() && (#[trigger] nodes@[i]).entity is None ==> nodes@[i].descriptor.kind == XrdsDescriptorKind::GltfAsset,
        ensures
            final(self).inv(),
            old(self).imports_runtime_nodes(*final(self), nodes@, r),
    {
        let ghost w0 = *self;
        let ghost all = nodes@;
        let n = nodes.len();
        let mut rest = nodes;
        let mut imported: Vec<XrdsId> = Vec::new();
        let mut changes: Vec<QueuedParentChange> = Vec::new();
        let mut k: usize = 0;
        while k < n
            invariant
                k <= n,
                n == all.len(),
                rest@ == all.skip(k as int),
                w0 == *old(self),
                self.inv(),
                w0.imports_nodes(*self, all.take(k as int)),
                self.pending_links() == w0.pending_links(),
                self.pending_despawns() == w0.pending_despawns(),
                imported@ == import_list(all.take(k as int)),
                changes@ == import_parent_changes(all.take(k as int)),
                forall|j: int| 0 <= j < k ==> !#[trigger] import_refuses(w0.ids(), all, j),
                fresh_realized(w0.entities(), all),
            decreases n - k,
        {
            let node = rest.remove(0);
            proof {
                lemma_take_next(all, k as int);
                assert(node == all[k as int]);
                assert(rest@ =~= all.skip(k + 1));
            }
            if self.ids.contains_id(node.id) {
                proof {
                    assert(import_refuses(w0.ids(), all, k as int));
                    lemma_first_refused(w0.ids(), all, k as int);
                    lemma_realized_front(all.skip(k as int));
                    assert(all.skip(k as int).skip(1) =~= all.skip(k + 1));
                }
                let id = node.id;
                let ghost before = *self;
                self.discard_realized(node.entity, rest);
                proof {
                    w0.lemma_imports_then_discard(before, *self, all.take(k as int), all.skip(k as int));
                }
                return Err(XrdsSceneImportError::DuplicateRuntimeId(id));
            }
            proof {
                lemma_fresh_next(w0.entities(), all, k as int);
            }
            let id = node.id;
            let parent_id = node.parent_id;
            let realized = node.entity.is_some();
            let ghost mid = *self;
            self.import_node(node);
            proof {
                w0.lemma_imports_compose(mid, *self, all, k as int);
            }
            if realized {
                if let Some(_) = parent_id {
                    changes.push(QueuedParentChange { child_id: id, parent_id });
                }
                imported.push(id);
            }
            k = k + 1;
        }
        proof {
            assert(all.take(n as int) =~= all);
            if first_refused(w0.ids(), all) is Some {
                let i = choose|i: int| 0 <= i < all.len() && #[trigger] import_refuses(w0.ids(), all, i);
                assert(!import_refuses(w0.ids(), all, i));
            }
        }
        self.apply_changes_now(changes);
        Ok(imported)
    }

    /// Reserve the id of one node and register the entity realized for it, if any.
    fn import_node(&mut self, node: XrdsImportNode<D>)
        requires
            old(self).inv(),
            !old(self).ids().contains_key(node.id.0),
            node.entity matches Some(e) ==> !old(self).entities().contains_key(e.0),
        ensures
            final(self).inv(),
            old(self).imports_nodes(*final(self), seq![node]),
            final(self).pending_links() == old(self).pending_links(),
            final(self).pending_despawns() == old(self).pending_despawns(),
    {
        let ghost single = seq![node];
        proof {
            reveal_with_fuel(import_ids, 2);
            reveal_with_fuel(import_entities, 2);
            reveal_with_fuel(import_stored, 2);
            reveal_with_fuel(import_nodes, 2);
            reveal_with_fuel(import_child_lists, 2);
            reveal_with_fuel(import_next, 2);
            assert(single.drop_last() =~= Seq::<XrdsImportNode<D>>::empty());
            assert(single.last() == node);
        }
        let _ = self.reserve_runtime_id(node.id);
        let XrdsImportNode { id, parent_id, descriptor, entity } = node;
        match entity {
            Some(en) => {
                self.register_spawned(id, descriptor, en);
            },
            None => {},
        }
    }

    /// Discarding entities after an import keeps what the import registered.
    pub proof fn lemma_imports_then_discard(self, before: Self, after: Self, nodes: Seq<XrdsImportNode<D>>, rest: Seq<XrdsImportNode<D>>)
        requires
            rest.len() > 0,
            self.imports_nodes(before, nodes),
            before.pending_despawns() == self.pending_despawns(),
            before.discards(after, (match rest[0].entity { Some(e) => seq![e], None => Seq::<Entity>::empty() }) + import_realized(rest.skip(1))),
        ensures
            self.imports_nodes(after, nodes),
            after.pending_despawns() == self.pending_despawns() + import_realized(rest),
    {
        lemma_realized_front(rest);
    }

    /// Importing the nodes before `k`, then node `k`, is importing the nodes up to `k`.
    pub proof fn lemma_imports_compose(self, mid: Self, after: Self, nodes: Seq<XrdsImportNode<D>>, k: int)
        requires
            0 <= k < nodes.len(),
            self.imports_nodes(mid, nodes.take(k)),
            mid.imports_nodes(after, seq![nodes[k]]),
        ensures
            self.imports_nodes(after, nodes.take(k + 1)),
    {
        let single = seq![nodes[k]];
        reveal_with_fuel(import_ids, 2);
        reveal_with_fuel(import_entities, 2);
        reveal_with_fuel(import_stored, 2);
        reveal_with_fuel(import_nodes, 2);
        reveal_with_fuel(import_child_lists, 2);
        reveal_with_fuel(import_next, 2);
        assert(single.drop_last() =~= Seq::<XrdsImportNode<D>>::empty());
        assert(single.last() == nodes[k]);
        lemma_take_next(nodes, k);
    }

    /// Leave the entity realized for a refused node, and those realized for the nodes after
    /// it, for despawning.
    fn discard_realized(&mut self, entity: Option<Entity>, later: Vec<XrdsImportNode<D>>)
        ensures
            old(self).discards(*final(self), (match entity { Some(e) => seq![e], None => Seq::<Entity>::empty() }) + import_realized(later@)),
            old(self).inv() ==> final(self).inv(),
            final(self).pending_links() == old(self).pending_links(),
    {
        let ghost d0 = self.pending_despawns@;
        let mut pending: Vec<Entity> = Vec::new();
        core::mem::swap(&mut pending, &mut self.pending_despawns);
        let ghost first = match entity { Some(e) => seq![e], None => Seq::<Entity>::empty() };
        if let Some(e) = entity {
            pending.push(e);
        }
        assert(pending@ =~= d0 + first);
        let mut i: usize = 0;
        while i < later.len()
            invariant
                i <= later@.len(),
                pending@ == d0 + first + import_realized(later@.take(i as int)),
            decreases later.len() - i,
        {
            assert(later@.take(i + 1).drop_last() =~= later@.take(i as int));
            assert(later@.take(i + 1).last() == later@[i as int]);
            if let Some(e) = later[i].entity {
                pending.push(e);
            }
            assert(pending@ =~= d0 + first + import_realized(later@.take(i + 1)));
            i = i + 1;
        }
        assert(later@.take(later.len() as int) =~= later@);
        assert(d0 + first + import_realized(later@) =~= d0 + (first + import_realized(later@)));
        self.pending_despawns = pending;
    }

    /// Acquire asset locks on `wanted` for the track agent `agent`.
    pub fn acquire_locks(&mut self, wanted: &[Entity], agent: Entity)
        requires
            old(self).inv(),
        ensures
            final(self).inv(),
            forall|e: u64| #[trigger] final(self).locks().contains_key(e) <==> (old(self).locks().contains_key(e) || wanted@.contains(Entity(e))),
            forall|e: u64| #[trigger] final(self).locks().contains_key(e) ==> final(self).locks()[e] == (if wanted@.contains(Entity(e)) { agent.0 } else { old(self).locks()[e] }),
            final(self).index_view() == old(self).index_view(),
            final(self).queue_view() == old(self).queue_view(),
            final(self).registry_view() == old(self).registry_view(),
            final(self).agents() == old(self).agents(),
            old(self).same_but_agents(*final(self)),
    {
        self.track_locks.acquire(wanted, agent)
    }

    /// The most recent refusal of a track to start, for an editor to show.
    pub fn last_track_conflict(&self) -> (r: &Option<XrdsTrackConflict>)
        ensures
            *r == self.track_conflict(),
    {
        self.track_locks.last_conflict()
    }

    /// Claim the assets `wanted` for the newly spawned agent `agent` of the track `track`: a
    /// track runs whole or not at all, and a running track is never preempted. When another
    /// agent holds any of them, nothing is acquired, the refusal (the track's name and the
    /// contended entities, in increasing order, each once) is recorded and the agent is left
    /// for despawning; otherwise the agent holds them all. Returns whether it did.
    pub fn claim_track_assets(&mut self, track: &str, wanted: &[Entity], agent: Entity) -> (claimed: bool)
        requires
            old(self).inv(),
        ensures
            final(self).inv(),
            claimed == forall|e: Entity| #[trigger] wanted@.contains(e) ==>
                !old(self).locks().contains_key(e.0) || old(self).locks()[e.0] == agent.0,
            forall|e: u64| #[trigger] old(self).locks().contains_key(e) && old(self).locks()[e] != agent.0 ==>
                final(self).locks().contains_key(e) && final(self).locks()[e] == old(self).locks()[e],
            claimed ==> {
                &&& forall|e: u64| #[trigger] final(self).locks().contains_key(e) <==> (old(self).locks().contains_key(e) || wanted@.contains(Entity(e)))
                &&& forall|e: u64| #[trigger] final(self).locks().contains_key(e) ==> final(self).locks()[e] == (if wanted@.contains(Entity(e)) { agent.0 } else { old(self).locks()[e] })
                &&& final(self).pending_despawns() == old(self).pending_despawns()
                &&& final(self).track_conflict() == old(self).track_conflict()
            },
            !claimed ==> {
                &&& final(self).locks() == old(self).locks()
                &&& final(self).pending_despawns() == old(self).pending_despawns().push(agent)
                &&& final(self).track_conflict() matches Some(c) && {
                    &&& c.blocked_track@ == track@
                    &&& increasing(c.contended@)
                    &&& forall|e: Entity| #[trigger] c.contended@.contains(e) <==>
                        (wanted@.contains(e) && old(self).locks().contains_key(e.0) && old(self).locks()[e.0] != agent.0)
                }
            },
            final(self).index_view() == old(self).index_view(),
            final(self).queued_components() == old(self).queued_components(),
            final(self).queued_parent_changes() == old(self).queued_parent_changes(),
            final(self).queued_updates() == old(self).queued_updates(),
            final(self).pending_links() == old(self).pending_links(),
            final(self).registry_view() == old(self).registry_view(),
            final(self).catalog() == old(self).catalog(),
            final(self).anchor_roots() == old(self).anchor_roots(),
            final(self).keyboard() == old(self).keyboard(),
            final(self).panel_elements() == old(self).panel_elements(),
            final(self).agents() == old(self).agents(),
    {
        let sorted = sorted_unique(wanted);
        let contended = self.track_locks.conflicts(sorted.as_slice(), agent);
        proof {
            lemma_conflicting(self.locks(), sorted@, agent.0);
        }
        if contended.len() > 0 {
            proof {
                let c0 = contended@[0];
                assert(contended@.contains(c0));
                assert(wanted@.contains(c0));
            }
            let mut blocked_track = String::new();
            let n = track.unicode_len();
            let mut i: usize = 0;
            while i < n
                invariant
                    i <= n,
                    n == track@.len(),
                    blocked_track@ == track@.take(i as int),
                decreases n - i,
            {
                crate::paths::push_char(&mut blocked_track, track.get_char(i));
                assert(track@.take(i + 1) =~= track@.take(i as int).push(track@[i as int]));
                i = i + 1;
            }
            assert(track@.take(n as int) =~= track@);
            self.track_locks.record_conflict(XrdsTrackConflict { blocked_track, contended });
            self.pending_despawns.push(agent);
            assert(self.locks() == old(self).locks());
            false
        } else {
            proof {
                assert forall|e: Entity| #[trigger] wanted@.contains(e) implies
                    !old(self).locks().contains_key(e.0) || old(self).locks()[e.0] == agent.0 by {
                    assert(sorted@.contains(e));
                    if old(self).locks().contains_key(e.0) && old(self).locks()[e.0] != agent.0 {
                        assert(contended@.contains(e));
                    }
                }
            }
            self.track_locks.acquire(wanted, agent);
            proof {
                assert forall|e: u64| #[trigger] old(self).locks().contains_key(e) && old(self).locks()[e] != agent.0 implies
                    !wanted@.contains(Entity(e)) by {
                    if wanted@.contains(Entity(e)) {
                        assert(sorted@.contains(Entity(e)));
                        assert(contended@.contains(Entity(e)));
                    }
                }
                assert forall|e: u64| #[trigger] old(self).locks().contains_key(e) && old(self).locks()[e] != agent.0 implies
                    self.locks().contains_key(e) && self.locks()[e] == old(self).locks()[e] by {
                    assert(!wanted@.contains(Entity(e)));
                    assert(self.locks().contains_key(e));
                }
            }
            true
        }
    }

    /// The agent holding `entity`, if any.
    pub fn lock_holder_of(&self, entity: Entity) -> (r: Option<Entity>)
        ensures
            r == (if self.locks().contains_key(entity.0) { Some(Entity(self.locks()[entity.0])) } else { None }),
    {
        self.track_locks.holder_of(entity)
    }

    /// The live nodes in increasing id order, each with its entity and recorded parent: the
    /// order and links a scene export writes.
    pub fn export_order(&self) -> (entries: Vec<XrdsExportEntry>)
        ensures
            forall|i: int, j: int| 0 <= i < j < entries@.len() ==> entries@[i].id.0 < entries@[j].id.0,
            forall|x: u64| #[trigger] self.ids().contains_key(x) <==> exists|i: int| 0 <= i < entries@.len() && #[trigger] entries@[i].id.0 == x,
            forall|i: int| 0 <= i < entries@.len() ==> {
                let e = #[trigger] entries@[i];
                &&& self.ids().contains_key(e.id.0)
                &&& e.entity == Entity(self.ids()[e.id.0])
                &&& raw_id(e.parent_id) == parent_step(self.parents(), e.id.0)
            },
    {
        let ids = self.ids.all_ids();
        let mut sorted: Vec<XrdsId> = Vec::new();
        let mut i: usize = 0;
        while i < ids.len()
            invariant
                i <= ids@.len(),
                forall|a: int, b: int| 0 <= a < b < sorted@.len() ==> sorted@[a].0 < sorted@[b].0,
                forall|x: XrdsId| #[trigger] sorted@.contains(x) <==> ids@.take(i as int).contains(x),
                ids@.no_duplicates(),
            decreases ids.len() - i,
        {
            let x = ids[i];
            assert(!sorted@.contains(x)) by {
                if sorted@.contains(x) {
                    let j = choose|j: int| 0 <= j < i && ids@.take(i as int)[j] == x;
                    assert(ids@[j] == ids@[i as int]);
                }
            }
            let ghost before = sorted@;
            let pos = insertion_point(&sorted, x.0);
            sorted.insert(pos, x);
            proof {
                assert(ids@.take(i + 1) =~= ids@.take(i as int).push(x));
                assert forall|y: XrdsId| #[trigger] sorted@.contains(y) <==> ids@.take(i + 1).contains(y) by {
                    crate::hierarchy::lemma_push_contains(ids@.take(i as int), x, y);
                    if sorted@.contains(y) {
                        let j = choose|j: int| 0 <= j < sorted@.len() && sorted@[j] == y;
                        if j < pos {
                            assert(before[j] == y);
                        } else if j > pos {
                            assert(before[j - 1] == y);
                        }
                    }
                    if before.contains(y) {
                        let j = choose|j: int| 0 <= j < before.len() && before[j] == y;
                        if j < pos {
                            assert(sorted@[j] == y);
                        } else {
                            assert(sorted@[j + 1] == y);
                        }
                    }
                    if y == x {
                        assert(sorted@[pos as int] == y);
                    }
                }
                assert forall|a: int, b: int| 0 <= a < b < sorted@.len() implies sorted@[a].0 < sorted@[b].0 by {
                    if a < pos && b < pos {
                        assert(sorted@[a] == before[a] && sorted@[b] == before[b]);
                    } else if a < pos && b == pos {
                        assert(sorted@[a] == before[a]);
                    } else if a < pos {
                        assert(sorted@[a] == before[a] && sorted@[b] == before[b - 1]);
                        if b - 1 > a {
                        }
                    } else if a == pos {
                        assert(sorted@[b] == before[b - 1]);
                    } else {
                        assert(sorted@[a] == before[a - 1] && sorted@[b] == before[b - 1]);
                    }
                }
            }
            i = i + 1;
        }
        assert(ids@.take(ids.len() as int) =~= ids@);
        let mut entries: Vec<XrdsExportEntry> = Vec::new();
        let mut k: usize = 0;
        while k < sorted.len()
            invariant
                k <= sorted@.len(),
                entries@.len() == k,
                forall|a: int, b: int| 0 <= a < b < sorted@.len() ==> sorted@[a].0 < sorted@[b].0,
                forall|x: XrdsId| #[trigger] sorted@.contains(x) ==> self.ids().contains_key(x.0),
                forall|j: int| 0 <= j < k ==> {
                    let e = #[trigger] entries@[j];
                    &&& e.id == sorted@[j]
                    &&& e.entity == Entity(self.ids()[e.id.0])
                    &&& raw_id(e.parent_id) == parent_step(self.parents(), e.id.0)
                },
            decreases sorted.len() - k,
        {
            let id = sorted[k];
            assert(sorted@.contains(id));
            let entity = self.ids.entity_of(id).unwrap();
            let parent_id = self.hierarchy.parent_id_of(id);
            entries.push(XrdsExportEntry { id, entity, parent_id });
            k = k + 1;
        }
        proof {
            assert forall|x: u64| #[trigger] self.ids().contains_key(x) <==> exists|i: int| 0 <= i < entries@.len() && #[trigger] entries@[i].id.0 == x by {
                if self.ids().contains_key(x) {
                    assert(ids@.contains(XrdsId(x)));
                    assert(sorted@.contains(XrdsId(x)));
                    let j = choose|j: int| 0 <= j < sorted@.len() && sorted@[j] == XrdsId(x);
                    assert(entries@[j].id.0 == x);
                }
                if exists|i: int| 0 <= i < entries@.len() && #[trigger] entries@[i].id.0 == x {
                    let i = choose|i: int| 0 <= i < entries@.len() && #[trigger] entries@[i].id.0 == x;
                    assert(sorted@[i] == entries@[i].id);
                    assert(sorted@.contains(sorted@[i]));
                }
            }
            assert forall|i: int| 0 <= i < entries@.len() implies self.ids().contains_key((#[trigger] entries@[i]).id.0) by {
                assert(sorted@.contains(sorted@[i]));
            }
        }
        entries
    }

    /// The asset catalog a scene export writes: the glTF entries rebuilt from the exported
    /// glTF nodes `refs`, followed by the runtime catalog's entries whose id is still free.
    pub fn export_asset_catalog(&self, refs: &[XrdsGltfAssetRef]) -> (assets: Vec<XrdsSceneAsset>)
        ensures
            assets_view(assets@) == merged_catalog(self.catalog(), rebuilt_catalog(refs@).0),
    {
        let rebuilt = reconstruct_asset_catalog(refs);
        merge_asset_catalogs(self.asset_catalog.as_slice(), rebuilt)
    }

    /// The file the runtime catalog names `asset_id` for an asset of kind `kind` (how
    /// environment maps and material textures are looked up), if any.
    pub fn resolve_asset_uri(&self, asset_id: &str, kind: XrdsSceneAssetKind) -> (r: Option<String>)
        ensures
            name_of(r) == resolved_uri(self.catalog(), asset_id@, kind),
    {
        resolve_asset_uri(self.asset_catalog.as_slice(), asset_id, kind)
    }

    /// The source of the glTF asset descriptor stored on the entity of `handle`.
    pub fn gltf_source_of(&self, handle: &Handle<XrdsGltfAsset>) -> (r: Option<GltfAssetSourcePatch>)
        ensures
            source_view(r) == stored_gltf_source(self.stored(), handle.spec_entity()),
    {
        let entity = handle.entity();
        match self.stored.get(&entity.0) {
            Some(d) => match d.kind {
                XrdsDescriptorKind::GltfAsset => copy_gltf_source(&d.gltf_source),
                _ => None,
            },
            None => None,
        }
    }
}

impl<D: Clone, P> XrdsWorld<D, P> {
    /// `x` is registered, has a stored descriptor, and descriptors of its type can be cloned.
    pub open spec fn clonable(self, x: u64) -> bool {
        &&& self.ids().contains_key(x)
        &&& self.stored().contains_key(self.ids()[x])
        &&& self.cloner_kinds().contains(self.stored()[self.ids()[x]].kind)
    }

    /// Every node of the subtree of `root` can be cloned.
    pub open spec fn subtree_clonable(self, root: u64) -> bool {
        forall|x: u64| #[trigger] self.subtree_of(root).contains(x) ==> self.clonable(x)
    }

    /// `xs` is the subtree of `root`, each node once, the root first and every other node
    /// after its parent.
    pub open spec fn collected_subtree(self, root: u64, xs: Seq<u64>) -> bool {
        &&& xs.len() > 0
        &&& xs[0] == root
        &&& xs.no_duplicates()
        &&& forall|x: u64| #[trigger] xs.contains(x) <==> self.subtree_of(root).contains(x)
        &&& forall|i: int| 0 < i < xs.len() ==> #[trigger] parent_earlier(xs, self.parents(), i)
        &&& xs.len() == self.subtree_of(root).len()
    }

    /// Step `i` of `steps` copies node `xs[i]` under the id `allocated[i]`.
    pub open spec fn plans_step(self, root: u64, xs: Seq<u64>, allocated: Seq<u64>, steps: Seq<XrdsDuplicateStep<D>>, i: int) -> bool {
        let s = steps[i];
        let x = xs[i];
        let d = self.stored()[self.ids()[x]];
        &&& self.clonable(x)
        &&& s.source == Entity(self.ids()[x])
        &&& s.id == XrdsId(allocated[i])
        &&& s.descriptor.kind == d.kind
        &&& s.descriptor.visible == d.visible
        &&& source_view(s.descriptor.gltf_source) == d.gltf_source
        &&& cloned(d.payload, s.descriptor.payload)
        &&& s.descriptor.name@ == (if i == 0 { d.name + seq![' ', 'C', 'o', 'p', 'y'] } else { d.name })
        &&& i == 0 ==> s.parent_id == (match parent_step(self.parents(), root) { Some(q) => Some(XrdsId(q)), None => None })
        &&& i > 0 ==> exists|j: int| 0 <= j < i && Some(#[trigger] xs[j]) == parent_step(self.parents(), x) && s.parent_id == Some(XrdsId(allocated[j]))
    }

    /// The first `steps.len()` nodes of `xs` are planned.
    pub open spec fn plans_prefix(self, root: u64, xs: Seq<u64>, allocated: Seq<u64>, steps: Seq<XrdsDuplicateStep<D>>) -> bool {
        &&& steps.len() <= xs.len()
        &&& steps.len() <= allocated.len()
        &&& forall|i: int| 0 <= i < steps.len() ==> #[trigger] self.plans_step(root, xs, allocated, steps, i)
    }

    /// `steps` duplicates the subtree of `root`, parents first.
    pub open spec fn plans_duplicate(self, root: u64, steps: Seq<XrdsDuplicateStep<D>>) -> bool {
        let xs = steps.map_values(|s: XrdsDuplicateStep<D>| self.entities()[s.source.0]);
        &&& self.collected_subtree(root, xs)
        &&& steps.len() == xs.len()
        &&& self.plans_prefix(root, xs, step_ids(steps), steps)
    }

    pub proof fn lemma_plans_prefix_push(
        self,
        root: u64,
        xs: Seq<u64>,
        allocated: Seq<u64>,
        before: Seq<XrdsDuplicateStep<D>>,
        s: XrdsDuplicateStep<D>,
    )
        requires
            self.plans_prefix(root, xs, allocated, before),
            before.len() < xs.len(),
            before.len() < allocated.len(),
            self.plans_step(root, xs, allocated, before.push(s), before.len() as int),
        ensures
            self.plans_prefix(root, xs, allocated, before.push(s)),
    {
        let steps = before.push(s);
        assert forall|i: int| 0 <= i < steps.len() implies #[trigger] self.plans_step(root, xs, allocated, steps, i) by {
            if i < before.len() {
                assert(self.plans_step(root, xs, allocated, before, i));
                assert(steps[i] == before[i]);
            }
        }
    }

    /// What subtree collection gives is the collected subtree.
    pub proof fn lemma_subtree_collected(self, root: u64, xs: Seq<u64>)
        requires
            self.inv(),
            self.ids().contains_key(root),
            xs.len() >= 1,
            xs[0] == root,
            xs.no_duplicates(),
            forall|x: u64| #[trigger] xs.contains(x) <==> in_subtree(self.parents(), self.ids(), root, x),
            forall|i: int| 0 < i < xs.len() ==> #[trigger] parent_earlier(xs, self.parents(), i),
            forall|i: int| 0 <= i < xs.len() ==> hangs_under(xs, self.parents(), self.ids(), root, #[trigger] xs[i]),
        ensures
            self.collected_subtree(root, xs),
            xs.len() <= self.ids().len(),
    {
        self.ids.lemma_finite();
        assert forall|x: u64| #[trigger] xs.contains(x) implies self.ids().contains_key(x) by {
            let i = choose|i: int| 0 <= i < xs.len() && xs[i] == x;
            assert(hangs_under(xs, self.parents(), self.ids(), root, xs[i]));
            if x != root {
                assert(parent_step(self.parents(), x) is Some);
            }
        }
        assert forall|x: u64| #[trigger] xs.contains(x) <==> self.subtree_of(root).contains(x) by {}
        xs.unique_seq_to_set();
        assert(xs.to_set() =~= self.subtree_of(root));
        assert forall|i: int| 0 <= i < xs.len() implies self.ids().dom().contains(#[trigger] xs[i]) by {
            assert(xs.contains(xs[i]));
        }
        crate::structure::lemma_seq_len_bound(xs, self.ids().dom());
    }

    /// Plan a duplicate of the entity behind `handle` and its XRDS subtree: every node of the
    /// subtree (parents before children) gets a fresh id and a clone of its stored descriptor
    /// (the root's renamed with " Copy"); the copy of the root keeps the root's parent, every
    /// other copy hangs under the copy of its original parent. The ids are allocated before the
    /// descriptors are cloned, so they stay used when cloning fails (`None`: a node without a
    /// stored descriptor, or whose type has no cloner). The engine realizes the steps in order
    /// (see `spawn_duplicate_step`).
    pub fn plan_duplicate<C>(&mut self, handle: &Handle<C>) -> (plan: Option<Vec<XrdsDuplicateStep<D>>>)
        requires
            old(self).inv(),
            old(self).next_id() + 3 * old(self).ids().len() <= u64::MAX,
        ensures
            final(self).inv(),
            !old(self).entities().contains_key(handle.spec_entity().0) ==> plan is None && old(self).unchanged(*final(self)),
            old(self).entities().contains_key(handle.spec_entity().0) ==> {
                let root = old(self).entities()[handle.spec_entity().0];
                &&& old(self).same_but_allocator(*final(self))
                &&& exists|allocated: Seq<u64>| #[trigger] allocated_in_turn(old(self).ids(), old(self).next_id(), allocated)
                    && allocated.len() == old(self).subtree_of(root).len()
                    && final(self).next_id() == after_id(allocated.last())
                    && (plan matches Some(steps) ==> step_ids(steps@) == allocated)
                &&& (plan is Some) == old(self).subtree_clonable(root)
                &&& plan matches Some(steps) ==> old(self).plans_duplicate(root, steps@)
            },
    {
        let root_id = match self.ids.id_of(handle.entity()) {
            Some(id) => id,
            None => return None,
        };
        let ghost w0 = *self;
        let ghost root = root_id.0;
        let root_parent = self.hierarchy.parent_id_of(root_id);
        let xs = collect_subtree_ids(&self.ids, &self.hierarchy, root_id);
        let n = xs.len();
        proof {
            self.lemma_subtree_collected(root, raw_ids(xs@));
        }
        let mut new_ids: Vec<XrdsId> = Vec::new();
        let ghost im = w0.ids();
        let ghost lo = w0.next_id();
        proof {
            self.ids.lemma_finite();
        }
        while new_ids.len() < n
            invariant
                n == xs@.len(),
                n <= im.len(),
                self.inv(),
                im == self.ids(),
                im.dom().finite(),
                lo == w0.next_id(),
                lo + 3 * im.len() <= u64::MAX,
                new_ids@.len() <= n,
                allocated_in_turn(im, lo, raw_ids(new_ids@)),
                self.next_id() == (if new_ids@.len() == 0 { lo } else { after_id(new_ids@.last().0) }),
                allocation_covers(im, lo, self.next_id(), raw_ids(new_ids@)),
                w0.same_but_allocator(*self),
            decreases n - new_ids@.len(),
        {
            let ghost k = new_ids@.len();
            let ghost next_k = self.next_id();
            proof {
                lemma_allocation_bound(im, lo, next_k, raw_ids(new_ids@));
            }
            let id = self.new_id();
            let ghost before = new_ids@;
            new_ids.push(id);
            proof {
                assert(raw_ids(new_ids@) =~= raw_ids(before).push(id.0));
                lemma_allocation_step(im, lo, next_k, raw_ids(before), id.0, (n - k) as nat);
                assert(raw_ids(new_ids@).drop_last() =~= raw_ids(before));
            }
        }
        let ghost allocated = raw_ids(new_ids@);
        assert(allocated.len() == w0.subtree_of(root).len());
        assert(n > 0 ==> allocated.last() == new_ids@.last().0);
        let mut steps: Vec<XrdsDuplicateStep<D>> = Vec::new();
        let mut i: usize = 0;
        while i < n
            invariant
                i <= n,
                n == xs@.len(),
                n == new_ids@.len(),
                n > 0,
                w0 == *old(self),
                w0.entities().contains_key(handle.spec_entity().0),
                root == w0.entities()[handle.spec_entity().0],
                raw_ids(xs@)[0] == root,
                raw_ids(new_ids@) == allocated,
                allocated_in_turn(w0.ids(), w0.next_id(), allocated),
                allocated.len() == w0.subtree_of(root).len(),
                self.next_id() == after_id(allocated.last()),
                self.inv(),
                w0.same_but_allocator(*self),
                w0.collected_subtree(root, raw_ids(xs@)),
                root_parent == (match parent_step(w0.parents(), root) { Some(q) => Some(XrdsId(q)), None => None }),
                steps@.len() == i,
                w0.plans_prefix(root, raw_ids(xs@), allocated, steps@),
            decreases n - i,
        {
            let ghost xsr = raw_ids(xs@);
            let old_id = xs[i];
            assert(xsr[i as int] == old_id.0);
            assert(w0.subtree_of(root).contains(old_id.0)) by {
                assert(xsr.contains(old_id.0));
            }
            let entity = match self.ids.entity_of(old_id) {
                Some(e) => e,
                None => {
                    assert(!w0.clonable(old_id.0));
                    return None;
                },
            };
            let d = match self.stored.get(&entity.0) {
                Some(d) => d,
                None => {
                    assert(!w0.clonable(old_id.0));
                    return None;
                },
            };
            assert(w0.stored()[entity.0] == descriptor_view(*d));
            if !self.descriptors.can_clone(d.kind) {
                assert(!w0.clonable(old_id.0));
                return None;
            }
            let parent_id = if i == 0 {
                root_parent
            } else {
                proof {
                    assert(parent_earlier(xsr, w0.parents(), i as int));
                }
                match self.hierarchy.parent_id_of(old_id) {
                    Some(q) => match position_of(&xs, q) {
                        Some(j) => {
                            assert(xsr[j as int] == q.0);
                            Some(new_ids[j])
                        },
                        None => {
                            proof {
                                let j = choose|j: int| 0 <= j < i && Some(#[trigger] xsr[j]) == parent_step(w0.parents(), xsr[i as int]);
                                assert(xs@[j] == q);
                            }
                            None
                        },
                    },
                    None => None,
                }
            };
            let descriptor = if i == 0 {
                let copy_name = duplicate_name(d.name.as_str());
                d.clone_named(Some(copy_name.as_str()))
            } else {
                d.clone_named(None)
            };
            let ghost before = steps@;
            let step = XrdsDuplicateStep { source: entity, id: new_ids[i], descriptor, parent_id };
            assert(allocated[i as int] == new_ids@[i as int].0);
            assert(w0.plans_step(root, xsr, allocated, before.push(step), i as int)) by {
                assert(before.push(step)[i as int] == step);
                if i > 0 {
                    let j = choose|j: int| 0 <= j < i && Some(#[trigger] xsr[j]) == parent_step(w0.parents(), xsr[i as int]);
                    assert(parent_step(w0.parents(), old_id.0) == Some(xsr[j]));
                }
            }
            steps.push(step);
            proof {
                w0.lemma_plans_prefix_push(root, xsr, allocated, before, step);
            }
            i = i + 1;
        }
        proof {
            let st = steps@;
            let xs2 = st.map_values(|s: XrdsDuplicateStep<D>| w0.entities()[s.source.0]);
            assert forall|k: int| 0 <= k < st.len() implies xs2[k] == raw_ids(xs@)[k] by {
                assert(w0.plans_step(root, raw_ids(xs@), allocated, st, k));
            }
            assert(xs2 =~= raw_ids(xs@));
            assert forall|k: int| 0 <= k < st.len() implies step_ids(st)[k] == allocated[k] by {
                assert(w0.plans_step(root, raw_ids(xs@), allocated, st, k));
            }
            assert(step_ids(st) =~= allocated);
            assert forall|x: u64| #[trigger] w0.subtree_of(root).contains(x) implies w0.clonable(x) by {
                assert(raw_ids(xs@).contains(x));
                let k = choose|k: int| 0 <= k < raw_ids(xs@).len() && raw_ids(xs@)[k] == x;
                assert(w0.plans_step(root, raw_ids(xs@), allocated, st, k));
            }
        }
        Some(steps)
    }
}

/// The number of consecutive values `lo..hi` that all lie in a finite set is at most its size.
pub proof fn lemma_range_in_set(lo: int, hi: int, dom: Set<u64>)
    requires
        0 <= lo <= hi <= u64::MAX + 1,
        dom.finite(),
        forall|k: u64| lo <= k < hi ==> dom.contains(k),
    ensures
        hi - lo <= dom.len(),
{
    lemma_range_set(lo, hi);
    let r = Set::new(|k: u64| lo <= k < hi);
    assert(r.subset_of(dom));
    vstd::set_lib::lemma_len_subset(r, dom);
}

proof fn lemma_range_set(lo: int, hi: int)
    requires
        0 <= lo <= hi <= u64::MAX + 1,
    ensures
        Set::new(|k: u64| lo <= k < hi).finite(),
        Set::new(|k: u64| lo <= k < hi).len() == hi - lo,
    decreases hi - lo,
{
    if hi == lo {
        assert(Set::new(|k: u64| lo <= k < hi) =~= Set::<u64>::empty());
    } else {
        let h1 = hi - 1;
        lemma_range_set(lo, h1);
        assert(Set::new(|k: u64| lo <= k < hi) =~= Set::new(|k: u64| lo <= k < h1).insert(h1 as u64));
    }
}

/// Each of `ids` is the id the allocator hands out after the one before it (after `lo` for
/// the first), with `im` live throughout.
pub open spec fn allocated_in_turn(im: Map<u64, u64>, lo: u64, ids: Seq<u64>) -> bool
    decreases ids.len(),
{
    if ids.len() == 0 {
        true
    } else {
        let prev = ids.drop_last();
        &&& allocated_in_turn(im, lo, prev)
        &&& fresh_id(im, if prev.len() == 0 { lo } else { after_id(prev.last()) }, ids.last())
    }
}

/// Every value from `lo` up to `next` is live in `im` or one of `allocated`, which all lie
/// in that range, each once.
pub open spec fn allocation_covers(im: Map<u64, u64>, lo: u64, next: u64, allocated: Seq<u64>) -> bool {
    &&& lo <= next
    &&& allocated.no_duplicates()
    &&& forall|i: int| 0 <= i < allocated.len() ==> lo <= #[trigger] allocated[i] < next
    &&& forall|v: u64| lo <= v < next ==> im.contains_key(v) || #[trigger] allocated.contains(v)
}

/// Allocation has moved the candidate by at most the live ids plus the allocations.
pub proof fn lemma_allocation_bound(im: Map<u64, u64>, lo: u64, next: u64, allocated: Seq<u64>)
    requires
        im.dom().finite(),
        allocation_covers(im, lo, next, allocated),
    ensures
        next - lo <= im.len() + allocated.len(),
{
    let set = allocated.to_set();
    let s = im.dom().union(set);
    allocated.lemma_cardinality_of_set();
    vstd::set_lib::lemma_len_union(im.dom(), set);
    assert forall|v: u64| lo <= v < next implies s.contains(v) by {
        if allocated.contains(v) {
            assert(set.contains(v));
        }
    }
    lemma_range_in_set(lo as int, next as int, s);
}

/// One more allocation keeps the covering and stays clear of the top of the id range.
pub proof fn lemma_allocation_step(im: Map<u64, u64>, lo: u64, next: u64, allocated: Seq<u64>, id: u64, left: nat)
    requires
        im.dom().finite(),
        allocation_covers(im, lo, next, allocated),
        left >= 1,
        lo + im.len() + allocated.len() + left <= u64::MAX,
        fresh_id(im, next, id),
    ensures
        id < u64::MAX,
        allocation_covers(im, lo, after_id(id), allocated.push(id)),
{
    let set = allocated.to_set();
    let s = im.dom().union(set);
    allocated.lemma_cardinality_of_set();
    vstd::set_lib::lemma_len_union(im.dom(), set);
    assert forall|v: u64| lo <= v < id implies s.contains(v) by {
        if v < next && allocated.contains(v) {
            assert(set.contains(v));
        }
    }
    lemma_range_in_set(lo as int, id as int, s);
    assert(id < u64::MAX);
    assert forall|v: u64| lo <= v < after_id(id) implies im.contains_key(v) || #[trigger] allocated.push(id).contains(v) by {
        crate::hierarchy::lemma_push_contains(allocated, id, v);
    }
    assert(!allocated.contains(id)) by {
        if allocated.contains(id) {
            let j = choose|j: int| 0 <= j < allocated.len() && allocated[j] == id;
            assert(allocated[j] < next);
        }
    }
    crate::hierarchy::lemma_push_no_duplicates(allocated, id);
    assert forall|i: int| 0 <= i < allocated.push(id).len() implies lo <= #[trigger] allocated.push(id)[i] < after_id(id) by {
        if i < allocated.len() {
            assert(allocated.push(id)[i] == allocated[i]);
        }
    }
}

} // verus!
