//! Structural edits over the id index and the hierarchy: the cycle test, re-parenting in
//! batches, subtree collection and unregistration.
use std::collections::HashMap;
use vstd::prelude::*;
use crate::ids::{Entity, XrdsId, XrdsIdIndex};
use crate::hierarchy::{
    acyclic, clear_parents, cycle_check, hierarchy_wf, remove_node_children, removed_children, lemma_relink_acyclic, lemma_walk_prefix, parent_step, set_parent_children,
    set_parent_parents, walk, XrdsHierarchyIndex,
};

verus! {

broadcast use vstd::std_specs::hash::group_hash_axioms;

/// A requested re-parenting of `child_id` (`None`: detach to the scene root).
#[derive(Clone, Copy, Debug, PartialEq, Eq, Structural)]
pub struct QueuedParentChange {
    pub child_id: XrdsId,
    pub parent_id: Option<XrdsId>,
}

/// An engine-side parent link that must mirror an applied hierarchy change.
#[derive(Clone, Copy, Debug, PartialEq, Eq, Structural)]
pub struct XrdsParentLink {
    pub child: Entity,
    pub parent: Option<Entity>,
}

/// The raw numbers of a sequence of ids.
pub open spec fn raw_ids(s: Seq<XrdsId>) -> Seq<u64> {
    s.map_values(|x: XrdsId| x.0)
}

pub open spec fn raw_id(o: Option<XrdsId>) -> Option<u64> {
    match o {
        Some(q) => Some(q.0),
        None => None,
    }
}

/// The parent map as it would be if every change were granted, later changes winning.
pub open spec fn requested_parents(
    m: Map<u64, Option<u64>>,
    changes: Seq<QueuedParentChange>,
) -> Map<u64, Option<u64>>
    decreases changes.len(),
{
    if changes.len() == 0 {
        m
    } else {
        requested_parents(m, changes.drop_last()).insert(
            changes.last().child_id.0,
            raw_id(changes.last().parent_id),
        )
    }
}

/// The changed children, each once, in the order they first appear.
pub open spec fn change_order(changes: Seq<QueuedParentChange>) -> Seq<u64>
    decreases changes.len(),
{
    if changes.len() == 0 {
        Seq::empty()
    } else {
        let o = change_order(changes.drop_last());
        if o.contains(changes.last().child_id.0) {
            o
        } else {
            o.push(changes.last().child_id.0)
        }
    }
}

/// The parent granted to `child`: its requested parent, unless that is itself, would close a
/// cycle in the requested map, or is not a registered id.
pub open spec fn resolved_parent(
    ids: Map<u64, u64>,
    r: Map<u64, Option<u64>>,
    child: u64,
) -> Option<u64> {
    match parent_step(r, child) {
        Some(p) => if p == child || cycle_check(r, child, p) || !ids.contains_key(p) {
            None
        } else {
            Some(p)
        },
        None => None,
    }
}

/// The (child, granted parent) pairs applied, in order: registered children only.
pub open spec fn planned_links(
    ids: Map<u64, u64>,
    r: Map<u64, Option<u64>>,
    order: Seq<u64>,
) -> Seq<(u64, Option<u64>)>
    decreases order.len(),
{
    if order.len() == 0 {
        Seq::empty()
    } else {
        let l = planned_links(ids, r, order.drop_last());
        let c = order.last();
        if ids.contains_key(c) {
            l.push((c, resolved_parent(ids, r, c)))
        } else {
            l
        }
    }
}

pub open spec fn relink_parents(
    p: Map<u64, Option<u64>>,
    links: Seq<(u64, Option<u64>)>,
) -> Map<u64, Option<u64>>
    decreases links.len(),
{
    if links.len() == 0 {
        p
    } else {
        set_parent_parents(relink_parents(p, links.drop_last()), links.last().0, links.last().1)
    }
}

pub open spec fn relink_children(
    p: Map<u64, Option<u64>>,
    ch: Map<u64, Seq<u64>>,
    links: Seq<(u64, Option<u64>)>,
) -> Map<u64, Seq<u64>>
    decreases links.len(),
{
    if links.len() == 0 {
        ch
    } else {
        set_parent_children(
            relink_parents(p, links.drop_last()),
            relink_children(p, ch, links.drop_last()),
            links.last().0,
            links.last().1,
        )
    }
}

/// The parent map after applying `changes` to a hierarchy with parents `p`.
pub open spec fn parents_after_changes(
    ids: Map<u64, u64>,
    p: Map<u64, Option<u64>>,
    changes: Seq<QueuedParentChange>,
) -> Map<u64, Option<u64>> {
    relink_parents(
        p,
        planned_links(ids, requested_parents(p, changes), change_order(changes)),
    )
}

/// The children map after applying `changes`.
pub open spec fn children_after_changes(
    ids: Map<u64, u64>,
    p: Map<u64, Option<u64>>,
    ch: Map<u64, Seq<u64>>,
    changes: Seq<QueuedParentChange>,
) -> Map<u64, Seq<u64>> {
    relink_children(
        p,
        ch,
        planned_links(ids, requested_parents(p, changes), change_order(changes)),
    )
}

/// `links` mirror the planned (child, parent) pairs through the id index.
pub open spec fn links_match(
    links: Seq<XrdsParentLink>,
    ids: Map<u64, u64>,
    planned: Seq<(u64, Option<u64>)>,
) -> bool {
    &&& links.len() == planned.len()
    &&& forall|t: int|
        0 <= t < links.len() ==> {
            &&& #[trigger] links[t].child == Entity(ids[planned[t].0])
            &&& links[t].parent == (match planned[t].1 {
                Some(q) => Some(Entity(ids[q])),
                None => None,
            })
        }
}

pub proof fn lemma_links_match_push(
    links: Seq<XrdsParentLink>,
    ids: Map<u64, u64>,
    planned: Seq<(u64, Option<u64>)>,
    link: XrdsParentLink,
    pair: (u64, Option<u64>),
)
    requires
        links_match(links, ids, planned),
        link.child == Entity(ids[pair.0]),
        link.parent == (match pair.1 {
            Some(q) => Some(Entity(ids[q])),
            None => None,
        }),
    ensures
        links_match(links.push(link), ids, planned.push(pair)),
{
    let l2 = links.push(link);
    let p2 = planned.push(pair);
    assert forall|t: int| 0 <= t < l2.len() implies {
        &&& #[trigger] l2[t].child == Entity(ids[p2[t].0])
        &&& l2[t].parent == (match p2[t].1 {
            Some(q) => Some(Entity(ids[q])),
            None => None,
        })
    } by {
        if t < links.len() {
            assert(l2[t] == links[t]);
            assert(p2[t] == planned[t]);
            assert(links[t].child == Entity(ids[planned[t].0]));
        } else {
            assert(l2[t] == link);
            assert(p2[t] == pair);
        }
    }
}

/// Both ends of every parent link are registered ids.
pub open spec fn links_registered(p: Map<u64, Option<u64>>, ids: Map<u64, u64>) -> bool {
    forall|c: u64| #[trigger] parent_step(p, c) is Some ==> ids.contains_key(c) && ids.contains_key(parent_step(p, c)->0)
}

/// Whether attaching `child_id` under `candidate_parent_id` in `parent_map` would close a
/// cycle. Chains longer than the map are treated as cycles.
pub fn would_create_cycle(
    child_id: XrdsId,
    candidate_parent_id: XrdsId,
    parent_map: &HashMap<u64, Option<u64>>,
) -> (r: bool)
    ensures
        r == cycle_check(parent_map@, child_id.0, candidate_parent_id.0),
{
    let ghost m = parent_map@;
    let n = parent_map.len();
    let mut current: Option<u64> = Some(candidate_parent_id.0);
    let mut steps: usize = 0;
    while current.is_some()
        invariant
            n == m.len(),
            m == parent_map@,
            steps <= n,
            current == walk(m, candidate_parent_id.0, steps as nat),
            forall|s: nat| s < steps ==> #[trigger] walk(m, candidate_parent_id.0, s) != Some(child_id.0),
        decreases n - steps,
    {
        let parent_id = current.unwrap();
        if parent_id == child_id.0 {
            assert(walk(m, candidate_parent_id.0, steps as nat) == Some(child_id.0));
            return true;
        }
        let ghost next = parent_step(m, parent_id);
        current = match parent_map.get(&parent_id) {
            Some(Some(q)) => Some(*q),
            _ => None,
        };
        assert(current == next);
        assert(walk(m, candidate_parent_id.0, (steps + 1) as nat) == next);
        if steps >= n {
            assert(walk(m, candidate_parent_id.0, m.len()) is Some);
            return true;
        }
        steps = steps + 1;
    }
    proof {
        assert(walk(m, candidate_parent_id.0, steps as nat) is None);
        assert forall|s: nat| s <= m.len() implies #[trigger] walk(m, candidate_parent_id.0, s) != Some(child_id.0) by {
            if s >= steps && walk(m, candidate_parent_id.0, s) is Some {
                lemma_walk_prefix(m, candidate_parent_id.0, s, steps as nat);
            }
        }
        if walk(m, candidate_parent_id.0, m.len()) is Some {
            lemma_walk_prefix(m, candidate_parent_id.0, m.len(), steps as nat);
        }
    }
    false
}

pub proof fn lemma_requested_parents(m: Map<u64, Option<u64>>, changes: Seq<QueuedParentChange>, y: u64)
    requires
        !change_order(changes).contains(y),
    ensures
        parent_step(requested_parents(m, changes), y) == parent_step(m, y),
    decreases changes.len(),
{
    if changes.len() > 0 {
        let o = change_order(changes.drop_last());
        if !o.contains(changes.last().child_id.0) {
            crate::hierarchy::lemma_push_contains(o, changes.last().child_id.0, y);
        }
        if o.contains(y) {
            if !o.contains(changes.last().child_id.0) {
                crate::hierarchy::lemma_push_contains(o, changes.last().child_id.0, y);
            }
        }
        assert(!o.contains(y));
        assert(changes.last().child_id.0 != y) by {
            if changes.last().child_id.0 == y {
                if !o.contains(y) {
                    crate::hierarchy::lemma_push_contains(o, y, y);
                }
            }
        }
        lemma_requested_parents(m, changes.drop_last(), y);
    }
}

pub proof fn lemma_change_order_no_duplicates(changes: Seq<QueuedParentChange>)
    ensures
        change_order(changes).no_duplicates(),
    decreases changes.len(),
{
    if changes.len() > 0 {
        lemma_change_order_no_duplicates(changes.drop_last());
        let o = change_order(changes.drop_last());
        if !o.contains(changes.last().child_id.0) {
            crate::hierarchy::lemma_push_no_duplicates(o, changes.last().child_id.0);
        }
    }
}

/// Link children are the registered ids of `order`, each once, with their resolved parents.
pub proof fn lemma_planned_links(ids: Map<u64, u64>, r: Map<u64, Option<u64>>, order: Seq<u64>)
    requires
        order.no_duplicates(),
    ensures
        forall|i: int, j: int|
            0 <= i < j < planned_links(ids, r, order).len() ==> #[trigger] planned_links(ids, r, order)[i].0
                != #[trigger] planned_links(ids, r, order)[j].0,
        forall|i: int|
            0 <= i < planned_links(ids, r, order).len() ==> ids.contains_key(
                #[trigger] planned_links(ids, r, order)[i].0,
            ) && order.contains(planned_links(ids, r, order)[i].0) && planned_links(ids, r, order)[i].1
                == resolved_parent(ids, r, planned_links(ids, r, order)[i].0),
        forall|y: u64|
            order.contains(y) && ids.contains_key(y) ==> exists|i: int|
                0 <= i < planned_links(ids, r, order).len() && #[trigger] planned_links(ids, r, order)[i].0 == y,
    decreases order.len(),
{
    if order.len() > 0 {
        let o = order.drop_last();
        assert(o.no_duplicates()) by {
            assert forall|i: int, j: int| 0 <= i < o.len() && 0 <= j < o.len() && i != j implies o[i] != o[j] by {
                assert(o[i] == order[i] && o[j] == order[j]);
            }
        }
        lemma_planned_links(ids, r, o);
        let l = planned_links(ids, r, o);
        let c = order.last();
        assert(order =~= o.push(c));
        assert(!o.contains(c)) by {
            if o.contains(c) {
                let k = choose|k: int| 0 <= k < o.len() && o[k] == c;
                assert(order[k] == order[order.len() - 1]);
            }
        }
        assert forall|y: u64| o.contains(y) implies order.contains(y) by {
            crate::hierarchy::lemma_push_contains(o, c, y);
        }
        assert forall|y: u64| order.contains(y) implies (o.contains(y) || y == c) by {
            crate::hierarchy::lemma_push_contains(o, c, y);
        }
        if ids.contains_key(c) {
            let nl = l.push((c, resolved_parent(ids, r, c)));
            assert(planned_links(ids, r, order) == nl);
            assert forall|i: int, j: int| 0 <= i < j < nl.len() implies #[trigger] nl[i].0 != #[trigger] nl[j].0 by {
                if j == l.len() {
                    assert(o.contains(l[i].0));
                }
            }
            assert forall|y: u64| order.contains(y) && ids.contains_key(y) implies exists|i: int| 0 <= i < nl.len() && #[trigger] nl[i].0 == y by {
                if y == c {
                    assert(nl[l.len() as int].0 == y);
                } else {
                    let i = choose|i: int| 0 <= i < l.len() && #[trigger] l[i].0 == y;
                    assert(nl[i].0 == y);
                }
            }
        }
    }
}

pub proof fn lemma_relink_parents(p: Map<u64, Option<u64>>, links: Seq<(u64, Option<u64>)>)
    requires
        forall|i: int, j: int| 0 <= i < j < links.len() ==> #[trigger] links[i].0 != #[trigger] links[j].0,
    ensures
        forall|i: int| 0 <= i < links.len() ==> parent_step(relink_parents(p, links), #[trigger] links[i].0) == links[i].1,
        forall|y: u64| (forall|i: int| 0 <= i < links.len() ==> #[trigger] links[i].0 != y) ==> parent_step(relink_parents(p, links), y) == parent_step(p, y),
    decreases links.len(),
{
    if links.len() > 0 {
        let l = links.drop_last();
        lemma_relink_parents(p, l);
        let mm = relink_parents(p, l);
        let (c, par) = links.last();
        assert forall|y: u64| #[trigger] parent_step(set_parent_parents(mm, c, par), y) == (if y == c { par } else { parent_step(mm, y) }) by {}
        assert forall|i: int| 0 <= i < links.len() implies parent_step(relink_parents(p, links), #[trigger] links[i].0) == links[i].1 by {
            if i < l.len() {
                assert(l[i] == links[i]);
            }
        }
        assert forall|y: u64| (forall|i: int| 0 <= i < links.len() ==> #[trigger] links[i].0 != y) implies parent_step(relink_parents(p, links), y) == parent_step(p, y) by {
            assert(links[links.len() - 1].0 != y);
            assert forall|i: int| 0 <= i < l.len() implies #[trigger] l[i].0 != y by {
                assert(l[i] == links[i]);
            }
        }
    }
}

/// Applying a batch of parent changes never closes a cycle, and only registered ids get parents.
pub proof fn lemma_changes_keep_forest(
    ids: Map<u64, u64>,
    m: Map<u64, Option<u64>>,
    changes: Seq<QueuedParentChange>,
)
    requires
        acyclic(m),
        links_registered(m, ids),
    ensures
        acyclic(parents_after_changes(ids, m, changes)),
        links_registered(parents_after_changes(ids, m, changes), ids),
{
    let r = requested_parents(m, changes);
    let order = change_order(changes);
    lemma_change_order_no_duplicates(changes);
    lemma_planned_links(ids, r, order);
    let links = planned_links(ids, r, order);
    lemma_relink_parents(m, links);
    let m2 = relink_parents(m, links);
    assert forall|y: u64| #[trigger] parent_step(m2, y) is Some implies parent_step(m2, y) == parent_step(r, y) && ids.contains_key(y) && (parent_step(m2, y) != parent_step(m, y) ==> !cycle_check(r, y, parent_step(m2, y)->0)) by {
        if exists|i: int| 0 <= i < links.len() && #[trigger] links[i].0 == y {
            let i = choose|i: int| 0 <= i < links.len() && #[trigger] links[i].0 == y;
            assert(parent_step(m2, y) == resolved_parent(ids, r, y));
        } else {
            assert(parent_step(m2, y) == parent_step(m, y));
            assert(ids.contains_key(y));
            if order.contains(y) {
                assert(exists|i: int| 0 <= i < links.len() && #[trigger] links[i].0 == y);
            }
            lemma_requested_parents(m, changes, y);
        }
    }
    lemma_relink_acyclic(m, r, m2);
}

/// Apply a batch of parent changes: each changed child (first-seen order, later requests
/// winning) that is registered gets its requested parent, or the root when that parent is
/// itself, would close a cycle, or is not registered. Unregistered children are skipped.
/// Returns the engine links to mirror, one per applied child.
pub fn apply_parent_changes(
    ids: &XrdsIdIndex,
    hierarchy: &mut XrdsHierarchyIndex,
    changes: &Vec<QueuedParentChange>,
) -> (links: Vec<XrdsParentLink>)
    ensures
        final(hierarchy).parents() == parents_after_changes(ids.ids(), old(hierarchy).parents(), changes@),
        final(hierarchy).children() == children_after_changes(
            ids.ids(),
            old(hierarchy).parents(),
            old(hierarchy).children(),
            changes@,
        ),
        old(hierarchy).wf() ==> final(hierarchy).wf(),
        links_match(
            links@,
            ids.ids(),
            planned_links(
                ids.ids(),
                requested_parents(old(hierarchy).parents(), changes@),
                change_order(changes@),
            ),
        ),
{
    let ghost p0 = hierarchy.parents();
    let ghost ch0 = hierarchy.children();
    let ghost idm = ids.ids();
    let mut links: Vec<XrdsParentLink> = Vec::new();
    if changes.len() == 0 {
        assert(changes@ =~= Seq::<QueuedParentChange>::empty());
        return links;
    }
    let mut requested = hierarchy.parent_map_snapshot();
    let mut ordered: Vec<u64> = Vec::new();
    let mut i: usize = 0;
    while i < changes.len()
        invariant
            i <= changes.len(),
            requested@ == requested_parents(p0, changes@.take(i as int)),
            ordered@ == change_order(changes@.take(i as int)),
        decreases changes.len() - i,
    {
        let change = changes[i];
        assert(changes@.take(i + 1).drop_last() =~= changes@.take(i as int));
        let mut seen = false;
        let mut k: usize = 0;
        while k < ordered.len()
            invariant
                k <= ordered.len(),
                seen == ordered@.take(k as int).contains(change.child_id.0),
            decreases ordered.len() - k,
        {
            let ghost t0 = ordered@.take(k as int);
            let ghost t1 = ordered@.take(k + 1);
            assert(t1 =~= t0.push(ordered@[k as int]));
            proof {
                crate::hierarchy::lemma_push_contains(t0, ordered@[k as int], change.child_id.0);
            }
            if ordered[k] == change.child_id.0 {
                seen = true;
            }
            k = k + 1;
        }
        assert(ordered@.take(ordered.len() as int) =~= ordered@);
        if !seen {
            ordered.push(change.child_id.0);
        }
        let raw: Option<u64> = match change.parent_id {
            Some(q) => Some(q.0),
            None => None,
        };
        requested.insert(change.child_id.0, raw);
        i = i + 1;
    }
    assert(changes@.take(changes.len() as int) =~= changes@);
    let ghost r = requested@;
    let ghost order = ordered@;
    let mut j: usize = 0;
    while j < ordered.len()
        invariant
            j <= ordered.len(),
            ordered@ == order,
            requested@ == r,
            idm == ids.ids(),
            hierarchy.parents() == relink_parents(p0, planned_links(idm, r, order.take(j as int))),
            hierarchy.children() == relink_children(p0, ch0, planned_links(idm, r, order.take(j as int))),
            hierarchy_wf(p0, ch0) ==> hierarchy.wf(),
            links_match(links@, idm, planned_links(idm, r, order.take(j as int))),
        decreases ordered.len() - j,
    {
        let child = ordered[j];
        let ghost before = planned_links(idm, r, order.take(j as int));
        let ghost links_at_start = links@;
        assert(order.take(j + 1).drop_last() =~= order.take(j as int));
        assert(order.take(j + 1).last() == child);
        match ids.entity_of(XrdsId(child)) {
            None => {
                assert(!idm.contains_key(child));
                assert(planned_links(idm, r, order.take(j + 1)) == before);
                assert(links@ == links_at_start);
            },
            Some(child_entity) => {
                let requested_parent: Option<u64> = match requested.get(&child) {
                    Some(Some(q)) => Some(*q),
                    _ => None,
                };
                assert(requested_parent == parent_step(r, child));
                let resolved: Option<u64> = match requested_parent {
                    Some(q) => {
                        if q == child {
                            None
                        } else if would_create_cycle(XrdsId(child), XrdsId(q), &requested) {
                            None
                        } else if ids.contains_id(XrdsId(q)) {
                            Some(q)
                        } else {
                            None
                        }
                    },
                    None => None,
                };
                assert(resolved == resolved_parent(idm, r, child));
                let parent_entity: Option<Entity> = match resolved {
                    Some(q) => ids.entity_of(XrdsId(q)),
                    None => None,
                };
                let resolved_id: Option<XrdsId> = match resolved {
                    Some(q) => Some(XrdsId(q)),
                    None => None,
                };
                assert(child_entity == Entity(idm[child]));
                assert(parent_entity == (match resolved {
                    Some(q) => Some(Entity(idm[q])),
                    None => None,
                }));
                hierarchy.set_parent(XrdsId(child), resolved_id);
                let ghost links_before = links@;
                links.push(XrdsParentLink { child: child_entity, parent: parent_entity });
                let ghost after = before.push((child, resolved));
                assert(planned_links(idm, r, order.take(j + 1)) == after);
                assert(after.drop_last() =~= before);
                assert(links@ == links_before.push(XrdsParentLink { child: child_entity, parent: parent_entity }));
                assert(links_before == links_at_start);
                proof {
                    lemma_links_match_push(links_before, idm, before, XrdsParentLink { child: child_entity, parent: parent_entity }, (child, resolved));
                }
                assert(links_match(links@, idm, after));
            },
        }
        j = j + 1;
    }
    assert(order.take(ordered.len() as int) =~= order);
    links
}

/// The node of `s` satisfying the subtree shape rooted at `root`: every node other than the root
/// hangs under an earlier registered node of `s`.
pub open spec fn hangs_under(
    s: Seq<u64>,
    p: Map<u64, Option<u64>>,
    idm: Map<u64, u64>,
    root: u64,
    x: u64,
) -> bool {
    x == root || (parent_step(p, x) is Some && s.contains(parent_step(p, x)->0) && idm.contains_key(
        parent_step(p, x)->0,
    ))
}

/// `s` is closed under the children of its registered nodes.
pub open spec fn closed_under_children(
    s: Seq<u64>,
    ch: Map<u64, Seq<u64>>,
    idm: Map<u64, u64>,
) -> bool {
    forall|x: u64, c: u64|
        #![trigger s.contains(x), ch[x].contains(c)]
        s.contains(x) && idm.contains_key(x) && ch.contains_key(x) && ch[x].contains(c) ==> s.contains(c)
}

proof fn lemma_move_last(a: Seq<u64>, b: Seq<u64>, x: u64)
    requires
        (a + b.push(x)).no_duplicates(),
    ensures
        (a.push(x) + b).no_duplicates(),
        forall|y: u64| #[trigger] (a.push(x) + b).contains(y) <==> (a + b.push(x)).contains(y),
{
    let s1 = a + b.push(x);
    let s2 = a.push(x) + b;
    let n: int = a.len() as int;
    let m: int = b.len() as int;
    // position map from s2 into s1
    assert forall|i: int| 0 <= i < s2.len() implies #[trigger] s2[i] == s1[if i < n { i } else if i == n { n + m } else { i - 1 }] by {
        if i < n {
        } else if i == n {
            assert(s2[i] == x);
            assert(s1[n + m] == x);
        } else {
            assert(s2[i] == b[i - n - 1]);
            assert(s1[i - 1] == b[i - 1 - n]);
        }
    }
    assert forall|i: int, j: int| 0 <= i < s2.len() && 0 <= j < s2.len() && i != j implies s2[i] != s2[j] by {
        let fi = if i < n { i } else if i == n { n + m } else { i - 1 };
        let fj = if j < n { j } else if j == n { n + m } else { j - 1 };
        assert(s2[i] == s1[fi]);
        assert(s2[j] == s1[fj]);
    }
    assert forall|y: u64| #[trigger] s2.contains(y) <==> s1.contains(y) by {
        if s2.contains(y) {
            let i = choose|i: int| 0 <= i < s2.len() && s2[i] == y;
            let fi = if i < n { i } else if i == n { n + m } else { i - 1 };
            assert(s1[fi] == y);
        }
        if s1.contains(y) {
            let i = choose|i: int| 0 <= i < s1.len() && s1[i] == y;
            let gi = if i < n { i } else if i == n + m { n } else { i + 1 };
            assert(s2[gi] == s2[gi]);
            assert(s2[gi] == y);
        }
    }
}

/// A sequence of distinct members of a finite set is no longer than the set.
pub proof fn lemma_seq_len_bound<A>(s: Seq<A>, dom: Set<A>)
    requires
        s.no_duplicates(),
        dom.finite(),
        forall|i: int| 0 <= i < s.len() ==> dom.contains(#[trigger] s[i]),
    ensures
        s.len() <= dom.len(),
{
    s.unique_seq_to_set();
    assert(s.to_set().subset_of(dom));
    vstd::set_lib::lemma_len_subset(s.to_set(), dom);
}


/// The node at position `i` of `s` has its parent earlier in `s`.
pub open spec fn parent_earlier(s: Seq<u64>, p: Map<u64, Option<u64>>, i: int) -> bool {
    exists|j: int| 0 <= j < i && Some(#[trigger] s[j]) == parent_step(p, s[i])
}

proof fn lemma_parent_earlier_push(
    old_result: Seq<u64>,
    old_stack: Seq<u64>,
    p: Map<u64, Option<u64>>,
    idm: Map<u64, u64>,
    root: u64,
    id: u64,
)
    requires
        (old_result + old_stack).no_duplicates(),
        old_stack.len() > 0,
        old_stack.last() == id,
        forall|x: u64| #[trigger] (old_result + old_stack).contains(x) ==> hangs_under(old_result, p, idm, root, x),
        old_result.len() > 0 ==> old_result[0] == root,
        forall|i: int| 0 < i < old_result.len() ==> #[trigger] parent_earlier(old_result, p, i),
    ensures
        forall|i: int| 0 < i < old_result.push(id).len() ==> #[trigger] parent_earlier(old_result.push(id), p, i),
{
    let result = old_result.push(id);
    let all = old_result + old_stack;
    let last = all.len() - 1;
    assert(all[last] == id);
    assert(all.contains(id));
    assert forall|i: int| 0 < i < result.len() implies #[trigger] parent_earlier(result, p, i) by {
        if i < old_result.len() {
            assert(parent_earlier(old_result, p, i));
            let j = choose|j: int| 0 <= j < i && Some(#[trigger] old_result[j]) == parent_step(p, old_result[i]);
            assert(result[j] == old_result[j]);
            assert(result[i] == old_result[i]);
        } else {
            assert(result[i] == id);
            assert(id != root) by {
                assert(all[0] == root);
            }
            assert(hangs_under(old_result, p, idm, root, id));
            let q = parent_step(p, id)->0;
            let j = choose|j: int| 0 <= j < old_result.len() && old_result[j] == q;
            assert(result[j] == q);
        }
    }
}

/// `x` lies in the subtree of `root` as collected: `root` is an ancestor of `x` (or `x`
/// itself) and every proper ancestor of `x` up to `root` is registered.
pub open spec fn in_subtree(p: Map<u64, Option<u64>>, idm: Map<u64, u64>, root: u64, x: u64) -> bool {
    exists|k: nat|
        #[trigger] walk(p, x, k) == Some(root) && forall|j: nat|
            1 <= j <= k ==> (#[trigger] walk(p, x, j) is Some && idm.contains_key(walk(p, x, j)->0))
}

proof fn lemma_collected_in_subtree(
    s: Seq<u64>,
    p: Map<u64, Option<u64>>,
    idm: Map<u64, u64>,
    root: u64,
    x: u64,
    k: nat,
)
    requires
        acyclic(p),
        s.contains(x),
        walk(p, x, k) == Some(root),
        forall|y: u64| #[trigger] s.contains(y) ==> hangs_under(s, p, idm, root, y),
    ensures
        forall|j: nat| 1 <= j <= k ==> (#[trigger] walk(p, x, j) is Some && idm.contains_key(walk(p, x, j)->0)),
    decreases k,
{
    if k > 0 {
        if x == root {
            assert(walk(p, root, k) == Some(root));
        }
        assert(hangs_under(s, p, idm, root, x));
        let y = parent_step(p, x)->0;
        assert(walk(p, x, 0) == Some(x));
        assert(walk(p, x, 1) == Some(y));
        crate::hierarchy::lemma_walk_compose(p, x, 1, (k - 1) as nat);
        assert(walk(p, y, (k - 1) as nat) == Some(root));
        lemma_collected_in_subtree(s, p, idm, root, y, (k - 1) as nat);
        assert forall|j: nat| 1 <= j <= k implies (#[trigger] walk(p, x, j) is Some && idm.contains_key(walk(p, x, j)->0)) by {
            if j >= 2 {
                crate::hierarchy::lemma_walk_compose(p, x, 1, (j - 1) as nat);
                assert(walk(p, x, j) == walk(p, y, (j - 1) as nat));
            }
        }
    }
}

proof fn lemma_subtree_collected(
    s: Seq<u64>,
    p: Map<u64, Option<u64>>,
    ch: Map<u64, Seq<u64>>,
    idm: Map<u64, u64>,
    root: u64,
    x: u64,
    k: nat,
)
    requires
        hierarchy_wf(p, ch),
        s.contains(root),
        closed_under_children(s, ch, idm),
        walk(p, x, k) == Some(root),
        forall|j: nat| 1 <= j <= k ==> (#[trigger] walk(p, x, j) is Some && idm.contains_key(walk(p, x, j)->0)),
    ensures
        s.contains(x),
    decreases k,
{
    if k == 0 {
    } else {
        assert(walk(p, x, 0) == Some(x));
        assert(walk(p, x, 1) is Some);
        let y = walk(p, x, 1)->0;
        assert(parent_step(p, x) == Some(y));
        crate::hierarchy::lemma_walk_compose(p, x, 1, (k - 1) as nat);
        assert forall|j: nat| 1 <= j <= (k - 1) as nat implies (#[trigger] walk(p, y, j) is Some && idm.contains_key(walk(p, y, j)->0)) by {
            crate::hierarchy::lemma_walk_compose(p, x, 1, j);
            assert(walk(p, x, 1 + j) == walk(p, y, j));
            assert(walk(p, x, (1 + j) as nat) is Some);
        }
        lemma_subtree_collected(s, p, ch, idm, root, y, (k - 1) as nat);
        assert(p.contains_key(x) && p[x] == Some(y));
        assert(ch.contains_key(y) && ch[y].contains(x));
        assert(idm.contains_key(y));
    }
}

/// Collect `root_id` and its subtree, parents before children (depth first, children in
/// their recorded order). Only registered nodes are expanded.
pub fn collect_subtree_ids(
    ids: &XrdsIdIndex,
    hierarchy: &XrdsHierarchyIndex,
    root_id: XrdsId,
) -> (r: Vec<XrdsId>)
    requires
        hierarchy.wf(),
        acyclic(hierarchy.parents()),
    ensures
        r@.len() >= 1,
        r@[0] == root_id,
        raw_ids(r@).no_duplicates(),
        forall|i: int| 0 <= i < r@.len() ==> hangs_under(
            raw_ids(r@),
            hierarchy.parents(),
            ids.ids(),
            root_id.0,
            #[trigger] r@[i].0,
        ),
        closed_under_children(raw_ids(r@), hierarchy.children(), ids.ids()),
        forall|i: int| 0 < i < r@.len() ==> #[trigger] parent_earlier(raw_ids(r@), hierarchy.parents(), i),
        forall|x: u64| #[trigger] raw_ids(r@).contains(x) <==> in_subtree(hierarchy.parents(), ids.ids(), root_id.0, x),
{
    let ghost p = hierarchy.parents();
    let ghost ch = hierarchy.children();
    let ghost idm = ids.ids();
    let root = root_id.0;
    let mut result: Vec<u64> = Vec::new();
    let mut stack: Vec<u64> = Vec::new();
    stack.push(root);
    proof {
        hierarchy.lemma_finite();
        assert(walk(p, root, 0) == Some(root));
        assert((result@ + stack@) =~= seq![root]);
    }
    let ghost bound = p.dom().insert(root);
    while stack.len() > 0
        invariant
            p == hierarchy.parents(),
            ch == hierarchy.children(),
            idm == ids.ids(),
            hierarchy.wf(),
            acyclic(p),
            bound == p.dom().insert(root),
            bound.finite(),
            (result@ + stack@).no_duplicates(),
            forall|x: u64| #[trigger] (result@ + stack@).contains(x) ==> hangs_under(result@, p, idm, root, x),
            forall|x: u64| #[trigger] (result@ + stack@).contains(x) ==> exists|k: nat| #[trigger] walk(p, x, k) == Some(root),
            forall|x: u64, c: u64|
                #![trigger result@.contains(x), ch[x].contains(c)]
                result@.contains(x) && idm.contains_key(x) && ch.contains_key(x) && ch[x].contains(c) ==> (result@ + stack@).contains(c),
            result@.len() == 0 ==> stack@ == seq![root],
            result@.len() > 0 ==> result@[0] == root,
            forall|i: int| 0 < i < result@.len() ==> #[trigger] parent_earlier(result@, p, i),
        decreases bound.len() - result@.len(),
    {
        proof {
            assert forall|i: int| 0 <= i < (result@ + stack@).len() implies bound.contains(#[trigger] (result@ + stack@)[i]) by {
                let x = (result@ + stack@)[i];
                assert((result@ + stack@).contains(x));
                if x != root {
                    assert(p.contains_key(x));
                }
            }
            lemma_seq_len_bound(result@ + stack@, bound);
        }
        let ghost old_result = result@;
        let ghost old_stack = stack@;
        let id = stack.pop().unwrap();
        assert(old_stack == stack@.push(id));
        result.push(id);
        proof {
            lemma_parent_earlier_push(old_result, old_stack, p, idm, root, id);
        }
        assert((old_result + old_stack) =~= (old_result + stack@).push(id));
        proof {
            lemma_move_last(old_result, stack@, id);
            assert(result@ + stack@ =~= old_result.push(id) + stack@);
            assert forall|x: u64| #[trigger] (result@ + stack@).contains(x) implies hangs_under(result@, p, idm, root, x) && exists|n: nat| #[trigger] walk(p, x, n) == Some(root) by {
                assert((old_result + old_stack).contains(x));
                if x != root {
                    crate::hierarchy::lemma_push_contains(old_result, id, parent_step(p, x)->0);
                }
            }
        }
        let ghost base = old_result + stack@;
        assert forall|x: u64| #[trigger] base.contains(x) implies (old_result + old_stack).contains(x) && hangs_under(old_result, p, idm, root, x) && x != id by {
            let j = choose|j: int| 0 <= j < base.len() && base[j] == x;
            assert((old_result + old_stack)[j] == x);
            let last = (old_result + old_stack).len() - 1;
            assert((old_result + old_stack)[last] == id);
        }
        assert(!old_result.contains(id)) by {
            if old_result.contains(id) {
                let j = choose|j: int| 0 <= j < old_result.len() && old_result[j] == id;
                let last = (old_result + old_stack).len() - 1;
                assert((old_result + old_stack)[j] == id);
                assert((old_result + old_stack)[last] == id);
            }
        }
        if ids.contains_id(XrdsId(id)) {
            let children = hierarchy.child_ids_of(XrdsId(id));
            let ghost kids = ch[id];
            let mut k: usize = children.len();
            while k > 0
                invariant
                    p == hierarchy.parents(),
                    ch == hierarchy.children(),
                    idm == ids.ids(),
                    hierarchy.wf(),
                    acyclic(p),
                    k <= children.len(),
                    idm.contains_key(id),
                    result@ == old_result.push(id),
                    ch.contains_key(id) ==> kids == ch[id] && children@.len() == kids.len(),
                    !ch.contains_key(id) ==> children@.len() == 0,
                    forall|i: int| 0 <= i < children@.len() ==> #[trigger] children@[i] == XrdsId(ch[id][i]),
                    (result@ + stack@).no_duplicates(),
                    forall|x: u64| #[trigger] (result@ + stack@).contains(x) ==> hangs_under(result@, p, idm, root, x),
                    forall|x: u64| #[trigger] (result@ + stack@).contains(x) ==> exists|n: nat| #[trigger] walk(p, x, n) == Some(root),
                    forall|i: int| k <= i < children@.len() ==> (result@ + stack@).contains(#[trigger] children@[i].0),
                    forall|x: u64, c: u64|
                        #![trigger old_result.contains(x), ch[x].contains(c)]
                        old_result.contains(x) && idm.contains_key(x) && ch.contains_key(x) && ch[x].contains(c) ==> (result@ + stack@).contains(c),
                    result@[0] == root,
                    forall|i: int| 0 < i < result@.len() ==> #[trigger] parent_earlier(result@, p, i),
                    !old_result.contains(id),
                    forall|x: u64| #[trigger] base.contains(x) ==> hangs_under(old_result, p, idm, root, x) && x != id,
                    forall|x: u64| #[trigger] (result@ + stack@).contains(x) ==> (base.contains(x) || x == id || exists|i: int| k <= i < children@.len() && #[trigger] children@[i].0 == x),
                decreases k,
            {
                k = k - 1;
                let c = children[k].0;
                assert(ch.contains_key(id) && ch[id].contains(c)) by {
                    assert(ch[id][k as int] == c);
                }
                assert(p.contains_key(c) && p[c] == Some(id));
                proof {
                    // c is not yet collected: it is not in `base` (its parent id was not yet
                    // collected), not id (no self links), and not a later sibling (no duplicates).
                    if (result@ + stack@).contains(c) {
                        if base.contains(c) {
                            if c == root {
                                assert((result@ + stack@)[result@.len() - 1] == id);
                                assert((result@ + stack@).contains(id));
                                let n = choose|n: nat| #[trigger] walk(p, id, n) == Some(root);
                                crate::hierarchy::lemma_walk_compose(p, root, 1nat, n);
                                assert(walk(p, root, 0) == Some(root));
                                assert(walk(p, root, 1) == Some(id));
                                assert(walk(p, root, (1 + n) as nat) == Some(root));
                            } else {
                                assert(hangs_under(old_result, p, idm, root, c));
                                assert(old_result.contains(id));
                            }
                        } else if c == id {
                            assert(walk(p, id, 0) == Some(id));
                            assert(walk(p, id, 1) == Some(id));
                        } else {
                            let i = choose|i: int| k <= i < children@.len() && #[trigger] children@[i].0 == c;
                            assert(ch[id][i] == ch[id][k as int]);
                            assert(ch[id].no_duplicates());
                        }
                    }
                }
                let ghost before = result@ + stack@;
                stack.push(c);
                assert(result@ + stack@ =~= before.push(c));
                proof {
                    crate::hierarchy::lemma_push_no_duplicates(before, c);
                    assert forall|x: u64| #[trigger] (result@ + stack@).contains(x) implies hangs_under(result@, p, idm, root, x) by {
                        crate::hierarchy::lemma_push_contains(before, c, x);
                        if x == c {
                            assert(result@.contains(id)) by {
                                assert(result@[result@.len() - 1] == id);
                            }
                        }
                    }
                    assert forall|x: u64| #[trigger] (result@ + stack@).contains(x) implies exists|n: nat| #[trigger] walk(p, x, n) == Some(root) by {
                        crate::hierarchy::lemma_push_contains(before, c, x);
                        if x == c {
                            assert(before.contains(id)) by {
                                assert(before[result@.len() - 1] == id);
                            }
                            let n = choose|n: nat| #[trigger] walk(p, id, n) == Some(root);
                            crate::hierarchy::lemma_walk_compose(p, c, 1nat, n);
                            assert(walk(p, c, 0) == Some(c));
                            assert(walk(p, c, 1) == Some(id));
                            assert(walk(p, c, (1 + n) as nat) == Some(root));
                        }
                    }
                    assert forall|i: int| k <= i < children@.len() implies (result@ + stack@).contains(#[trigger] children@[i].0) by {
                        crate::hierarchy::lemma_push_contains(before, c, children@[i].0);
                    }
                    assert forall|x: u64, cc: u64|
                        #![trigger old_result.contains(x), ch[x].contains(cc)]
                        old_result.contains(x) && idm.contains_key(x) && ch.contains_key(x) && ch[x].contains(cc) implies (result@ + stack@).contains(cc) by {
                        crate::hierarchy::lemma_push_contains(before, c, cc);
                    }
                    assert forall|x: u64| #[trigger] (result@ + stack@).contains(x) implies (base.contains(x) || x == id || exists|i: int| k <= i < children@.len() && #[trigger] children@[i].0 == x) by {
                        crate::hierarchy::lemma_push_contains(before, c, x);
                        if x == c {
                            assert(children@[k as int].0 == x);
                        }
                    }
                }
            }
            proof {
                assert forall|x: u64, cc: u64|
                    #![trigger result@.contains(x), ch[x].contains(cc)]
                    result@.contains(x) && idm.contains_key(x) && ch.contains_key(x) && ch[x].contains(cc) implies (result@ + stack@).contains(cc) by {
                    crate::hierarchy::lemma_push_contains(old_result, id, x);
                    if x == id {
                        let i = choose|i: int| 0 <= i < ch[id].len() && ch[id][i] == cc;
                        assert(children@[i].0 == cc);
                    }
                }
            }
        } else {
            proof {
                assert forall|x: u64, cc: u64|
                    #![trigger result@.contains(x), ch[x].contains(cc)]
                    result@.contains(x) && idm.contains_key(x) && ch.contains_key(x) && ch[x].contains(cc) implies (result@ + stack@).contains(cc) by {
                    crate::hierarchy::lemma_push_contains(old_result, id, x);
                }
                assert forall|x: u64| #[trigger] (result@ + stack@).contains(x) implies hangs_under(result@, p, idm, root, x) by {
                    assert((old_result + old_stack).contains(x));
                    if x != root {
                        crate::hierarchy::lemma_push_contains(old_result, id, parent_step(p, x)->0);
                    }
                }
            }
        }
    }
    let mut r: Vec<XrdsId> = Vec::new();
    let mut i: usize = 0;
    while i < result.len()
        invariant
            i <= result.len(),
            r@.len() == i,
            forall|j: int| 0 <= j < i ==> #[trigger] r@[j] == XrdsId(result@[j]),
        decreases result.len() - i,
    {
        r.push(XrdsId(result[i]));
        i = i + 1;
    }
    proof {
        assert(stack@.len() == 0);
        assert(result@ + stack@ =~= result@);
        assert(raw_ids(r@) =~= result@);
        assert forall|i: int| 0 < i < r@.len() implies #[trigger] parent_earlier(raw_ids(r@), p, i) by {
            assert(parent_earlier(result@, p, i));
        }
        assert forall|i: int| 0 <= i < r@.len() implies hangs_under(
            raw_ids(r@),
            p,
            idm,
            root,
            #[trigger] r@[i].0,
        ) by {
            assert(result@[i] == r@[i].0);
            assert((result@ + stack@).contains(result@[i]));
        }
        assert forall|x: u64| #[trigger] result@.contains(x) <==> in_subtree(p, idm, root, x) by {
            if result@.contains(x) {
                assert((result@ + stack@).contains(x));
                let k = choose|k: nat| #[trigger] walk(p, x, k) == Some(root);
                assert forall|y: u64| #[trigger] result@.contains(y) implies hangs_under(result@, p, idm, root, y) by {
                    assert((result@ + stack@).contains(y));
                }
                lemma_collected_in_subtree(result@, p, idm, root, x, k);
            }
            if in_subtree(p, idm, root, x) {
                let k = choose|k: nat|
                    #[trigger] walk(p, x, k) == Some(root) && forall|j: nat|
                        1 <= j <= k ==> (#[trigger] walk(p, x, j) is Some && idm.contains_key(walk(p, x, j)->0));
                assert(result@[0] == root);
                lemma_subtree_collected(result@, p, ch, idm, root, x, k);
            }
        }
    }
    r
}

/// A map whose every link is also a link of an acyclic map is acyclic.
pub proof fn lemma_fewer_links_acyclic(m1: Map<u64, Option<u64>>, m2: Map<u64, Option<u64>>)
    requires
        acyclic(m1),
        forall|y: u64| #[trigger] parent_step(m2, y) is Some ==> parent_step(m2, y) == parent_step(m1, y),
    ensures
        acyclic(m2),
{
    assert forall|x: u64, k: nat| k >= 1 implies #[trigger] walk(m2, x, k) != Some(x) by {
        if walk(m2, x, k) == Some(x) {
            crate::hierarchy::lemma_walk_agree(m2, m1, x, k);
            assert(walk(m1, x, k) == Some(x));
        }
    }
}

/// The ids registered for `entities`, in order, skipping unregistered entities.
pub open spec fn ids_of_entities(entities: Seq<Entity>, em: Map<u64, u64>) -> Seq<u64>
    decreases entities.len(),
{
    if entities.len() == 0 {
        Seq::empty()
    } else {
        let r = ids_of_entities(entities.drop_last(), em);
        if em.contains_key(entities.last().0) {
            r.push(em[entities.last().0])
        } else {
            r
        }
    }
}

/// Parents after removing each node of `ids` in turn.
pub open spec fn parents_after_removals(
    p: Map<u64, Option<u64>>,
    ch: Map<u64, Seq<u64>>,
    ids: Seq<u64>,
) -> Map<u64, Option<u64>>
    decreases ids.len(),
{
    if ids.len() == 0 {
        p
    } else {
        let pp = parents_after_removals(p, ch, ids.drop_last());
        let cc = children_after_removals(p, ch, ids.drop_last());
        clear_parents(pp.remove(ids.last()), removed_children(pp, cc, ids.last()))
    }
}

/// Children after removing each node of `ids` in turn.
pub open spec fn children_after_removals(
    p: Map<u64, Option<u64>>,
    ch: Map<u64, Seq<u64>>,
    ids: Seq<u64>,
) -> Map<u64, Seq<u64>>
    decreases ids.len(),
{
    if ids.len() == 0 {
        ch
    } else {
        let pp = parents_after_removals(p, ch, ids.drop_last());
        let cc = children_after_removals(p, ch, ids.drop_last());
        remove_node_children(pp, cc, ids.last()).remove(ids.last())
    }
}

pub proof fn lemma_ids_of_entities(entities: Seq<Entity>, em: Map<u64, u64>)
    ensures
        forall|x: u64| #[trigger] ids_of_entities(entities, em).contains(x) <==> exists|i: int| 0 <= i < entities.len() && em.contains_key(#[trigger] entities[i].0) && em[entities[i].0] == x,
    decreases entities.len(),
{
    if entities.len() > 0 {
        let l = entities.drop_last();
        lemma_ids_of_entities(l, em);
        let r = ids_of_entities(l, em);
        assert forall|x: u64| #[trigger] ids_of_entities(entities, em).contains(x) <==> exists|i: int| 0 <= i < entities.len() && em.contains_key(#[trigger] entities[i].0) && em[entities[i].0] == x by {
            if em.contains_key(entities.last().0) {
                crate::hierarchy::lemma_push_contains(r, em[entities.last().0], x);
            }
            if exists|i: int| 0 <= i < entities.len() && em.contains_key(#[trigger] entities[i].0) && em[entities[i].0] == x {
                let i = choose|i: int| 0 <= i < entities.len() && em.contains_key(#[trigger] entities[i].0) && em[entities[i].0] == x;
                if i < l.len() {
                    assert(l[i] == entities[i]);
                } else {
                    assert(entities[i] == entities.last());
                }
            }
            if r.contains(x) {
                let i = choose|i: int| 0 <= i < l.len() && em.contains_key(#[trigger] l[i].0) && em[l[i].0] == x;
                assert(entities[i] == l[i]);
            }
        }
    }
}

/// Removing nodes one by one keeps the hierarchy a well formed forest whose linked nodes are
/// registered in `idm`, provided the removed ids are gone from `idm` too.
pub proof fn lemma_removals_keep_forest(
    p: Map<u64, Option<u64>>,
    ch: Map<u64, Seq<u64>>,
    ids: Seq<u64>,
)
    requires
        hierarchy_wf(p, ch),
        acyclic(p),
    ensures
        hierarchy_wf(parents_after_removals(p, ch, ids), children_after_removals(p, ch, ids)),
        acyclic(parents_after_removals(p, ch, ids)),
        forall|y: u64| #[trigger] parent_step(parents_after_removals(p, ch, ids), y) is Some ==> parent_step(parents_after_removals(p, ch, ids), y) == parent_step(p, y) && !ids.contains(y),
    decreases ids.len(),
{
    if ids.len() > 0 {
        let l = ids.drop_last();
        lemma_removals_keep_forest(p, ch, l);
        let pp = parents_after_removals(p, ch, l);
        let cc = children_after_removals(p, ch, l);
        let id = ids.last();
        crate::hierarchy::lemma_remove_node_wf(pp, cc, id);
        let kids = removed_children(pp, cc, id);
        crate::hierarchy::lemma_clear_parents(pp.remove(id), kids);
        let p2 = parents_after_removals(p, ch, ids);
        assert forall|y: u64| #[trigger] parent_step(p2, y) is Some implies parent_step(p2, y) == parent_step(pp, y) && y != id by {}
        lemma_fewer_links_acyclic(pp, p2);
        assert forall|y: u64| #[trigger] parent_step(p2, y) is Some implies parent_step(p2, y) == parent_step(p, y) && !ids.contains(y) by {
            assert(parent_step(pp, y) is Some);
            crate::hierarchy::lemma_push_contains(l, id, y);
            assert(ids =~= l.push(id));
        }
    }
}

/// Forget the given entities: remove their ids from the hierarchy (detaching their children)
/// and drop their registrations in both directions.
pub fn unregister_entities(
    ids: &mut XrdsIdIndex,
    hierarchy: &mut XrdsHierarchyIndex,
    entities: &Vec<Entity>,
)
    requires
        old(hierarchy).wf(),
    ensures
        final(hierarchy).wf(),
        final(hierarchy).parents() == parents_after_removals(
            old(hierarchy).parents(),
            old(hierarchy).children(),
            ids_of_entities(entities@, old(ids).entities()),
        ),
        final(hierarchy).children() == children_after_removals(
            old(hierarchy).parents(),
            old(hierarchy).children(),
            ids_of_entities(entities@, old(ids).entities()),
        ),
        forall|e: u64| #[trigger] final(ids).entities().contains_key(e) <==> old(ids).entities().contains_key(e) && !(exists|i: int| 0 <= i < entities@.len() && #[trigger] entities@[i].0 == e),
        forall|e: u64| #[trigger] final(ids).entities().contains_key(e) ==> final(ids).entities()[e] == old(ids).entities()[e],
        forall|x: u64| #[trigger] final(ids).ids().contains_key(x) <==> old(ids).ids().contains_key(x) && !ids_of_entities(entities@, old(ids).entities()).contains(x),
        forall|x: u64| #[trigger] final(ids).ids().contains_key(x) ==> final(ids).ids()[x] == old(ids).ids()[x],
{
    let ghost em0 = ids.entities();
    let ghost im0 = ids.ids();
    let ghost p0 = hierarchy.parents();
    let ghost ch0 = hierarchy.children();
    let mut removed_ids: Vec<XrdsId> = Vec::new();
    let mut i: usize = 0;
    while i < entities.len()
        invariant
            i <= entities.len(),
            ids.entities() == em0,
            raw_ids(removed_ids@) == ids_of_entities(entities@.take(i as int), em0),
        decreases entities.len() - i,
    {
        assert(entities@.take(i + 1).drop_last() =~= entities@.take(i as int));
        let ghost before = removed_ids@;
        if let Some(id) = ids.id_of(entities[i]) {
            removed_ids.push(id);
            assert(raw_ids(removed_ids@) =~= raw_ids(before).push(id.0));
        }
        i = i + 1;
    }
    assert(entities@.take(entities.len() as int) =~= entities@);
    let ghost rid = ids_of_entities(entities@, em0);
    let mut j: usize = 0;
    while j < removed_ids.len()
        invariant
            j <= removed_ids.len(),
            raw_ids(removed_ids@) == rid,
            hierarchy_wf(p0, ch0),
            hierarchy.parents() == parents_after_removals(p0, ch0, rid.take(j as int)),
            hierarchy.children() == children_after_removals(p0, ch0, rid.take(j as int)),
            hierarchy.wf(),
        decreases removed_ids.len() - j,
    {
        assert(rid.take(j + 1).drop_last() =~= rid.take(j as int));
        assert(rid.take(j + 1).last() == removed_ids@[j as int].0);
        let _ = hierarchy.remove_node(removed_ids[j]);
        j = j + 1;
    }
    assert(rid.take(removed_ids.len() as int) =~= rid);
    let mut k: usize = 0;
    while k < entities.len()
        invariant
            k <= entities.len(),
            forall|e: u64| #[trigger] ids.entities().contains_key(e) <==> em0.contains_key(e) && !(exists|t: int| 0 <= t < k && #[trigger] entities@[t].0 == e),
            forall|e: u64| #[trigger] ids.entities().contains_key(e) ==> ids.entities()[e] == em0[e],
            forall|x: u64| #[trigger] ids.ids().contains_key(x) <==> im0.contains_key(x) && !ids_of_entities(entities@.take(k as int), em0).contains(x),
            forall|x: u64| #[trigger] ids.ids().contains_key(x) ==> ids.ids()[x] == im0[x],
        decreases entities.len() - k,
    {
        let e = entities[k];
        let ghost t0 = entities@.take(k as int);
        let ghost t1 = entities@.take(k + 1);
        assert(t1.drop_last() =~= t0);
        proof {
            lemma_ids_of_entities(t0, em0);
            lemma_ids_of_entities(t1, em0);
        }
        let ghost em_before = ids.entities();
        let ghost im_before = ids.ids();
        ids.unregister(e);
        proof {
            if em0.contains_key(e.0) {
                assert(t1.last() == e);
                assert(ids_of_entities(t1, em0) == ids_of_entities(t0, em0).push(em0[e.0]));
                crate::hierarchy::lemma_push_contains(ids_of_entities(t0, em0), em0[e.0], em0[e.0]);
                if !em_before.contains_key(e.0) {
                    let t = choose|t: int| 0 <= t < k && #[trigger] entities@[t].0 == e.0;
                    assert(t0[t] == entities@[t]);
                    assert(ids_of_entities(t0, em0).contains(em0[e.0]));
                }
            } else {
                assert(ids_of_entities(t1, em0) == ids_of_entities(t0, em0));
            }
        }
        assert forall|x: u64| #[trigger] ids.ids().contains_key(x) <==> im0.contains_key(x) && !ids_of_entities(t1, em0).contains(x) by {
            if em0.contains_key(e.0) {
                crate::hierarchy::lemma_push_contains(ids_of_entities(t0, em0), em0[e.0], x);
            }
            if ids_of_entities(t1, em0).contains(x) && !ids_of_entities(t0, em0).contains(x) {
                let t = choose|t: int| 0 <= t < t1.len() && em0.contains_key(#[trigger] t1[t].0) && em0[t1[t].0] == x;
                if t < k {
                    assert(t0[t] == t1[t]);
                }
            }
            if ids_of_entities(t0, em0).contains(x) {
                let t = choose|t: int| 0 <= t < t0.len() && em0.contains_key(#[trigger] t0[t].0) && em0[t0[t].0] == x;
                assert(t1[t] == t0[t]);
            }
        }
        assert forall|ee: u64| #[trigger] ids.entities().contains_key(ee) <==> em0.contains_key(ee) && !(exists|t: int| 0 <= t < k + 1 && #[trigger] entities@[t].0 == ee) by {
            if ee == e.0 {
                assert(entities@[k as int].0 == ee);
            }
        }
        k = k + 1;
    }
    assert(entities@.take(entities.len() as int) =~= entities@);
}

/// `s` without the members of `gone`, in order.
pub open spec fn seq_minus(s: Seq<u64>, gone: Set<u64>) -> Seq<u64>
    decreases s.len(),
{
    if s.len() == 0 {
        s
    } else {
        let r = seq_minus(s.drop_last(), gone);
        if gone.contains(s.last()) { r } else { r.push(s.last()) }
    }
}

proof fn lemma_seq_minus_empty(s: Seq<u64>)
    ensures
        seq_minus(s, Set::empty()) == s,
    decreases s.len(),
{
    if s.len() > 0 {
        lemma_seq_minus_empty(s.drop_last());
        assert(s.drop_last().push(s.last()) =~= s);
    }
}

proof fn lemma_seq_minus_insert(s: Seq<u64>, gone: Set<u64>, c: u64)
    ensures
        crate::hierarchy::seq_without(seq_minus(s, gone), c) == seq_minus(s, gone.insert(c)),
    decreases s.len(),
{
    if s.len() > 0 {
        lemma_seq_minus_insert(s.drop_last(), gone, c);
        let r = seq_minus(s.drop_last(), gone);
        if !gone.contains(s.last()) {
            assert(r.push(s.last()).drop_last() =~= r);
        }
    }
}

proof fn lemma_seq_without_absent(s: Seq<u64>, c: u64)
    requires
        !s.contains(c),
    ensures
        crate::hierarchy::seq_without(s, c) == s,
    decreases s.len(),
{
    if s.len() > 0 {
        assert(!s.drop_last().contains(c)) by {
            if s.drop_last().contains(c) {
                let i = choose|i: int| 0 <= i < s.drop_last().len() && s.drop_last()[i] == c;
                assert(s[i] == c);
            }
        }
        lemma_seq_without_absent(s.drop_last(), c);
        assert(s.last() != c) by {
            assert(s[s.len() - 1] == s.last());
        }
        assert(s.drop_last().push(s.last()) =~= s);
    }
}

/// Removing nodes keeps each surviving child list in order, without the removed nodes.
pub proof fn lemma_removals_children(
    p: Map<u64, Option<u64>>,
    ch: Map<u64, Seq<u64>>,
    ids: Seq<u64>,
)
    requires
        hierarchy_wf(p, ch),
        acyclic(p),
    ensures
        forall|x: u64| #[trigger] children_after_removals(p, ch, ids).contains_key(x) ==>
            ch.contains_key(x) && children_after_removals(p, ch, ids)[x] == seq_minus(ch[x], ids.to_set()),
    decreases ids.len(),
{
    if ids.len() == 0 {
        assert forall|x: u64| #[trigger] children_after_removals(p, ch, ids).contains_key(x) implies
            ch.contains_key(x) && children_after_removals(p, ch, ids)[x] == seq_minus(ch[x], ids.to_set()) by {
            assert(ids.to_set() =~= Set::<u64>::empty());
            lemma_seq_minus_empty(ch[x]);
        }
    } else {
        let l = ids.drop_last();
        let id = ids.last();
        lemma_removals_children(p, ch, l);
        lemma_removals_keep_forest(p, ch, l);
        let pp = parents_after_removals(p, ch, l);
        let cc = children_after_removals(p, ch, l);
        assert(ids.to_set() =~= l.to_set().insert(id)) by {
            assert(ids =~= l.push(id));
            assert forall|y: u64| ids.to_set().contains(y) <==> l.to_set().insert(id).contains(y) by {
                crate::hierarchy::lemma_push_contains(l, id, y);
            }
        }
        assert forall|x: u64| #[trigger] children_after_removals(p, ch, ids).contains_key(x) implies
            ch.contains_key(x) && children_after_removals(p, ch, ids)[x] == seq_minus(ch[x], ids.to_set()) by {
            assert(cc.contains_key(x) && x != id);
            lemma_seq_minus_insert(ch[x], l.to_set(), id);
            if parent_step(pp, id) == Some(x) {
            } else {
                assert(!cc[x].contains(id)) by {
                    if cc[x].contains(id) {
                        assert(pp.contains_key(id) && pp[id] == Some(x));
                    }
                }
                lemma_seq_without_absent(cc[x], id);
            }
        }
    }
}

/// Removing nodes one by one takes exactly those nodes out of the parent map, and detaches
/// exactly the nodes whose parent was removed.
pub proof fn lemma_removals_effect(
    p: Map<u64, Option<u64>>,
    ch: Map<u64, Seq<u64>>,
    ids: Seq<u64>,
)
    requires
        hierarchy_wf(p, ch),
        acyclic(p),
    ensures
        forall|x: u64| #[trigger] parents_after_removals(p, ch, ids).contains_key(x) <==> p.contains_key(x) && !ids.contains(x),
        forall|x: u64| #[trigger] parents_after_removals(p, ch, ids).contains_key(x) ==> parents_after_removals(p, ch, ids)[x] == (
            if p[x] is Some && ids.contains(p[x]->0) { None } else { p[x] }
        ),
    decreases ids.len(),
{
    if ids.len() > 0 {
        let l = ids.drop_last();
        lemma_removals_effect(p, ch, l);
        lemma_removals_keep_forest(p, ch, l);
        let pp = parents_after_removals(p, ch, l);
        let cc = children_after_removals(p, ch, l);
        let id = ids.last();
        crate::hierarchy::lemma_remove_node_wf(pp, cc, id);
        let kids = removed_children(pp, cc, id);
        crate::hierarchy::lemma_clear_parents(pp.remove(id), kids);
        assert(ids =~= l.push(id));
        assert forall|x: u64| ids.contains(x) <==> (l.contains(x) || x == id) by {
            crate::hierarchy::lemma_push_contains(l, id, x);
        }
        // the node being removed is not its own parent, so its child list is untouched
        assert(parent_step(pp, id) != Some(id)) by {
            assert(walk(pp, id, 0) == Some(id));
            assert(walk(pp, id, 1) == parent_step(pp, id));
        }
        assert forall|c: u64| #[trigger] kids.contains(c) <==> (pp.contains_key(c) && pp[c] == Some(id)) by {
            let ch1 = remove_node_children(pp, cc, id);
            if cc.contains_key(id) {
                assert(ch1.contains_key(id) && ch1[id] == cc[id]);
            } else {
                assert(!ch1.contains_key(id));
                if pp.contains_key(c) && pp[c] == Some(id) {
                    assert(pp.contains_key(id) && cc[id].contains(c));
                }
            }
        }
    }
}

/// The ids of `xs` that `im` registers, in order.
pub open spec fn registered_ids(xs: Seq<u64>, im: Map<u64, u64>) -> Seq<u64>
    decreases xs.len(),
{
    if xs.len() == 0 {
        Seq::empty()
    } else {
        let r = registered_ids(xs.drop_last(), im);
        if im.contains_key(xs.last()) { r.push(xs.last()) } else { r }
    }
}

/// The entities `im` registers for the ids of `xs`, in order.
pub open spec fn entities_of(xs: Seq<u64>, im: Map<u64, u64>) -> Seq<Entity>
    decreases xs.len(),
{
    if xs.len() == 0 {
        Seq::empty()
    } else {
        let r = entities_of(xs.drop_last(), im);
        if im.contains_key(xs.last()) { r.push(Entity(im[xs.last()])) } else { r }
    }
}

/// When every id of `xs` is registered, its entities are those of its ids, position by
/// position.
pub proof fn lemma_entities_of_registered(xs: Seq<u64>, im: Map<u64, u64>)
    requires
        forall|k: int| 0 <= k < xs.len() ==> im.contains_key(#[trigger] xs[k]),
    ensures
        entities_of(xs, im).len() == xs.len(),
        forall|k: int| 0 <= k < xs.len() ==> #[trigger] entities_of(xs, im)[k] == Entity(im[xs[k]]),
    decreases xs.len(),
{
    if xs.len() > 0 {
        let l = xs.drop_last();
        assert forall|k: int| 0 <= k < l.len() implies im.contains_key(#[trigger] l[k]) by {
            assert(l[k] == xs[k]);
        }
        lemma_entities_of_registered(l, im);
        assert(im.contains_key(xs[xs.len() - 1]));
        assert forall|k: int| 0 <= k < xs.len() implies #[trigger] entities_of(xs, im)[k] == Entity(im[xs[k]]) by {
            if k < l.len() {
                assert(l[k] == xs[k]);
            }
        }
    }
}

/// With the two directions of the index inverse to each other, going from ids to entities
/// and back keeps exactly the registered ids, and distinct ids give distinct entities.
pub proof fn lemma_entities_of(xs: Seq<u64>, im: Map<u64, u64>, em: Map<u64, u64>)
    requires
        forall|x: u64| #[trigger] im.contains_key(x) ==> em.contains_key(im[x]) && em[im[x]] == x,
    ensures
        ids_of_entities(entities_of(xs, im), em) == registered_ids(xs, im),
        forall|x: u64| #[trigger] registered_ids(xs, im).contains(x) <==> xs.contains(x) && im.contains_key(x),
        forall|e: Entity| #[trigger] entities_of(xs, im).contains(e) <==> exists|x: u64| #[trigger] xs.contains(x) && im.contains_key(x) && im[x] == e.0,
        xs.no_duplicates() ==> entities_of(xs, im).no_duplicates(),
    decreases xs.len(),
{
    if xs.len() > 0 {
        let l = xs.drop_last();
        let x = xs.last();
        lemma_entities_of(l, im, em);
        assert(xs =~= l.push(x));
        assert forall|y: u64| #[trigger] xs.contains(y) <==> (l.contains(y) || y == x) by {
            crate::hierarchy::lemma_push_contains(l, x, y);
        }
        let r = registered_ids(l, im);
        let er = entities_of(l, im);
        if im.contains_key(x) {
            assert(entities_of(xs, im).drop_last() =~= er);
            assert forall|y: u64| #[trigger] r.push(x).contains(y) <==> (r.contains(y) || y == x) by {
                crate::hierarchy::lemma_push_contains(r, x, y);
            }
            assert forall|e: Entity| #[trigger] er.push(Entity(im[x])).contains(e) <==> (er.contains(e) || e == Entity(im[x])) by {
                crate::hierarchy::lemma_push_contains(er, Entity(im[x]), e);
            }
            assert forall|e: Entity| #[trigger] entities_of(xs, im).contains(e) <==> exists|y: u64| #[trigger] xs.contains(y) && im.contains_key(y) && im[y] == e.0 by {
                if entities_of(xs, im).contains(e) {
                    if er.contains(e) {
                        let y = choose|y: u64| #[trigger] l.contains(y) && im.contains_key(y) && im[y] == e.0;
                        assert(xs.contains(y));
                    } else {
                        assert(xs.contains(x));
                    }
                }
                if exists|y: u64| #[trigger] xs.contains(y) && im.contains_key(y) && im[y] == e.0 {
                    let y = choose|y: u64| #[trigger] xs.contains(y) && im.contains_key(y) && im[y] == e.0;
                    if y != x {
                        assert(l.contains(y));
                        assert(er.contains(e));
                    }
                }
            }
            if xs.no_duplicates() {
                assert(l.no_duplicates()) by {
                    assert forall|i: int, j: int| 0 <= i < l.len() && 0 <= j < l.len() && i != j implies l[i] != l[j] by {
                        assert(xs[i] == l[i] && xs[j] == l[j]);
                    }
                }
                assert(!l.contains(x)) by {
                    if l.contains(x) {
                        let j = choose|j: int| 0 <= j < l.len() && l[j] == x;
                        assert(xs[j] == xs[l.len() as int]);
                    }
                }
                assert(!er.contains(Entity(im[x]))) by {
                    if er.contains(Entity(im[x])) {
                        let y = choose|y: u64| #[trigger] l.contains(y) && im.contains_key(y) && im[y] == im[x];
                        assert(em[im[y]] == y);
                    }
                }
                crate::hierarchy::lemma_push_no_duplicates(er, Entity(im[x]));
            }
        } else {
            assert(entities_of(xs, im) == er);
            assert forall|e: Entity| #[trigger] entities_of(xs, im).contains(e) <==> exists|y: u64| #[trigger] xs.contains(y) && im.contains_key(y) && im[y] == e.0 by {
                if exists|y: u64| #[trigger] xs.contains(y) && im.contains_key(y) && im[y] == e.0 {
                    let y = choose|y: u64| #[trigger] xs.contains(y) && im.contains_key(y) && im[y] == e.0;
                    assert(l.contains(y));
                }
                if er.contains(e) {
                    let y = choose|y: u64| #[trigger] l.contains(y) && im.contains_key(y) && im[y] == e.0;
                    assert(xs.contains(y));
                }
            }
            if xs.no_duplicates() {
                assert(l.no_duplicates()) by {
                    assert forall|i: int, j: int| 0 <= i < l.len() && 0 <= j < l.len() && i != j implies l[i] != l[j] by {
                        assert(xs[i] == l[i] && xs[j] == l[j]);
                    }
                }
            }
        }
    }
}

/// Every recorded parent has an entry of its own.
pub open spec fn parents_have_entries(m: Map<u64, Option<u64>>) -> bool {
    forall|y: u64| #[trigger] parent_step(m, y) is Some ==> m.contains_key(parent_step(m, y)->0)
}

/// In a finite forest whose parents have entries, no chain of ancestors is as long as the map.
pub proof fn lemma_chains_are_short(m: Map<u64, Option<u64>>, x: u64)
    requires
        acyclic(m),
        m.dom().finite(),
        m.len() > 0,
        parents_have_entries(m),
    ensures
        walk(m, x, m.len()) is None,
{
    let n = m.len();
    if walk(m, x, n) is Some {
        // the n + 1 nodes of the chain are distinct entries of m
        let s = Seq::new(n + 1, |k: int| walk(m, x, k as nat)->0);
        assert forall|k: int| 0 <= k <= n implies #[trigger] walk(m, x, k as nat) is Some by {
            crate::hierarchy::lemma_walk_prefix(m, x, n, k as nat);
        }
        assert forall|k: int| 0 <= k < s.len() implies m.dom().contains(#[trigger] s[k]) by {
            assert(s[k] == walk(m, x, k as nat)->0);
            if k < n {
                assert(walk(m, x, (k + 1) as nat) is Some);
                let y = walk(m, x, k as nat)->0;
                assert(walk(m, x, (k + 1) as nat) == parent_step(m, y));
                assert(m.contains_key(y));
            } else {
                assert(walk(m, x, (k - 1) as nat) is Some);
                let y = walk(m, x, (k - 1) as nat)->0;
                assert(walk(m, x, k as nat) == parent_step(m, y));
                assert(parent_step(m, y) is Some);
            }
        }
        assert forall|i: int, j: int| 0 <= i < s.len() && 0 <= j < s.len() && i != j implies s[i] != s[j] by {
            if s[i] == s[j] {
                let (a, b) = if i < j { (i, j) } else { (j, i) };
                let y = walk(m, x, a as nat)->0;
                assert(s[a] == y && s[b] == walk(m, x, b as nat)->0);
                crate::hierarchy::lemma_walk_compose(m, x, a as nat, (b - a) as nat);
                assert(walk(m, y, (b - a) as nat) == Some(y));
            }
        }
        lemma_seq_len_bound(s, m.dom());
    }
}

/// The change that attaches the leaf `c` under `q`.
pub open spec fn attach_change(c: u64, q: u64) -> QueuedParentChange {
    QueuedParentChange { child_id: XrdsId(c), parent_id: Some(XrdsId(q)) }
}

proof fn lemma_leaf_walks(p: Map<u64, Option<u64>>, c: u64, q: u64, s: nat)
    requires
        c != q,
        forall|y: u64| #[trigger] parent_step(p, y) != Some(c),
    ensures
        walk(p.insert(c, Some(q)), q, s) == walk(p, q, s),
        walk(p, q, s) != Some(c),
    decreases s,
{
    if s > 0 {
        lemma_leaf_walks(p, c, q, (s - 1) as nat);
    }
}

/// Attaching a registered node that nothing hangs under to another registered node of a
/// forest succeeds: the batch gives it exactly that parent.
pub proof fn lemma_leaf_attach(ids: Map<u64, u64>, p: Map<u64, Option<u64>>, c: u64, q: u64)
    requires
        acyclic(p),
        p.dom().finite(),
        parents_have_entries(p),
        ids.contains_key(c),
        ids.contains_key(q),
        p.contains_key(q),
        c != q,
        forall|y: u64| #[trigger] parent_step(p, y) != Some(c),
    ensures
        parent_step(parents_after_changes(ids, p, seq![attach_change(c, q)]), c) == Some(q),
{
    let changes = seq![attach_change(c, q)];
    let r = p.insert(c, Some(q));
    assert(changes.drop_last() =~= Seq::<QueuedParentChange>::empty());
    assert(changes.last() == attach_change(c, q));
    assert(requested_parents(p, changes.drop_last()) == p);
    assert(requested_parents(p, changes) == r);
    assert(change_order(changes.drop_last()) =~= Seq::<u64>::empty());
    assert(change_order(changes) =~= seq![c]);
    assert forall|s: nat| s <= r.len() implies #[trigger] walk(r, q, s) != Some(c) by {
        lemma_leaf_walks(p, c, q, s);
    }
    lemma_chains_are_short(p, q);
    assert(r.len() >= p.len()) by {
        if p.contains_key(c) {
            assert(r.dom() =~= p.dom());
        } else {
            assert(r.dom() =~= p.dom().insert(c));
        }
    }
    lemma_leaf_walks(p, c, q, r.len());
    if walk(p, q, r.len()) is Some {
        crate::hierarchy::lemma_walk_prefix(p, q, r.len(), p.len());
    }
    assert(!cycle_check(r, c, q));
    assert(resolved_parent(ids, r, c) == Some(q));
    assert(seq![c].drop_last() =~= Seq::<u64>::empty());
    assert(seq![c].last() == c);
    assert(planned_links(ids, r, seq![c].drop_last()) =~= Seq::<(u64, Option<u64>)>::empty());
    assert(planned_links(ids, r, seq![c]) =~= seq![(c, Some(q))]);
    assert(seq![(c, Some(q))].drop_last() =~= Seq::<(u64, Option<u64>)>::empty());
}

} // verus!
