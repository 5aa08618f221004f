//! The one-asset-at-a-time rule of running tracks, and how trigger events name entities.
use std::collections::HashMap;
use vstd::prelude::*;
use crate::ids::{Entity, XrdsId, XrdsIdIndex};

verus! {

broadcast use vstd::std_specs::hash::group_hash_axioms;

/// Why a track refused to start: its name and the entities another track already drives.
pub struct XrdsTrackConflict {
    pub blocked_track: String,
    pub contended: Vec<Entity>,
}

/// Which entities are being driven by which running track agent.
pub struct XrdsTrackAssetLocks {
    /// entity -> the agent holding it
    held: HashMap<u64, u64>,
    /// every key of `held`, once
    keys: Vec<u64>,
    /// The most recent refusal, for an editor to show.
    last_conflict: Option<XrdsTrackConflict>,
}

/// The entities of `wanted` that some agent other than `me` holds, in order.
pub open spec fn conflicting(held: Map<u64, u64>, wanted: Seq<Entity>, me: u64) -> Seq<Entity>
    decreases wanted.len(),
{
    if wanted.len() == 0 {
        Seq::empty()
    } else {
        let r = conflicting(held, wanted.drop_last(), me);
        let e = wanted.last();
        if held.contains_key(e.0) && held[e.0] != me {
            r.push(e)
        } else {
            r
        }
    }
}

/// The conflicting entities are those of `wanted` held by another agent, in `wanted`'s order.
pub proof fn lemma_conflicting(held: Map<u64, u64>, wanted: Seq<Entity>, me: u64)
    ensures
        forall|e: Entity| #[trigger] conflicting(held, wanted, me).contains(e) <==>
            (wanted.contains(e) && held.contains_key(e.0) && held[e.0] != me),
        increasing(wanted) ==> increasing(conflicting(held, wanted, me)),
        conflicting(held, wanted, me).len() <= wanted.len(),
        forall|i: int| 0 <= i < conflicting(held, wanted, me).len() ==> exists|j: int| 0 <= j < wanted.len() && #[trigger] conflicting(held, wanted, me)[i] == wanted[j] && (increasing(wanted) ==> conflicting(held, wanted, me)[i].0 <= wanted.last().0),
    decreases wanted.len(),
{
    if wanted.len() > 0 {
        let l = wanted.drop_last();
        let e = wanted.last();
        lemma_conflicting(held, l, me);
        let r = conflicting(held, l, me);
        assert forall|x: Entity| #[trigger] conflicting(held, wanted, me).contains(x) <==>
            (wanted.contains(x) && held.contains_key(x.0) && held[x.0] != me) by {
            crate::hierarchy::lemma_push_contains(l, e, x);
            assert(wanted =~= l.push(e));
            if held.contains_key(e.0) && held[e.0] != me {
                crate::hierarchy::lemma_push_contains(r, e, x);
            }
        }
        if increasing(wanted) {
            assert(increasing(l)) by {
                assert forall|i: int, j: int| 0 <= i < j < l.len() implies l[i].0 < l[j].0 by {
                    assert(l[i] == wanted[i] && l[j] == wanted[j]);
                }
            }
        }
        assert forall|i: int| 0 <= i < conflicting(held, wanted, me).len() implies exists|j: int| 0 <= j < wanted.len() && #[trigger] conflicting(held, wanted, me)[i] == wanted[j] && (increasing(wanted) ==> conflicting(held, wanted, me)[i].0 <= wanted.last().0) by {
            let c = conflicting(held, wanted, me);
            if i < r.len() {
                assert(c[i] == r[i]);
                let j = choose|j: int| 0 <= j < l.len() && #[trigger] r[i] == l[j] && (increasing(l) ==> r[i].0 <= l.last().0);
                assert(wanted[j] == l[j]);
                if increasing(wanted) {
                    assert(wanted[j].0 <= wanted.last().0);
                }
            } else {
                assert(c[i] == e);
                assert(wanted[wanted.len() - 1] == e);
            }
        }
        if increasing(wanted) && held.contains_key(e.0) && held[e.0] != me {
            let c = conflicting(held, wanted, me);
            assert forall|i: int, j: int| 0 <= i < j < c.len() implies c[i].0 < c[j].0 by {
                if j < r.len() {
                    assert(c[i] == r[i] && c[j] == r[j]);
                } else {
                    assert(c[j] == e);
                    assert(c[i] == r[i]);
                    let k = choose|k: int| 0 <= k < l.len() && #[trigger] r[i] == l[k] && (increasing(l) ==> r[i].0 <= l.last().0);
                    assert(l[k] == wanted[k]);
                    assert(wanted[k].0 < wanted[wanted.len() - 1].0);
                }
            }
        }
    }
}

/// Entities in increasing order of their bits.
pub open spec fn increasing(s: Seq<Entity>) -> bool {
    forall|i: int, j: int| 0 <= i < j < s.len() ==> s[i].0 < s[j].0
}

/// `wanted` in increasing order, each entity once.
pub fn sorted_unique(wanted: &[Entity]) -> (r: Vec<Entity>)
    ensures
        increasing(r@),
        forall|e: Entity| #[trigger] r@.contains(e) <==> wanted@.contains(e),
{
    let mut r: Vec<Entity> = Vec::new();
    let mut i: usize = 0;
    while i < wanted.len()
        invariant
            i <= wanted@.len(),
            increasing(r@),
            forall|e: Entity| #[trigger] r@.contains(e) <==> wanted@.take(i as int).contains(e),
        decreases wanted.len() - i,
    {
        let e = wanted[i];
        let ghost before = r@;
        proof {
            assert(wanted@.take(i + 1) =~= wanted@.take(i as int).push(e));
            assert forall|x: Entity| #[trigger] wanted@.take(i + 1).contains(x) <==> (wanted@.take(i as int).contains(x) || x == e) by {
                crate::hierarchy::lemma_push_contains(wanted@.take(i as int), e, x);
            }
        }
        let mut pos: usize = 0;
        while pos < r.len() && r[pos].0 < e.0
            invariant
                pos <= r@.len(),
                r@ == before,
                forall|a: int| 0 <= a < pos ==> r@[a].0 < e.0,
            decreases r.len() - pos,
        {
            pos = pos + 1;
        }
        if pos < r.len() && r[pos].0 == e.0 {
            assert(r@[pos as int] == e);
        } else {
            proof {
                assert forall|a: int| pos <= a < before.len() implies before[a].0 > e.0 by {
                    if a > pos {
                        assert(before[pos as int].0 < before[a].0);
                    }
                }
                assert(!before.contains(e)) by {
                    if before.contains(e) {
                        let j = choose|j: int| 0 <= j < before.len() && before[j] == e;
                        assert(before[j].0 == e.0);
                    }
                }
            }
            r.insert(pos, e);
            proof {
                assert forall|a: int, b: int| 0 <= a < b < r@.len() implies r@[a].0 < r@[b].0 by {
                    if a < pos && b < pos {
                        assert(r@[a] == before[a] && r@[b] == before[b]);
                    } else if a < pos && b == pos {
                        assert(r@[a] == before[a]);
                    } else if a < pos {
                        assert(r@[a] == before[a] && r@[b] == before[b - 1]);
                    } else if a == pos {
                        assert(r@[b] == before[b - 1]);
                    } else {
                        assert(r@[a] == before[a - 1] && r@[b] == before[b - 1]);
                    }
                }
                assert forall|x: Entity| #[trigger] r@.contains(x) <==> (before.contains(x) || x == e) by {
                    if r@.contains(x) {
                        let j = choose|j: int| 0 <= j < r@.len() && r@[j] == x;
                        if j < pos {
                            assert(before[j] == x);
                        } else if j > pos {
                            assert(before[j - 1] == x);
                        }
                    }
                    if before.contains(x) {
                        let j = choose|j: int| 0 <= j < before.len() && before[j] == x;
                        if j < pos {
                            assert(r@[j] == x);
                        } else {
                            assert(r@[j + 1] == x);
                        }
                    }
                    if x == e {
                        assert(r@[pos as int] == x);
                    }
                }
            }
        }
        i = i + 1;
    }
    assert(wanted@.take(wanted.len() as int) =~= wanted@);
    r
}

impl XrdsTrackAssetLocks {
    /// entity -> holding agent.
    pub closed spec fn held(&self) -> Map<u64, u64> {
        self.held@
    }

    /// The most recent refusal.
    pub closed spec fn conflict(&self) -> Option<XrdsTrackConflict> {
        self.last_conflict
    }

    /// The most recent refusal, for an editor to show.
    pub fn last_conflict(&self) -> (r: &Option<XrdsTrackConflict>)
        ensures
            *r == self.conflict(),
    {
        &self.last_conflict
    }

    /// Record a refusal, replacing the previous one.
    pub fn record_conflict(&mut self, conflict: XrdsTrackConflict)
        ensures
            final(self).conflict() == Some(conflict),
            final(self).held() == old(self).held(),
            old(self).wf() ==> final(self).wf(),
    {
        self.last_conflict = Some(conflict);
    }

    /// The key list names every held entity exactly once.
    pub closed spec fn wf(&self) -> bool {
        &&& self.keys@.no_duplicates()
        &&& forall|k: u64| #[trigger] self.held@.contains_key(k) <==> self.keys@.contains(k)
    }

    /// No locks, no recorded conflict.
    pub fn default() -> (r: XrdsTrackAssetLocks)
        ensures
            r.wf(),
            r.held() == Map::<u64, u64>::empty(),
            r.conflict() is None,
    {
        let r = XrdsTrackAssetLocks { held: HashMap::new(), keys: Vec::new(), last_conflict: None };
        assert(r.held@ =~= Map::<u64, u64>::empty());
        r
    }

    /// Entities from `wanted` that some other agent already holds.
    pub fn conflicts(&self, wanted: &[Entity], me: Entity) -> (r: Vec<Entity>)
        ensures
            r@ == conflicting(self.held(), wanted@, me.0),
    {
        let mut r: Vec<Entity> = Vec::new();
        let mut i: usize = 0;
        while i < wanted.len()
            invariant
                i <= wanted.len(),
                r@ == conflicting(self.held(), wanted@.take(i as int), me.0),
            decreases wanted.len() - i,
        {
            assert(wanted@.take(i + 1).drop_last() =~= wanted@.take(i as int));
            let e = wanted[i];
            match self.held.get(&e.0) {
                Some(holder) => {
                    if *holder != me.0 {
                        r.push(e);
                    }
                },
                None => {},
            }
            i = i + 1;
        }
        assert(wanted@.take(wanted.len() as int) =~= wanted@);
        r
    }

    fn set_holder(&mut self, entity: u64, agent: u64)
        requires
            old(self).wf(),
        ensures
            final(self).wf(),
            final(self).held() == old(self).held().insert(entity, agent),
            final(self).conflict() == old(self).conflict(),
    {
        if !self.held.contains_key(&entity) {
            self.keys.push(entity);
            proof {
                assert(!old(self).keys@.contains(entity));
                crate::hierarchy::lemma_push_no_duplicates(old(self).keys@, entity);
                assert forall|k: u64| old(self).keys@.push(entity).contains(k) <==> (old(self).keys@.contains(k) || k == entity) by {
                    crate::hierarchy::lemma_push_contains(old(self).keys@, entity, k);
                }
            }
        }
        self.held.insert(entity, agent);
    }

    /// Let `agent` hold every entity of `wanted`.
    pub fn acquire(&mut self, wanted: &[Entity], agent: Entity)
        requires
            old(self).wf(),
        ensures
            final(self).wf(),
            forall|e: u64| #[trigger] final(self).held().contains_key(e) <==> (old(self).held().contains_key(e) || wanted@.contains(Entity(e))),
            forall|e: u64| #[trigger] final(self).held().contains_key(e) ==> final(self).held()[e] == (if wanted@.contains(Entity(e)) {
                agent.0
            } else {
                old(self).held()[e]
            }),
            final(self).conflict() == old(self).conflict(),
    {
        let ghost h0 = self.held();
        let mut i: usize = 0;
        while i < wanted.len()
            invariant
                i <= wanted.len(),
                self.wf(),
                self.conflict() == old(self).conflict(),
                forall|e: u64| #[trigger] self.held().contains_key(e) <==> (h0.contains_key(e) || wanted@.take(i as int).contains(Entity(e))),
                forall|e: u64| #[trigger] self.held().contains_key(e) ==> self.held()[e] == (if wanted@.take(i as int).contains(Entity(e)) {
                    agent.0
                } else {
                    h0[e]
                }),
            decreases wanted.len() - i,
        {
            let e = wanted[i];
            let ghost t0 = wanted@.take(i as int);
            assert(wanted@.take(i + 1) =~= t0.push(e));
            assert forall|x: Entity| #[trigger] t0.push(e).contains(x) <==> (t0.contains(x) || x == e) by {
                if t0.push(e).contains(x) {
                    let j = choose|j: int| 0 <= j < t0.push(e).len() && t0.push(e)[j] == x;
                    if j < t0.len() {
                        assert(t0[j] == x);
                    }
                }
                if t0.contains(x) {
                    let j = choose|j: int| 0 <= j < t0.len() && t0[j] == x;
                    assert(t0.push(e)[j] == x);
                }
                if x == e {
                    assert(t0.push(e)[t0.len() as int] == x);
                }
            }
            self.set_holder(e.0, agent.0);
            i = i + 1;
        }
        assert(wanted@.take(wanted.len() as int) =~= wanted@);
    }

    /// Drop every lock held by `agent`.
    pub fn release_agent(&mut self, agent: Entity)
        requires
            old(self).wf(),
        ensures
            final(self).wf(),
            forall|e: u64| #[trigger] final(self).held().contains_key(e) <==> (old(self).held().contains_key(e) && old(self).held()[e] != agent.0),
            forall|e: u64| #[trigger] final(self).held().contains_key(e) ==> final(self).held()[e] == old(self).held()[e],
            final(self).conflict() == old(self).conflict(),
    {
        let ghost h0 = self.held();
        let mut kept_keys: Vec<u64> = Vec::new();
        let mut kept: HashMap<u64, u64> = HashMap::new();
        let mut i: usize = 0;
        while i < self.keys.len()
            invariant
                i <= self.keys.len(),
                self.wf(),
                self.held() == h0,
                kept_keys@.no_duplicates(),
                forall|k: u64| #[trigger] kept@.contains_key(k) <==> kept_keys@.contains(k),
                forall|k: u64| #[trigger] kept@.contains_key(k) <==> (self.keys@.take(i as int).contains(k) && h0[k] != agent.0),
                forall|k: u64| #[trigger] kept@.contains_key(k) ==> kept@[k] == h0[k],
            decreases self.keys.len() - i,
        {
            let k = self.keys[i];
            let ghost t0 = self.keys@.take(i as int);
            assert(self.keys@.take(i + 1) =~= t0.push(k));
            assert forall|x: u64| #[trigger] t0.push(k).contains(x) <==> (t0.contains(x) || x == k) by {
                crate::hierarchy::lemma_push_contains(t0, k, x);
            }
            assert(self.keys@.contains(k)) by {
                assert(self.keys@[i as int] == k);
            }
            let holder = *self.held.get(&k).unwrap();
            if holder != agent.0 {
                assert(!kept_keys@.contains(k)) by {
                    if kept_keys@.contains(k) {
                        assert(kept@.contains_key(k));
                        assert(t0.contains(k));
                        let j = choose|j: int| 0 <= j < t0.len() && t0[j] == k;
                        assert(self.keys@[j] == self.keys@[i as int]);
                    }
                }
                proof {
                    crate::hierarchy::lemma_push_no_duplicates(kept_keys@, k);
                    assert forall|x: u64| kept_keys@.push(k).contains(x) <==> (kept_keys@.contains(x) || x == k) by {
                        crate::hierarchy::lemma_push_contains(kept_keys@, k, x);
                    }
                }
                kept_keys.push(k);
                kept.insert(k, holder);
            }
            i = i + 1;
        }
        assert(self.keys@.take(self.keys.len() as int) =~= self.keys@);
        self.held = kept;
        self.keys = kept_keys;
    }

    /// Every entity `agent` currently holds, each once.
    pub fn entities_held_by(&self, agent: Entity) -> (r: Vec<Entity>)
        requires
            self.wf(),
        ensures
            r@.no_duplicates(),
            forall|e: Entity| #[trigger] r@.contains(e) <==> (self.held().contains_key(e.0) && self.held()[e.0] == agent.0),
    {
        let mut r: Vec<Entity> = Vec::new();
        let mut i: usize = 0;
        while i < self.keys.len()
            invariant
                i <= self.keys.len(),
                self.wf(),
                r@.no_duplicates(),
                forall|e: Entity| #[trigger] r@.contains(e) <==> (self.keys@.take(i as int).contains(e.0) && self.held()[e.0] == agent.0),
            decreases self.keys.len() - i,
        {
            let k = self.keys[i];
            let ghost t0 = self.keys@.take(i as int);
            assert(self.keys@.take(i + 1) =~= t0.push(k));
            assert forall|x: u64| #[trigger] t0.push(k).contains(x) <==> (t0.contains(x) || x == k) by {
                crate::hierarchy::lemma_push_contains(t0, k, x);
            }
            assert(self.keys@.contains(k)) by {
                assert(self.keys@[i as int] == k);
            }
            let holder = *self.held.get(&k).unwrap();
            if holder == agent.0 {
                let ghost before = r@;
                assert(!before.contains(Entity(k))) by {
                    if before.contains(Entity(k)) {
                        assert(t0.contains(k));
                        let j = choose|j: int| 0 <= j < t0.len() && t0[j] == k;
                        assert(self.keys@[j] == self.keys@[i as int]);
                    }
                }
                r.push(Entity(k));
                assert forall|x: Entity| #[trigger] before.push(Entity(k)).contains(x) <==> (before.contains(x) || x == Entity(k)) by {
                    if before.push(Entity(k)).contains(x) {
                        let j = choose|j: int| 0 <= j < before.push(Entity(k)).len() && before.push(Entity(k))[j] == x;
                        if j < before.len() {
                            assert(before[j] == x);
                        }
                    }
                    if before.contains(x) {
                        let j = choose|j: int| 0 <= j < before.len() && before[j] == x;
                        assert(before.push(Entity(k))[j] == x);
                    }
                    if x == Entity(k) {
                        assert(before.push(Entity(k))[before.len() as int] == x);
                    }
                }
                assert forall|ii: int, jj: int| 0 <= ii < r@.len() && 0 <= jj < r@.len() && ii != jj implies r@[ii] != r@[jj] by {
                    if ii == before.len() {
                        assert(before.contains(r@[jj]));
                    } else if jj == before.len() {
                        assert(before.contains(r@[ii]));
                    }
                }
            }
            i = i + 1;
        }
        assert(self.keys@.take(self.keys.len() as int) =~= self.keys@);
        r
    }

    /// The agent holding `entity`, if any.
    pub fn holder_of(&self, entity: Entity) -> (r: Option<Entity>)
        ensures
            r == (if self.held().contains_key(entity.0) {
                Some(Entity(self.held()[entity.0]))
            } else {
                None
            }),
    {
        match self.held.get(&entity.0) {
            Some(a) => Some(Entity(*a)),
            None => None,
        }
    }

    /// Whether no entity is held.
    pub fn is_empty(&self) -> (r: bool)
        ensures
            r == (self.held().len() == 0),
    {
        self.held.is_empty()
    }
}

/// How a trigger event names an entity: by XRDS id, or directly.
#[derive(Clone, Copy, Debug, PartialEq, Eq, Structural)]
pub enum XrdsTriggerRef {
    Id(XrdsId),
    Entity(Entity),
}

impl XrdsTriggerRef {
    /// The live entity this names, going through the id index only for ids.
    pub fn resolve(self, index: &XrdsIdIndex) -> (r: Option<Entity>)
        ensures
            r == (match self {
                XrdsTriggerRef::Id(id) => if index.ids().contains_key(id.0) {
                    Some(Entity(index.ids()[id.0]))
                } else {
                    None
                },
                XrdsTriggerRef::Entity(e) => Some(e),
            }),
    {
        match self {
            XrdsTriggerRef::Id(id) => index.entity_of(id),
            XrdsTriggerRef::Entity(entity) => Some(entity),
        }
    }
}

/// Which entity an authored action row drives: the node the trigger fired on, the entity
/// that caused the firing, or a node named by XRDS id.
#[derive(Clone, Copy, Debug, PartialEq, Eq, Structural)]
pub enum XrdsActionTarget {
    SelfNode,
    TriggerSource,
    Node(XrdsId),
}

/// The entity an action row drives, once a firing supplies its own node `self_entity` and
/// its cause `source`; a named node resolves through the id index, when there is one.
pub fn resolve_action_target(
    selector: &XrdsActionTarget,
    self_entity: Entity,
    source: Option<Entity>,
    id_index: Option<&XrdsIdIndex>,
) -> (r: Option<Entity>)
    ensures
        r == (match *selector {
            XrdsActionTarget::SelfNode => Some(self_entity),
            XrdsActionTarget::TriggerSource => source,
            XrdsActionTarget::Node(id) => match id_index {
                Some(index) => if index.ids().contains_key(id.0) { Some(Entity(index.ids()[id.0])) } else { None },
                None => None,
            },
        }),
{
    match selector {
        XrdsActionTarget::SelfNode => Some(self_entity),
        XrdsActionTarget::TriggerSource => source,
        XrdsActionTarget::Node(id) => match id_index {
            Some(index) => index.entity_of(*id),
            None => None,
        },
    }
}

} // verus!
