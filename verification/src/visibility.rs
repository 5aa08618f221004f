//! The order in which entities of the parent hierarchy get their missing visibility
//! components: every entity that a parent link names and that lacks one, ancestors before
//! descendants.
//!
//! The engine side lists the parent links as `(child, parent)` pairs of raw entity numbers,
//! in query order, and the entities among them that exist and lack a visibility or global
//! transform component; it inserts the components in the order decided here.
use vstd::prelude::*;

verus! {

/// The entities that `pairs` names, each pair's child before its parent, in order of first
/// mention.
pub open spec fn mentioned(pairs: Seq<(u64, u64)>) -> Seq<u64>
    decreases pairs.len(),
{
    if pairs.len() == 0 {
        Seq::empty()
    } else {
        let before = mentioned(pairs.drop_last());
        let (child, parent) = pairs.last();
        let with_child = if before.contains(child) { before } else { before.push(child) };
        if with_child.contains(parent) { with_child } else { with_child.push(parent) }
    }
}

/// Whether an entity is listed in `lacking`.
pub open spec fn listed_in(lacking: Seq<u64>) -> spec_fn(u64) -> bool {
    |e: u64| lacking.contains(e)
}

/// The entities named by `pairs` that lack a component, in order of first mention.
pub open spec fn needing_fix(pairs: Seq<(u64, u64)>, lacking: Seq<u64>) -> Seq<u64> {
    mentioned(pairs).filter(listed_in(lacking))
}

/// The parent that `pairs` gives `child`: that of its last pair, as a map built from the
/// pairs in order keeps.
pub open spec fn parent_in(pairs: Seq<(u64, u64)>, child: u64) -> Option<u64>
    decreases pairs.len(),
{
    if pairs.len() == 0 {
        None
    } else if pairs.last().0 == child {
        Some(pairs.last().1)
    } else {
        parent_in(pairs.drop_last(), child)
    }
}

/// How many of the ancestors of `cur` are in `needing`, walking up through `parent_in` for at
/// most `steps` steps and stopping at the root or at an ancestor already met (`visited`),
/// which guards against cycles.
pub open spec fn needing_ancestors(pairs: Seq<(u64, u64)>, needing: Seq<u64>, cur: u64, visited: Seq<u64>, steps: nat) -> nat
    decreases steps,
{
    if steps == 0 {
        0
    } else {
        match parent_in(pairs, cur) {
            None => 0,
            Some(p) => if visited.contains(p) {
                0
            } else {
                (if needing.contains(p) { 1nat } else { 0nat }) + needing_ancestors(pairs, needing, p, visited.push(p), (steps - 1) as nat)
            },
        }
    }
}

/// The sort key of `e`: its ancestors that need a fix. The walk is given one step more than
/// there are pairs, enough to reach the root or meet an ancestor again.
pub open spec fn fix_depth(pairs: Seq<(u64, u64)>, needing: Seq<u64>, e: u64) -> nat {
    needing_ancestors(pairs, needing, e, Seq::empty(), pairs.len() + 1)
}

/// Whether an entity's sort key, its depth among `needing`, is `k`.
pub open spec fn at_depth(pairs: Seq<(u64, u64)>, needing: Seq<u64>, k: nat) -> spec_fn(u64) -> bool {
    |e: u64| fix_depth(pairs, needing, e) == k
}

/// The entries of `needing` whose depth is `k`, in order.
pub open spec fn with_depth(pairs: Seq<(u64, u64)>, needing: Seq<u64>, items: Seq<u64>, k: nat) -> Seq<u64> {
    items.filter(at_depth(pairs, needing, k))
}

/// `needing` sorted stably by depth, for depths below `bound`: those of depth 0 in order,
/// then those of depth 1, and so on.
pub open spec fn stable_by_depth(pairs: Seq<(u64, u64)>, needing: Seq<u64>, bound: nat) -> Seq<u64>
    decreases bound,
{
    if bound == 0 {
        Seq::empty()
    } else {
        stable_by_depth(pairs, needing, (bound - 1) as nat) + with_depth(pairs, needing, needing, (bound - 1) as nat)
    }
}

/// The order in which to fix the entities of the parent hierarchy: those that `pairs`
/// names and `lacking` lists, in order of first mention, sorted stably by how many of
/// their ancestors need a fix too.
pub open spec fn fix_order(pairs: Seq<(u64, u64)>, lacking: Seq<u64>) -> Seq<u64> {
    stable_by_depth(pairs, needing_fix(pairs, lacking), pairs.len() + 2)
}

/// Each entry of the order for depths below `bound` has a depth below `bound`, and the
/// depths never decrease along the order.
proof fn lemma_stable_by_depth_sorted(pairs: Seq<(u64, u64)>, needing: Seq<u64>, bound: nat)
    ensures
        forall|i: int| 0 <= i < stable_by_depth(pairs, needing, bound).len()
            ==> fix_depth(pairs, needing, #[trigger] stable_by_depth(pairs, needing, bound)[i]) < bound,
        forall|i: int, j: int| 0 <= i < j < stable_by_depth(pairs, needing, bound).len()
            ==> fix_depth(pairs, needing, #[trigger] stable_by_depth(pairs, needing, bound)[i])
                <= fix_depth(pairs, needing, #[trigger] stable_by_depth(pairs, needing, bound)[j]),
    decreases bound,
{
    if bound > 0 {
        let k = (bound - 1) as nat;
        lemma_stable_by_depth_sorted(pairs, needing, k);
        let a = stable_by_depth(pairs, needing, k);
        let w = with_depth(pairs, needing, needing, k);
        broadcast use vstd::seq_lib::group_filter_ensures;
        assert forall|i: int| 0 <= i < w.len() implies fix_depth(pairs, needing, #[trigger] w[i]) == k by {
            assert(at_depth(pairs, needing, k)(w[i]));
        }
        let s = stable_by_depth(pairs, needing, bound);
        assert(s == a + w);
        assert forall|i: int| 0 <= i < s.len() implies fix_depth(pairs, needing, #[trigger] s[i]) < bound by {
            if i < a.len() {
                assert(s[i] == a[i]);
            } else {
                assert(s[i] == w[i - a.len()]);
            }
        }
        assert forall|i: int, j: int| 0 <= i < j < s.len() implies
            fix_depth(pairs, needing, #[trigger] s[i]) <= fix_depth(pairs, needing, #[trigger] s[j]) by {
            if j < a.len() {
                assert(s[i] == a[i] && s[j] == a[j]);
            } else if i < a.len() {
                assert(s[i] == a[i] && s[j] == w[j - a.len()]);
            } else {
                assert(s[i] == w[i - a.len()] && s[j] == w[j - a.len()]);
            }
        }
    }
}

/// The fix order puts entities with fewer lacking ancestors first: along the order the
/// number of an entity's ancestors that lack a component never decreases, so an entity
/// comes after every entity with fewer such ancestors, ancestors before their descendants.
pub proof fn law_fix_order_is_sorted_by_depth(pairs: Seq<(u64, u64)>, lacking: Seq<u64>)
    ensures
        forall|i: int, j: int| 0 <= i < j < fix_order(pairs, lacking).len()
            ==> fix_depth(pairs, needing_fix(pairs, lacking), #[trigger] fix_order(pairs, lacking)[i])
                <= fix_depth(pairs, needing_fix(pairs, lacking), #[trigger] fix_order(pairs, lacking)[j]),
{
    lemma_stable_by_depth_sorted(pairs, needing_fix(pairs, lacking), pairs.len() + 2);
}

proof fn lemma_needing_ancestors_bound(pairs: Seq<(u64, u64)>, needing: Seq<u64>, cur: u64, visited: Seq<u64>, steps: nat)
    ensures
        needing_ancestors(pairs, needing, cur, visited, steps) <= steps,
    decreases steps,
{
    if steps > 0 {
        if let Some(p) = parent_in(pairs, cur) {
            if !visited.contains(p) {
                lemma_needing_ancestors_bound(pairs, needing, p, visited.push(p), (steps - 1) as nat);
            }
        }
    }
}

fn seq_has(v: &Vec<u64>, x: u64) -> (r: bool)
    ensures
        r == v@.contains(x),
{
    let mut i: usize = 0;
    while i < v.len()
        invariant
            i <= v.len(),
            forall|j: int| 0 <= j < i ==> v@[j] != x,
        decreases v.len() - i,
    {
        if v[i] == x {
            assert(v@[i as int] == x);
            return true;
        }
        i = i + 1;
    }
    false
}

fn parent_of(pairs: &Vec<(u64, u64)>, child: u64) -> (r: Option<u64>)
    ensures
        r == parent_in(pairs@, child),
{
    let mut i: usize = pairs.len();
    assert(pairs@.take(i as int) =~= pairs@);
    while i > 0
        invariant
            i <= pairs.len(),
            parent_in(pairs@, child) == parent_in(pairs@.take(i as int), child),
        decreases i,
    {
        let (c, p) = pairs[i - 1];
        assert(pairs@.take(i as int).drop_last() =~= pairs@.take(i - 1));
        if c == child {
            return Some(p);
        }
        i = i - 1;
    }
    None
}

fn mentioned_in(pairs: &Vec<(u64, u64)>) -> (r: Vec<u64>)
    ensures
        r@ == mentioned(pairs@),
{
    let mut seen: Vec<u64> = Vec::new();
    let mut i: usize = 0;
    while i < pairs.len()
        invariant
            i <= pairs.len(),
            seen@ == mentioned(pairs@.take(i as int)),
        decreases pairs.len() - i,
    {
        let (c, p) = pairs[i];
        assert(pairs@.take(i + 1).drop_last() =~= pairs@.take(i as int));
        if !seq_has(&seen, c) {
            seen.push(c);
        }
        if !seq_has(&seen, p) {
            seen.push(p);
        }
        i = i + 1;
    }
    assert(pairs@.take(pairs.len() as int) =~= pairs@);
    seen
}

fn depth_of(pairs: &Vec<(u64, u64)>, needing: &Vec<u64>, e: u64) -> (k: usize)
    requires
        pairs@.len() < usize::MAX,
    ensures
        k == fix_depth(pairs@, needing@, e),
{
    let mut visited: Vec<u64> = Vec::new();
    let mut cur = e;
    let mut steps: usize = pairs.len() + 1;
    let mut count: usize = 0;
    proof {
        lemma_needing_ancestors_bound(pairs@, needing@, e, Seq::empty(), (pairs@.len() + 1) as nat);
    }
    loop
        invariant
            pairs@.len() < usize::MAX,
            steps <= pairs@.len() + 1,
            count + steps <= pairs@.len() + 1,
            count + needing_ancestors(pairs@, needing@, cur, visited@, steps as nat) == fix_depth(pairs@, needing@, e),
        decreases steps,
    {
        if steps == 0 {
            return count;
        }
        match parent_of(pairs, cur) {
            None => {
                return count;
            },
            Some(p) => {
                if seq_has(&visited, p) {
                    return count;
                }
                if seq_has(needing, p) {
                    count = count + 1;
                }
                visited.push(p);
                cur = p;
                steps = steps - 1;
            },
        }
    }
}

/// The order in which to insert the missing visibility components: the entities that the
/// `(child, parent)` pairs name (child first, each once, in order of first mention) and
/// that `lacking` lists, sorted stably by how many of their ancestors are among them, so
/// that ancestors come before their descendants.
pub fn visibility_fix_order(pairs: &Vec<(u64, u64)>, lacking: &Vec<u64>) -> (order: Vec<u64>)
    requires
        pairs@.len() + 2 < usize::MAX,
    ensures
        order@ == fix_order(pairs@, lacking@),
        forall|e: u64| #[trigger] needing_fix(pairs@, lacking@).contains(e)
            ==> fix_depth(pairs@, needing_fix(pairs@, lacking@), e) < pairs@.len() + 2,
{
    let all = mentioned_in(pairs);
    let mut needing: Vec<u64> = Vec::new();
    let mut i: usize = 0;
    while i < all.len()
        invariant
            i <= all.len(),
            needing@ == all@.take(i as int).filter(listed_in(lacking@)),
        decreases all.len() - i,
    {
        let e = all[i];
        assert(all@.take(i + 1).drop_last() =~= all@.take(i as int));
        assert(all@.take(i + 1).last() == e);
        proof {
            reveal(Seq::filter);
        }
        if seq_has(lacking, e) {
            needing.push(e);
        }
        i = i + 1;
    }
    assert(all@.take(all.len() as int) =~= all@);
    let ghost nd = needing@;
    let mut depths: Vec<usize> = Vec::new();
    let mut j: usize = 0;
    while j < needing.len()
        invariant
            j <= needing.len(),
            needing@ == nd,
            pairs@.len() + 2 < usize::MAX,
            depths@.len() == j,
            forall|m: int| 0 <= m < j ==> depths@[m] == fix_depth(pairs@, nd, nd[m]),
        decreases needing.len() - j,
    {
        let d = depth_of(pairs, &needing, needing[j]);
        assert(d == fix_depth(pairs@, nd, nd[j as int]));
        depths.push(d);
        j = j + 1;
    }
    let mut order: Vec<u64> = Vec::new();
    let bound: usize = pairs.len() + 2;
    let mut k: usize = 0;
    while k < bound
        invariant
            k <= bound,
            bound == pairs@.len() + 2,
            needing@ == nd,
            depths@.len() == nd.len(),
            forall|m: int| 0 <= m < nd.len() ==> depths@[m] == fix_depth(pairs@, nd, nd[m]),
            order@ == stable_by_depth(pairs@, nd, k as nat),
        decreases bound - k,
    {
        let ghost before = order@;
        let mut m: usize = 0;
        while m < needing.len()
            invariant
                m <= needing.len(),
                k < bound,
                needing@ == nd,
                depths@.len() == nd.len(),
                forall|x: int| 0 <= x < nd.len() ==> depths@[x] == fix_depth(pairs@, nd, nd[x]),
                order@ == before + with_depth(pairs@, nd, nd.take(m as int), k as nat),
            decreases needing.len() - m,
        {
            assert(nd.take(m + 1).drop_last() =~= nd.take(m as int));
            assert(nd.take(m + 1).last() == nd[m as int]);
            proof {
                reveal(Seq::filter);
            }
            assert(depths@[m as int] == fix_depth(pairs@, nd, nd[m as int]));
            if depths[m] == k {
                order.push(needing[m]);
                assert(order@ =~= before + with_depth(pairs@, nd, nd.take(m + 1), k as nat));
            } else {
                assert(order@ =~= before + with_depth(pairs@, nd, nd.take(m + 1), k as nat));
            }
            m = m + 1;
        }
        assert(nd.take(nd.len() as int) =~= nd);
        assert(stable_by_depth(pairs@, nd, (k + 1) as nat) == stable_by_depth(pairs@, nd, k as nat) + with_depth(pairs@, nd, nd, k as nat));
        k = k + 1;
    }
    proof {
        assert forall|e: u64| #[trigger] nd.contains(e) implies fix_depth(pairs@, nd, e) < pairs@.len() + 2 by {
            lemma_needing_ancestors_bound(pairs@, nd, e, Seq::empty(), (pairs@.len() + 1) as nat);
        }
    }
    order
}

} // verus!
