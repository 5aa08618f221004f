//! The authored parent/child structure between XRDS ids.
use std::collections::HashMap;
use vstd::prelude::*;
use crate::ids::XrdsId;

verus! {

broadcast use vstd::std_specs::hash::group_hash_axioms;

/// The parent recorded for `x`, or `None` when `x` has no entry or no parent.
pub open spec fn parent_step(m: Map<u64, Option<u64>>, x: u64) -> Option<u64> {
    if m.contains_key(x) {
        m[x]
    } else {
        None
    }
}

/// The node reached from `start` after following `k` parent links, if the chain is that long.
pub open spec fn walk(m: Map<u64, Option<u64>>, start: u64, k: nat) -> Option<u64>
    decreases k,
{
    if k == 0 {
        Some(start)
    } else {
        match walk(m, start, (k - 1) as nat) {
            Some(x) => parent_step(m, x),
            None => None,
        }
    }
}

/// No node is its own proper ancestor.
pub open spec fn acyclic(m: Map<u64, Option<u64>>) -> bool {
    forall|x: u64, k: nat| k >= 1 ==> #[trigger] walk(m, x, k) != Some(x)
}

/// `anc` is reached from `x` by following parent links (zero or more).
pub open spec fn is_ancestor_or_self(m: Map<u64, Option<u64>>, anc: u64, x: u64) -> bool {
    exists|k: nat| #[trigger] walk(m, x, k) == Some(anc)
}

/// `s` with every occurrence of `c` removed, order kept.
pub open spec fn seq_without(s: Seq<u64>, c: u64) -> Seq<u64>
    decreases s.len(),
{
    if s.len() == 0 {
        s
    } else {
        let r = seq_without(s.drop_last(), c);
        if s.last() == c {
            r
        } else {
            r.push(s.last())
        }
    }
}

pub proof fn lemma_seq_without(s: Seq<u64>, c: u64)
    ensures
        forall|x: u64| #[trigger] seq_without(s, c).contains(x) <==> (s.contains(x) && x != c),
        s.no_duplicates() ==> seq_without(s, c).no_duplicates(),
        seq_without(s, c).len() <= s.len(),
    decreases s.len(),
{
    if s.len() > 0 {
        lemma_seq_without(s.drop_last(), c);
        let r = seq_without(s.drop_last(), c);
        assert forall|x: u64| #[trigger] seq_without(s, c).contains(x) <==> (s.contains(x) && x
            != c) by {
            if s.contains(x) && x != c {
                let i = choose|i: int| 0 <= i < s.len() && s[i] == x;
                if i < s.len() - 1 {
                    assert(s.drop_last()[i] == x);
                    assert(s.drop_last().contains(x));
                    assert(r.contains(x));
                    let j = choose|j: int| 0 <= j < r.len() && r[j] == x;
                    if s.last() != c {
                        assert(r.push(s.last())[j] == x);
                    }
                } else {
                    assert(s.last() == x);
                    assert(r.push(s.last())[r.len() as int] == x);
                }
            }
            if seq_without(s, c).contains(x) {
                if s.last() != c && x == s.last() {
                    assert(s[s.len() - 1] == x);
                } else {
                    if s.last() != c {
                        let j = choose|j: int| 0 <= j < r.push(s.last()).len() && r.push(s.last())[j] == x;
                        assert(j < r.len());
                        assert(r[j] == x);
                    }
                    assert(r.contains(x));
                    let j = choose|j: int| 0 <= j < s.drop_last().len() && s.drop_last()[j] == x;
                    assert(s[j] == x);
                }
            }
        }
        if s.no_duplicates() {
            assert(s.drop_last().no_duplicates()) by {
                assert forall|i: int, j: int|
                    0 <= i < s.drop_last().len() && 0 <= j < s.drop_last().len() && i != j
                    implies s.drop_last()[i] != s.drop_last()[j] by {
                    assert(s[i] == s.drop_last()[i]);
                    assert(s[j] == s.drop_last()[j]);
                }
            }
            if s.last() != c {
                assert(!r.contains(s.last())) by {
                    if r.contains(s.last()) {
                        assert(s.drop_last().contains(s.last()));
                        let j = choose|j: int|
                            0 <= j < s.drop_last().len() && s.drop_last()[j] == s.last();
                        assert(s[j] == s[s.len() - 1]);
                    }
                }
                assert forall|i: int, j: int|
                    0 <= i < r.push(s.last()).len() && 0 <= j < r.push(s.last()).len() && i != j
                    implies r.push(s.last())[i] != r.push(s.last())[j] by {
                    if i < r.len() && j < r.len() {
                    } else if i == r.len() {
                        assert(r.contains(r[j]));
                    } else {
                        assert(r.contains(r[i]));
                    }
                }
            }
        }
    }
}

/// The hierarchy is well formed: both maps cover the same nodes, every recorded parent lists
/// its child exactly once, and every listed child names that parent.
pub open spec fn hierarchy_wf(p: Map<u64, Option<u64>>, ch: Map<u64, Seq<u64>>) -> bool {
    &&& p.dom() == ch.dom()
    &&& forall|c: u64|
        #![trigger p[c]]
        p.contains_key(c) && p[c] is Some ==> p.contains_key(p[c]->0) && ch[p[c]->0].contains(c)
    &&& forall|x: u64, c: u64|
        #![trigger ch[x].contains(c)]
        ch.contains_key(x) && ch[x].contains(c) ==> p.contains_key(c) && p[c] == Some(x)
    &&& forall|x: u64| #![trigger ch[x]] ch.contains_key(x) ==> ch[x].no_duplicates()
}

/// Parent map after `set_parent(child, parent)`.
pub open spec fn set_parent_parents(
    p: Map<u64, Option<u64>>,
    child: u64,
    parent: Option<u64>,
) -> Map<u64, Option<u64>> {
    let p1 = p.insert(child, parent);
    match parent {
        Some(q) => if p1.contains_key(q) {
            p1
        } else {
            p1.insert(q, None)
        },
        None => p1,
    }
}

/// Children map after `set_parent(child, parent)`.
pub open spec fn set_parent_children(
    p: Map<u64, Option<u64>>,
    ch: Map<u64, Seq<u64>>,
    child: u64,
    parent: Option<u64>,
) -> Map<u64, Seq<u64>> {
    let ch0 = if ch.contains_key(child) {
        ch
    } else {
        ch.insert(child, Seq::empty())
    };
    let prev = parent_step(p, child);
    let ch1 = match prev {
        Some(o) => if Some(o) != parent && ch0.contains_key(o) {
            ch0.insert(o, seq_without(ch0[o], child))
        } else {
            ch0
        },
        None => ch0,
    };
    match parent {
        Some(q) => {
            let ch2 = if ch1.contains_key(q) {
                ch1
            } else {
                ch1.insert(q, Seq::empty())
            };
            if ch2[q].contains(child) {
                ch2
            } else {
                ch2.insert(q, ch2[q].push(child))
            }
        },
        None => ch1,
    }
}


/// What a pushed sequence contains.
pub proof fn lemma_push_contains<A>(s: Seq<A>, a: A, x: A)
    ensures
        s.push(a).contains(x) <==> (s.contains(x) || x == a),
{
    if s.push(a).contains(x) {
        let j = choose|j: int| 0 <= j < s.push(a).len() && s.push(a)[j] == x;
        if j < s.len() {
            assert(s[j] == x);
        }
    }
    if s.contains(x) {
        let j = choose|j: int| 0 <= j < s.len() && s[j] == x;
        assert(s.push(a)[j] == x);
    }
    if x == a {
        assert(s.push(a)[s.len() as int] == x);
    }
}

/// Pushing a new element keeps a sequence free of duplicates.
pub proof fn lemma_push_no_duplicates<A>(s: Seq<A>, a: A)
    requires
        s.no_duplicates(),
        !s.contains(a),
    ensures
        s.push(a).no_duplicates(),
{
    assert forall|i: int, j: int|
        0 <= i < s.push(a).len() && 0 <= j < s.push(a).len() && i != j implies s.push(a)[i]
        != s.push(a)[j] by {
        if i < s.len() && j < s.len() {
        } else if i == s.len() {
            assert(s.contains(s[j]));
        } else {
            assert(s.contains(s[i]));
        }
    }
}

/// `set_parent` keeps the hierarchy well formed.
pub proof fn lemma_set_parent_wf(
    p: Map<u64, Option<u64>>,
    ch: Map<u64, Seq<u64>>,
    child: u64,
    parent: Option<u64>,
)
    requires
        hierarchy_wf(p, ch),
    ensures
        hierarchy_wf(
            set_parent_parents(p, child, parent),
            set_parent_children(p, ch, child, parent),
        ),
{
    let pp = set_parent_parents(p, child, parent);
    let cc = set_parent_children(p, ch, child, parent);
    let ch0 = if ch.contains_key(child) {
        ch
    } else {
        ch.insert(child, Seq::empty())
    };
    let prev = parent_step(p, child);
    let ch1 = match prev {
        Some(o) => if Some(o) != parent && ch0.contains_key(o) {
            ch0.insert(o, seq_without(ch0[o], child))
        } else {
            ch0
        },
        None => ch0,
    };
    assert(pp.dom() =~= cc.dom());
    // Every list of cc is a list of ch, possibly with `child` removed or appended.
    assert forall|x: u64, c: u64| cc.contains_key(x) && cc[x].contains(c) && c != child implies ch.contains_key(x) && ch[x].contains(c) by {
        if ch1.contains_key(x) && ch1[x].contains(c) {
            match prev {
                Some(o) => {
                    if Some(o) != parent && ch0.contains_key(o) && x == o {
                        lemma_seq_without(ch0[o], child);
                    }
                },
                None => {},
            }
            if !ch.contains_key(child) && x == child {
                assert(ch0[x] == Seq::<u64>::empty());
            }
        } else {
            let q = parent->0;
            let ch2 = if ch1.contains_key(q) {
                ch1
            } else {
                ch1.insert(q, Seq::empty())
            };
            if !ch2[q].contains(child) {
                lemma_push_contains(ch2[q], child, c);
            }
            if !ch1.contains_key(q) {
                assert(ch2[q] == Seq::<u64>::empty());
            }
        }
    }
    assert forall|c: u64| pp.contains_key(c) && pp[c] is Some implies pp.contains_key(pp[c]->0) && cc[pp[c]->0].contains(c) by {
        if c == child {
            let q = parent->0;
            let ch2 = if ch1.contains_key(q) {
                ch1
            } else {
                ch1.insert(q, Seq::empty())
            };
            if !ch2[q].contains(child) {
                lemma_push_contains(ch2[q], child, child);
            }
        } else {
            let y = pp[c]->0;
            assert(p.contains_key(c) && p[c] == Some(y));
            assert(ch[y].contains(c));
            let chy0 = ch0[y];
            assert(chy0.contains(c));
            let chy1 = ch1[y];
            match prev {
                Some(o) => {
                    if Some(o) != parent && ch0.contains_key(o) && y == o {
                        lemma_seq_without(ch0[o], child);
                    }
                },
                None => {},
            }
            assert(chy1.contains(c));
            match parent {
                Some(q) => {
                    let ch2 = if ch1.contains_key(q) {
                        ch1
                    } else {
                        ch1.insert(q, Seq::empty())
                    };
                    if y == q && !ch2[q].contains(child) {
                        lemma_push_contains(ch2[q], child, c);
                    }
                },
                None => {},
            }
        }
    }
    assert forall|x: u64, c: u64| cc.contains_key(x) && cc[x].contains(c) implies pp.contains_key(c) && pp[c] == Some(x) by {
        if c != child {
            assert(ch.contains_key(x) && ch[x].contains(c));
        } else {
            if parent == Some(x) {
            } else {
                // `child` can only be listed under its new parent.
                if ch1.contains_key(x) && ch1[x].contains(c) {
                    match prev {
                        Some(o) => {
                            if x == o && Some(o) != parent && ch0.contains_key(o) {
                                lemma_seq_without(ch0[o], child);
                            } else {
                                if ch.contains_key(x) {
                                    assert(ch0[x] == ch[x]);
                                    assert(p[child] == Some(x));
                                } else {
                                    assert(ch0[x] == Seq::<u64>::empty());
                                }
                            }
                        },
                        None => {
                            if ch.contains_key(x) {
                                assert(ch0[x] == ch[x]);
                                assert(p[child] == Some(x));
                            } else {
                                assert(ch0[x] == Seq::<u64>::empty());
                            }
                        },
                    }
                } else {
                    let q = parent->0;
                    assert(x == q);
                }
            }
        }
    }
    assert forall|x: u64| cc.contains_key(x) implies cc[x].no_duplicates() by {
        if ch.contains_key(x) {
            assert(ch[x].no_duplicates());
        }
        if ch0.contains_key(x) {
            assert(ch0[x].no_duplicates()) by {
                if !ch.contains_key(child) && x == child {
                    assert(ch0[x] == Seq::<u64>::empty());
                }
            }
        }
        if ch1.contains_key(x) {
            match prev {
                Some(o) => {
                    if Some(o) != parent && ch0.contains_key(o) && x == o {
                        lemma_seq_without(ch0[o], child);
                    }
                },
                None => {},
            }
            assert(ch1[x].no_duplicates());
        }
        match parent {
            Some(q) => {
                let ch2 = if ch1.contains_key(q) {
                    ch1
                } else {
                    ch1.insert(q, Seq::empty())
                };
                assert(ch2[q].no_duplicates()) by {
                    if !ch1.contains_key(q) {
                        assert(ch2[q] == Seq::<u64>::empty());
                    }
                }
                if x == q && !ch2[q].contains(child) {
                    lemma_push_no_duplicates(ch2[q], child);
                }
            },
            None => {},
        }
    }
}


/// `m` with every node of `s` detached to the root.
pub open spec fn clear_parents(m: Map<u64, Option<u64>>, s: Seq<u64>) -> Map<u64, Option<u64>>
    decreases s.len(),
{
    if s.len() == 0 {
        m
    } else {
        clear_parents(m, s.drop_last()).insert(s.last(), None)
    }
}

pub proof fn lemma_clear_parents(m: Map<u64, Option<u64>>, s: Seq<u64>)
    ensures
        forall|x: u64| #[trigger] clear_parents(m, s).contains_key(x) <==> (m.contains_key(x) || s.contains(x)),
        forall|x: u64| #[trigger] clear_parents(m, s).contains_key(x) ==> clear_parents(m, s)[x] == (if s.contains(x) {
            None
        } else {
            m[x]
        }),
    decreases s.len(),
{
    if s.len() > 0 {
        lemma_clear_parents(m, s.drop_last());
        assert(s =~= s.drop_last().push(s.last()));
        assert forall|x: u64| s.contains(x) <==> (s.drop_last().contains(x) || x == s.last()) by {
            lemma_push_contains(s.drop_last(), s.last(), x);
        }
    }
}

/// Children map after removing `id`: it leaves its parent's list, and its own list goes.
pub open spec fn remove_node_children(
    p: Map<u64, Option<u64>>,
    ch: Map<u64, Seq<u64>>,
    id: u64,
) -> Map<u64, Seq<u64>> {
    match parent_step(p, id) {
        Some(q) => if ch.contains_key(q) {
            ch.insert(q, seq_without(ch[q], id))
        } else {
            ch
        },
        None => ch,
    }
}

/// The children that `remove_node(id)` detaches.
pub open spec fn removed_children(
    p: Map<u64, Option<u64>>,
    ch: Map<u64, Seq<u64>>,
    id: u64,
) -> Seq<u64> {
    let ch1 = remove_node_children(p, ch, id);
    if ch1.contains_key(id) {
        ch1[id]
    } else {
        Seq::empty()
    }
}

/// `remove_node` keeps the hierarchy well formed.
pub proof fn lemma_remove_node_wf(p: Map<u64, Option<u64>>, ch: Map<u64, Seq<u64>>, id: u64)
    requires
        hierarchy_wf(p, ch),
    ensures
        hierarchy_wf(
            clear_parents(p.remove(id), removed_children(p, ch, id)),
            remove_node_children(p, ch, id).remove(id),
        ),
        clear_parents(p.remove(id), removed_children(p, ch, id)).dom() == p.dom().remove(id),
{
    let ch1 = remove_node_children(p, ch, id);
    let kids = removed_children(p, ch, id);
    let pp = clear_parents(p.remove(id), kids);
    let cc = ch1.remove(id);
    lemma_clear_parents(p.remove(id), kids);
    // ch1 lists are ch lists with possibly `id` removed.
    assert forall|x: u64, c: u64| ch1.contains_key(x) && ch1[x].contains(c) implies ch.contains_key(x) && ch[x].contains(c) && c != id by {
        match parent_step(p, id) {
            Some(q) => {
                if x == q && ch.contains_key(q) {
                    lemma_seq_without(ch[q], id);
                } else if c == id {
                    assert(p[id] == Some(x));
                }
            },
            None => {
                if c == id {
                    assert(p[id] == Some(x));
                }
            },
        }
    }
    assert forall|x: u64| kids.contains(x) implies p.contains_key(x) && x != id && p[x] == Some(id) by {
        assert(ch1.contains_key(id) && ch1[id].contains(x));
    }
    assert(pp.dom() =~= p.dom().remove(id));
    assert(pp.dom() =~= cc.dom());
    assert forall|c: u64| pp.contains_key(c) && pp[c] is Some implies pp.contains_key(pp[c]->0) && cc[pp[c]->0].contains(c) by {
        let y = pp[c]->0;
        assert(!kids.contains(c));
        assert(p[c] == Some(y));
        assert(ch[y].contains(c));
        if y == id {
            if ch1.contains_key(id) {
                match parent_step(p, id) {
                    Some(q) => {
                        if q == id {
                            lemma_seq_without(ch[q], id);
                        }
                    },
                    None => {},
                }
            }
            assert(kids.contains(c));
        }
        match parent_step(p, id) {
            Some(q) => {
                if y == q {
                    lemma_seq_without(ch[q], id);
                }
            },
            None => {},
        }
        assert(ch1[y].contains(c));
    }
    assert forall|x: u64, c: u64| cc.contains_key(x) && cc[x].contains(c) implies pp.contains_key(c) && pp[c] == Some(x) by {
        assert(ch1[x].contains(c));
        assert(ch[x].contains(c) && c != id);
        assert(p[c] == Some(x));
        if kids.contains(c) {
            assert(p[c] == Some(id));
        }
    }
    assert forall|x: u64| cc.contains_key(x) implies cc[x].no_duplicates() by {
        match parent_step(p, id) {
            Some(q) => {
                if x == q && ch.contains_key(q) {
                    lemma_seq_without(ch[q], id);
                }
            },
            None => {},
        }
    }
}

/// Following `a` links and then `b` more is following `a + b` links.
pub proof fn lemma_walk_compose(m: Map<u64, Option<u64>>, x: u64, a: nat, b: nat)
    ensures
        walk(m, x, a + b) == (match walk(m, x, a) {
            Some(y) => walk(m, y, b),
            None => None,
        }),
    decreases b,
{
    if b > 0 {
        lemma_walk_compose(m, x, a, (b - 1) as nat);
        assert((a + b - 1) as nat == a + (b - 1) as nat);
    }
}

/// A chain that is still going after `k` links was going at every earlier point.
pub proof fn lemma_walk_prefix(m: Map<u64, Option<u64>>, x: u64, k: nat, j: nat)
    requires
        walk(m, x, k) is Some,
        j <= k,
    ensures
        walk(m, x, j) is Some,
    decreases k,
{
    if j < k {
        lemma_walk_prefix(m, x, (k - 1) as nat, j);
    }
}

/// What the cycle test answers for attaching `child` under `candidate` in `m`: the chain of
/// ancestors of `candidate` meets `child` within `|m|` links, or is still going after them.
pub open spec fn cycle_check(m: Map<u64, Option<u64>>, child: u64, candidate: u64) -> bool {
    ||| exists|s: nat| s <= m.len() && #[trigger] walk(m, candidate, s) == Some(child)
    ||| walk(m, candidate, m.len()) is Some
}

/// Two maps that agree on every link along a chain give the same chain.
pub proof fn lemma_walk_agree(
    m1: Map<u64, Option<u64>>,
    m2: Map<u64, Option<u64>>,
    x: u64,
    k: nat,
)
    requires
        walk(m1, x, k) is Some,
        forall|y: u64| #[trigger] parent_step(m1, y) is Some ==> parent_step(m1, y) == parent_step(m2, y),
    ensures
        forall|j: nat| j <= k ==> #[trigger] walk(m1, x, j) == walk(m2, x, j),
    decreases k,
{
    if k > 0 {
        lemma_walk_prefix(m1, x, k, (k - 1) as nat);
        lemma_walk_agree(m1, m2, x, (k - 1) as nat);
        assert forall|j: nat| j <= k implies #[trigger] walk(m1, x, j) == walk(m2, x, j) by {
            if j == k {
                let y = walk(m1, x, (k - 1) as nat)->0;
                assert(walk(m2, x, (k - 1) as nat) == Some(y));
            }
        }
    }
}

/// Re-linking nodes keeps a forest a forest, provided every link that changed passed the cycle
/// test against a map `r` that holds all the links of the result.
pub proof fn lemma_relink_acyclic(
    m: Map<u64, Option<u64>>,
    r: Map<u64, Option<u64>>,
    m2: Map<u64, Option<u64>>,
)
    requires
        acyclic(m),
        forall|y: u64| #[trigger] parent_step(m2, y) is Some ==> parent_step(m2, y) == parent_step(r, y),
        forall|y: u64|
            #[trigger] parent_step(m2, y) is Some && parent_step(m2, y) != parent_step(m, y)
                ==> !cycle_check(r, y, parent_step(m2, y)->0),
    ensures
        acyclic(m2),
{
    assert forall|x: u64, k: nat| k >= 1 implies #[trigger] walk(m2, x, k) != Some(x) by {
        if walk(m2, x, k) == Some(x) {
            if exists|j: nat| j < k && #[trigger] walk(m2, x, j) is Some && parent_step(m2, walk(m2, x, j)->0) != parent_step(m, walk(m2, x, j)->0) {
                let j = choose|j: nat| j < k && #[trigger] walk(m2, x, j) is Some && parent_step(m2, walk(m2, x, j)->0) != parent_step(m, walk(m2, x, j)->0);
                let y = walk(m2, x, j)->0;
                // y lies on the cycle through x
                lemma_walk_compose(m2, x, j, k);
                lemma_walk_compose(m2, x, k, j);
                assert(walk(m2, y, k) == Some(y));
                lemma_walk_prefix(m2, x, k, j + 1);
                assert(walk(m2, x, j + 1) == parent_step(m2, y));
                assert(parent_step(m2, y) is Some);
                let z = parent_step(m2, y)->0;
                lemma_walk_agree(m2, r, y, k);
                assert(walk(r, y, k) == Some(y));
                lemma_walk_compose(r, y, 1, (k - 1) as nat);
                assert(walk(r, y, 0) == Some(y));
                assert(walk(r, y, 1) == parent_step(r, y));
                assert(walk(r, z, (k - 1) as nat) == Some(y));
                if (k - 1) as nat <= r.len() {
                    assert(walk(r, z, (k - 1) as nat) == Some(y));
                } else {
                    lemma_walk_prefix(r, z, (k - 1) as nat, r.len());
                }
                assert(cycle_check(r, y, z));
            } else {
                // every link on the cycle is an old link, so the cycle was already there
                assert forall|j: nat| j <= k implies #[trigger] walk(m2, x, j) == walk(m, x, j) by {
                    lemma_walk_same(m, m2, x, k, j);
                }
                assert(walk(m, x, k) == Some(x));
            }
        }
    }
}

proof fn lemma_walk_same(m: Map<u64, Option<u64>>, m2: Map<u64, Option<u64>>, x: u64, k: nat, j: nat)
    requires
        walk(m2, x, k) is Some,
        j <= k,
        !(exists|i: nat| i < k && #[trigger] walk(m2, x, i) is Some && parent_step(m2, walk(m2, x, i)->0) != parent_step(m, walk(m2, x, i)->0)),
    ensures
        walk(m2, x, j) == walk(m, x, j),
    decreases j,
{
    if j > 0 {
        lemma_walk_same(m, m2, x, k, (j - 1) as nat);
        lemma_walk_prefix(m2, x, k, (j - 1) as nat);
        let i = (j - 1) as nat;
        assert(walk(m2, x, i) is Some);
    }
}

/// Parent and child links between XRDS ids, kept in both directions.
pub struct XrdsHierarchyIndex {
    parent_of: HashMap<u64, Option<u64>>,
    children_of: HashMap<u64, Vec<u64>>,
}

impl XrdsHierarchyIndex {
    /// Node -> recorded parent.
    pub closed spec fn parents(&self) -> Map<u64, Option<u64>> {
        self.parent_of@
    }

    /// Node -> recorded children, in insertion order.
    pub closed spec fn children(&self) -> Map<u64, Seq<u64>> {
        self.children_of@.map_values(|v: Vec<u64>| v@)
    }

    pub open spec fn wf(&self) -> bool {
        hierarchy_wf(self.parents(), self.children())
    }

    pub proof fn lemma_finite(&self)
        ensures
            self.parents().dom().finite(),
            self.children().dom().finite(),
    {
        broadcast use vstd::std_specs::hash::axiom_hashmap_view_finite_dom;
        assert(self.parent_of@.dom().finite());
        assert(self.children_of@.dom().finite());
        assert(self.children().dom() == self.children_of@.dom());
    }

    /// An empty hierarchy.
    pub fn new() -> (h: XrdsHierarchyIndex)
        ensures
            h.parents() == Map::<u64, Option<u64>>::empty(),
            h.children() == Map::<u64, Seq<u64>>::empty(),
            h.wf(),
    {
        let h = XrdsHierarchyIndex { parent_of: HashMap::new(), children_of: HashMap::new() };
        assert(h.children() =~= Map::<u64, Seq<u64>>::empty());
        h
    }

    fn remove_child_id(children: &Vec<u64>, child_id: u64) -> (r: Vec<u64>)
        ensures
            r@ == seq_without(children@, child_id),
    {
        let mut r: Vec<u64> = Vec::new();
        let mut i: usize = 0;
        while i < children.len()
            invariant
                i <= children.len(),
                r@ == seq_without(children@.take(i as int), child_id),
            decreases children.len() - i,
        {
            assert(children@.take(i + 1).drop_last() =~= children@.take(i as int));
            if children[i] != child_id {
                r.push(children[i]);
            }
            i = i + 1;
        }
        assert(children@.take(children.len() as int) =~= children@);
        r
    }

    /// Make sure `id` has an entry (no parent, no children) without touching existing ones.
    pub fn ensure_node(&mut self, id: XrdsId)
        ensures
            final(self).parents() == (if old(self).parents().contains_key(id.0) {
                old(self).parents()
            } else {
                old(self).parents().insert(id.0, None)
            }),
            final(self).children() == (if old(self).children().contains_key(id.0) {
                old(self).children()
            } else {
                old(self).children().insert(id.0, Seq::empty())
            }),
            old(self).wf() ==> final(self).wf(),
    {
        if !self.parent_of.contains_key(&id.0) {
            self.parent_of.insert(id.0, None);
        }
        if !self.children_of.contains_key(&id.0) {
            self.children_of.insert(id.0, Vec::new());
        }
        assert(self.children() =~= (if old(self).children().contains_key(id.0) {
            old(self).children()
        } else {
            old(self).children().insert(id.0, Seq::empty())
        }));
    }

    /// The parent recorded for `id`.
    pub fn parent_id_of(&self, id: XrdsId) -> (r: Option<XrdsId>)
        ensures
            r == (match parent_step(self.parents(), id.0) {
                Some(q) => Some(XrdsId(q)),
                None => None,
            }),
    {
        match self.parent_of.get(&id.0) {
            Some(Some(q)) => Some(XrdsId(*q)),
            _ => None,
        }
    }

    /// The children recorded for `id`, in the order they were attached.
    pub fn child_ids_of(&self, id: XrdsId) -> (r: Vec<XrdsId>)
        ensures
            r@.len() == (if self.children().contains_key(id.0) {
                self.children()[id.0].len()
            } else {
                0
            }),
            forall|i: int|
                0 <= i < r@.len() ==> #[trigger] r@[i] == XrdsId(self.children()[id.0][i]),
    {
        let mut r: Vec<XrdsId> = Vec::new();
        match self.children_of.get(&id.0) {
            Some(kids) => {
                assert(kids@ == self.children()[id.0]);
                let mut i: usize = 0;
                while i < kids.len()
                    invariant
                        i <= kids.len(),
                        kids@ == self.children()[id.0],
                        r@.len() == i,
                        forall|j: int| 0 <= j < i ==> #[trigger] r@[j] == XrdsId(kids@[j]),
                    decreases kids.len() - i,
                {
                    r.push(XrdsId(kids[i]));
                    i = i + 1;
                }
            },
            None => {},
        }
        r
    }


    /// Forget `id`: detach it from its parent and detach its children to the root.
    /// Returns the children that were detached.
    pub fn remove_node(&mut self, id: XrdsId) -> (r: Vec<XrdsId>)
        requires
            old(self).wf(),
        ensures
            final(self).wf(),
            final(self).children() == remove_node_children(
                old(self).parents(),
                old(self).children(),
                id.0,
            ).remove(id.0),
            final(self).parents() == clear_parents(
                old(self).parents().remove(id.0),
                removed_children(old(self).parents(), old(self).children(), id.0),
            ),
            final(self).parents().dom() == old(self).parents().dom().remove(id.0),
            r@.len() == removed_children(old(self).parents(), old(self).children(), id.0).len(),
            forall|i: int|
                0 <= i < r@.len() ==> #[trigger] r@[i] == XrdsId(
                    removed_children(old(self).parents(), old(self).children(), id.0)[i],
                ),
    {
        let ghost p0 = self.parents();
        let ghost ch0 = self.children();
        let ghost ch1 = remove_node_children(p0, ch0, id.0);
        let removed = self.parent_of.remove(&id.0);
        if let Some(Some(q)) = removed {
            assert(parent_step(p0, id.0) == Some(q));
            let existing = self.children_of.remove(&q);
            if let Some(kids) = existing {
                let kept = Self::remove_child_id(&kids, id.0);
                self.children_of.insert(q, kept);
            }
        }
        assert(self.children() =~= ch1);
        let children = match self.children_of.remove(&id.0) {
            Some(k) => k,
            None => Vec::new(),
        };
        let ghost kids = removed_children(p0, ch0, id.0);
        assert(children@ == kids);
        assert(self.children() =~= ch1.remove(id.0));
        let mut i: usize = 0;
        while i < children.len()
            invariant
                i <= children.len(),
                children@ == kids,
                self.parent_of@ == clear_parents(p0.remove(id.0), kids.take(i as int)),
                self.children() == ch1.remove(id.0),
            decreases children.len() - i,
        {
            assert(kids.take(i + 1).drop_last() =~= kids.take(i as int));
            self.parent_of.insert(children[i], None);
            i = i + 1;
        }
        assert(kids.take(children.len() as int) =~= kids);
        let mut r: Vec<XrdsId> = Vec::new();
        let mut j: usize = 0;
        while j < children.len()
            invariant
                j <= children.len(),
                children@ == kids,
                r@.len() == j,
                forall|k: int| 0 <= k < j ==> #[trigger] r@[k] == XrdsId(kids[k]),
            decreases children.len() - j,
        {
            r.push(XrdsId(children[j]));
            j = j + 1;
        }
        proof {
            lemma_remove_node_wf(p0, ch0, id.0);
        }
        r
    }

    /// A copy of the parent map.
    pub fn parent_map_snapshot(&self) -> (m: HashMap<u64, Option<u64>>)
        ensures
            m@ == self.parents(),
    {
        self.parent_of.clone()
    }

    /// Attach `child_id` under `parent_id` (or detach it to the root with `None`).
    pub fn set_parent(&mut self, child_id: XrdsId, parent_id: Option<XrdsId>)
        ensures
            final(self).parents() == set_parent_parents(
                old(self).parents(),
                child_id.0,
                match parent_id {
                    Some(q) => Some(q.0),
                    None => None,
                },
            ),
            final(self).children() == set_parent_children(
                old(self).parents(),
                old(self).children(),
                child_id.0,
                match parent_id {
                    Some(q) => Some(q.0),
                    None => None,
                },
            ),
            old(self).wf() ==> final(self).wf(),
    {
        let ghost p0 = self.parents();
        let ghost ch0 = self.children();
        let parent: Option<u64> = match parent_id {
            Some(q) => Some(q.0),
            None => None,
        };
        let child = child_id.0;
        let previous: Option<u64> = match self.parent_of.get(&child) {
            Some(Some(q)) => Some(*q),
            _ => None,
        };
        assert(previous == parent_step(p0, child));
        if !self.parent_of.contains_key(&child) {
            self.parent_of.insert(child, None);
        }
        if !self.children_of.contains_key(&child) {
            self.children_of.insert(child, Vec::new());
        }
        let ghost ch_a = if ch0.contains_key(child) {
            ch0
        } else {
            ch0.insert(child, Seq::empty())
        };
        assert(self.children() =~= ch_a);
        if let Some(old_parent) = previous {
            if Some(old_parent) != parent {
                let existing = self.children_of.remove(&old_parent);
                match existing {
                    Some(kids) => {
                        let kept = Self::remove_child_id(&kids, child);
                        self.children_of.insert(old_parent, kept);
                    },
                    None => {},
                }
            }
        }
        let ghost ch_b = match parent_step(p0, child) {
            Some(o) => if Some(o) != parent && ch_a.contains_key(o) {
                ch_a.insert(o, seq_without(ch_a[o], child))
            } else {
                ch_a
            },
            None => ch_a,
        };
        assert(self.children() =~= ch_b);
        self.parent_of.insert(child, parent);
        if let Some(q) = parent {
            if !self.parent_of.contains_key(&q) {
                self.parent_of.insert(q, None);
            }
            let existing = self.children_of.remove(&q);
            let mut kids: Vec<u64> = match existing {
                Some(k) => k,
                None => Vec::new(),
            };
            let ghost kids0 = kids@;
            let mut present = false;
            let mut i: usize = 0;
            while i < kids.len()
                invariant
                    i <= kids.len(),
                    present == kids@.take(i as int).contains(child),
                decreases kids.len() - i,
            {
                assert(kids@.take(i + 1) =~= kids@.take(i as int).push(kids@[i as int]));
                let ghost t0 = kids@.take(i as int);
                let ghost t1 = kids@.take(i + 1);
                assert(t1.contains(child) == (t0.contains(child) || kids@[i as int] == child)) by {
                    if t1.contains(child) {
                        let j = choose|j: int| 0 <= j < t1.len() && #[trigger] t1[j] == child;
                        if j < i {
                            assert(t0[j] == child);
                        }
                    }
                    if t0.contains(child) {
                        let j = choose|j: int| 0 <= j < t0.len() && #[trigger] t0[j] == child;
                        assert(t1[j] == child);
                    }
                    if kids@[i as int] == child {
                        assert(t1[i as int] == child);
                    }
                }
                if kids[i] == child {
                    present = true;
                }
                i = i + 1;
            }
            assert(kids@.take(kids.len() as int) =~= kids@);
            if !present {
                kids.push(child);
            }
            self.children_of.insert(q, kids);
        }
        assert(self.parents() =~= set_parent_parents(p0, child, parent));
        assert(self.children() =~= set_parent_children(p0, ch0, child, parent));
        proof {
            if hierarchy_wf(p0, ch0) {
                lemma_set_parent_wf(p0, ch0, child, parent);
            }
        }
    }
}

} // verus!
