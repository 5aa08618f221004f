//! Widget and HUD bookkeeping: panel elements by name, HUD items, environment receivers.
use vstd::prelude::*;
use crate::ids::Entity;

verus! {

/// The map that a list of (panel, element name, element) entries stands for: later entries
/// win over earlier ones with the same key.
pub open spec fn element_map(entries: Seq<(u64, Seq<char>, u64)>) -> Map<(u64, Seq<char>), u64>
    decreases entries.len(),
{
    if entries.len() == 0 {
        Map::empty()
    } else {
        element_map(entries.drop_last()).insert(
            (entries.last().0, entries.last().1),
            entries.last().2,
        )
    }
}

/// `(panel entity, element name) -> element entity`, rebuilt on every import.
pub struct XrdsPanelElementIndex {
    entries: Vec<(Entity, String, Entity)>,
}

impl XrdsPanelElementIndex {
    pub closed spec fn entries_view(&self) -> Seq<(u64, Seq<char>, u64)> {
        self.entries@.map_values(|e: (Entity, String, Entity)| (e.0.0, e.1@, e.2.0))
    }

    /// The index as a map.
    pub open spec fn view(&self) -> Map<(u64, Seq<char>), u64> {
        element_map(self.entries_view())
    }

    /// An empty index.
    pub fn default() -> (r: XrdsPanelElementIndex)
        ensures
            r.view() == Map::<(u64, Seq<char>), u64>::empty(),
    {
        let r = XrdsPanelElementIndex { entries: Vec::new() };
        assert(r.entries_view() =~= Seq::<(u64, Seq<char>, u64)>::empty());
        r
    }

    /// The element named `name` on `panel`, if any.
    pub fn element_of(&self, panel: Entity, name: &str) -> (r: Option<Entity>)
        ensures
            r == (if self.view().contains_key((panel.0, name@)) {
                Some(Entity(self.view()[(panel.0, name@)]))
            } else {
                None
            }),
    {
        let ghost v = self.entries_view();
        let ghost k = (panel.0, name@);
        proof {
            lemma_element_map_lookup(v, k);
        }
        let mut i: usize = self.entries.len();
        while i > 0
            invariant
                i <= self.entries.len(),
                v == self.entries_view(),
                k == (panel.0, name@),
                v.len() == self.entries.len(),
                forall|j: int| i <= j < v.len() ==> (#[trigger] v[j].0, v[j].1) != k,
            decreases i,
        {
            i = i - 1;
            let entry = &self.entries[i];
            let same_name = str_eq(entry.1.as_str(), name);
            assert(v[i as int] == (entry.0.0, entry.1@, entry.2.0));
            let same_panel = entry.0.0 == panel.0;
            assert(same_name == (entry.1@ == name@));
            if same_panel && same_name {
                assert((v[i as int].0, v[i as int].1) == k);
                proof {
                    lemma_element_map_lookup(v, k);
                    let ii = i as int;
                    assert(forall|j: int| ii < j < v.len() ==> (#[trigger] v[j].0, v[j].1) != k);
                    assert(element_map(v)[k] == v[ii].2);
                }
                return Some(entry.2);
            }
        }
        None
    }

    /// Record `element` as `panel`'s element named `name`.
    pub fn insert(&mut self, panel: Entity, name: String, element: Entity)
        ensures
            final(self).view() == old(self).view().insert((panel.0, name@), element.0),
    {
        let ghost before = self.entries_view();
        let ghost key = (panel.0, name@);
        self.entries.push((panel, name, element));
        assert(self.entries_view() =~= before.push((key.0, key.1, element.0)));
        assert(self.entries_view().drop_last() =~= before);
    }

    /// Forget every element.
    pub fn clear(&mut self)
        ensures
            final(self).view() == Map::<(u64, Seq<char>), u64>::empty(),
    {
        self.entries = Vec::new();
        assert(self.entries_view() =~= Seq::<(u64, Seq<char>, u64)>::empty());
    }
}

/// Lookup in the map of a list of entries: a key is present iff some entry sets it, and
/// its value comes from the last such entry.
#[verifier::spinoff_prover]
#[verifier::rlimit(40)]
pub proof fn lemma_element_map_lookup(s: Seq<(u64, Seq<char>, u64)>, k: (u64, Seq<char>))
    ensures
        element_map(s).contains_key(k) <==> exists|j: int| 0 <= j < s.len() && (#[trigger] s[j].0, s[j].1) == k,
        forall|i: int|
            0 <= i < s.len() && (#[trigger] s[i].0, s[i].1) == k && (forall|j: int| i < j < s.len() ==> (#[trigger] s[j].0, s[j].1) != k)
                ==> element_map(s)[k] == s[i].2,
    decreases s.len(),
{
    if s.len() > 0 {
        let l = s.drop_last();
        lemma_element_map_lookup(l, k);
        assert forall|j: int| 0 <= j < l.len() implies l[j] == s[j] by {}
        if exists|j: int| 0 <= j < s.len() && (#[trigger] s[j].0, s[j].1) == k {
            let j = choose|j: int| 0 <= j < s.len() && (#[trigger] s[j].0, s[j].1) == k;
            if j < l.len() {
                assert((l[j].0, l[j].1) == k);
            }
        }
        assert forall|i: int|
            0 <= i < s.len() && (#[trigger] s[i].0, s[i].1) == k && (forall|j: int| i < j < s.len() ==> (#[trigger] s[j].0, s[j].1) != k)
                implies element_map(s)[k] == s[i].2 by {
            if i < s.len() - 1 {
                assert((s[s.len() - 1].0, s[s.len() - 1].1) != k);
                assert((l[i].0, l[i].1) == k);
                assert forall|j: int| i < j < l.len() implies (#[trigger] l[j].0, l[j].1) != k by {
                    assert((s[j].0, s[j].1) != k);
                }
            }
        }
    }
}

/// String equality by content.
pub fn str_eq(a: &str, b: &str) -> (r: bool)
    ensures
        r == (a@ == b@),
{
    let n = a.unicode_len();
    let m = b.unicode_len();
    if n != m {
        return false;
    }
    let mut i: usize = 0;
    while i < n
        invariant
            i <= n,
            n == a@.len(),
            m == b@.len(),
            n == m,
            forall|j: int| 0 <= j < i ==> a@[j] == b@[j],
        decreases n - i,
    {
        if a.get_char(i) != b.get_char(i) {
            return false;
        }
        i = i + 1;
    }
    assert(a@ =~= b@);
    true
}

/// A HUD instance: each item's authored name and the entity that renders it.
pub struct XrdsStoredHudInstance {
    pub items: Vec<(String, Entity)>,
}

/// Marks a camera that receives the scene's environment lighting.
pub struct XrdsReceivesEnvironment;

} // verus!
