//! The parent table: the tree structure the planned solver actions build,
//! kept as each wired node's unique parent.
//!
//! The solver holds a single-parent tree: assigning a node's children orphans
//! its previous children and steals each new child from its old parent, and
//! removing a node detaches it and orphans its children. Folding the action
//! list with those rules (see the interpreter module) keeps this table equal
//! to the solver's parent relation, and on a single-parent graph a layout
//! computation rooted at `root` recurses without bound exactly when `root`
//! lies on a cycle — which the deterministic parent-chain walk `chase`
//! detects in linearly many steps.

use vstd::prelude::*;

verus! {

broadcast use vstd::set::group_set_axioms, vstd::map::group_map_axioms;

/// One wired pair: a child handle and its unique parent handle.
#[derive(Clone, Copy, PartialEq, Eq, Structural, Debug)]
pub struct ParentEntry {
    pub child: u64,
    pub parent: u64,
}

/// The map a sequence of parent entries denotes, later pairs winning.
pub open spec fn parents_map_of(s: Seq<ParentEntry>) -> Map<u64, u64>
    decreases s.len(),
{
    if s.len() == 0 {
        Map::empty()
    } else {
        parents_map_of(s.drop_last()).insert(s.last().child, s.last().parent)
    }
}

/// Some entry of `s` carries child `c`.
pub open spec fn has_child(s: Seq<ParentEntry>, c: u64) -> bool {
    exists|i: int| 0 <= i < s.len() && (#[trigger] s[i]).child == c
}

/// No two entries share a child: each wired node has one parent.
pub open spec fn children_distinct(s: Seq<ParentEntry>) -> bool {
    forall|i: int, j: int|
        0 <= i < j < s.len() ==> (#[trigger] s[i]).child != (#[trigger] s[j]).child
}

/// The table with every pair parented to `p` dropped: `p`'s children
/// orphaned.
pub open spec fn strip_parent(t: Map<u64, u64>, p: u64) -> Map<u64, u64> {
    Map::new(|c: u64| t.contains_key(c) && t[c] != p, |c: u64| t[c])
}

/// Follow parent links from `h` for at most `fuel` steps; true exactly when
/// the chain reaches `root`. Opaque: a chase on a symbolic table would
/// otherwise unfold without end; proofs reveal it step by step.
#[verifier::opaque]
pub open spec fn chase(t: Map<u64, u64>, h: u64, root: u64, fuel: nat) -> bool
    decreases fuel,
{
    if fuel == 0 {
        false
    } else if !t.contains_key(h) {
        false
    } else if t[h] == root {
        true
    } else {
        chase(t, t[h], root, (fuel - 1) as nat)
    }
}

/// `root` lies on a cycle of the single-parent relation `t`: following
/// parent links from `root` comes back to `root`. A cycle through `root` has
/// at most one entry per wired node, so the table's size is fuel enough.
pub open spec fn root_on_cycle(t: Map<u64, u64>, root: u64) -> bool {
    chase(t, root, root, t.dom().len())
}

/// A key of `parents_map_of(s)` is exactly a child of some entry.
pub proof fn lemma_parents_map_contains(s: Seq<ParentEntry>)
    ensures
        forall|c: u64| #[trigger] parents_map_of(s).contains_key(c) <==> has_child(s, c),
    decreases s.len(),
{
    if s.len() == 0 {
    } else {
        let dl = s.drop_last();
        lemma_parents_map_contains(dl);
        assert forall|c: u64| #[trigger] parents_map_of(s).contains_key(c) <==> has_child(
            s,
            c,
        ) by {
            if parents_map_of(s).contains_key(c) {
                if c == s.last().child {
                    assert(s[s.len() - 1].child == c);
                } else {
                    assert(parents_map_of(dl).contains_key(c));
                    let i = choose|i: int| 0 <= i < dl.len() && (#[trigger] dl[i]).child == c;
                    assert(s[i].child == c);
                }
            }
            if has_child(s, c) {
                let i = choose|i: int| 0 <= i < s.len() && (#[trigger] s[i]).child == c;
                if i < s.len() - 1 {
                    assert(dl[i].child == c);
                    assert(has_child(dl, c));
                } else {
                    assert(c == s.last().child);
                }
            }
        }
    }
}

/// Under distinct children, the map sends each entry's child to its parent.
pub proof fn lemma_parents_map_at(s: Seq<ParentEntry>, i: int)
    requires
        children_distinct(s),
        0 <= i < s.len(),
    ensures
        parents_map_of(s).contains_key(s[i].child),
        parents_map_of(s)[s[i].child] == s[i].parent,
    decreases s.len(),
{
    if i == s.len() - 1 {
    } else {
        let dl = s.drop_last();
        assert(dl[i] == s[i]);
        lemma_parents_map_at(dl, i);
        assert(s[i].child != s.last().child);
    }
}

/// Under distinct children, the map has exactly one key per entry.
pub proof fn lemma_parents_map_len(s: Seq<ParentEntry>)
    requires
        children_distinct(s),
    ensures
        parents_map_of(s).dom().finite(),
        parents_map_of(s).dom().len() == s.len(),
    decreases s.len(),
{
    if s.len() == 0 {
        assert(parents_map_of(s).dom() =~= Set::<u64>::empty());
    } else {
        let dl = s.drop_last();
        lemma_parents_map_len(dl);
        lemma_parents_map_contains(dl);
        assert(!has_child(dl, s.last().child)) by {
            if has_child(dl, s.last().child) {
                let i = choose|i: int|
                    0 <= i < dl.len() && (#[trigger] dl[i]).child == s.last().child;
                assert(s[i].child == s[s.len() - 1].child);
            }
        }
        assert(parents_map_of(s).dom() =~= parents_map_of(dl).dom().insert(s.last().child));
    }
}

/// Appending an entry inserts its pair into the map.
pub proof fn lemma_parents_map_push(s: Seq<ParentEntry>, e: ParentEntry)
    ensures
        parents_map_of(s.push(e)) == parents_map_of(s).insert(e.child, e.parent),
{
    assert(s.push(e).drop_last() =~= s);
    assert(s.push(e).last() == e);
}

/// Removing the entry at `i` removes its child from the map, provided
/// children are distinct.
pub proof fn lemma_parents_map_remove(s: Seq<ParentEntry>, i: int)
    requires
        children_distinct(s),
        0 <= i < s.len(),
    ensures
        parents_map_of(s.remove(i)) == parents_map_of(s).remove(s[i].child),
    decreases s.len(),
{
    let c = s[i].child;
    if i == s.len() - 1 {
        let dl = s.drop_last();
        assert(s.remove(i) =~= dl);
        lemma_parents_map_contains(dl);
        assert(!has_child(dl, c)) by {
            if has_child(dl, c) {
                let j = choose|j: int| 0 <= j < dl.len() && (#[trigger] dl[j]).child == c;
                assert(s[j].child == s[i].child);
            }
        }
        assert(parents_map_of(dl) =~= parents_map_of(dl).insert(c, s[i].parent).remove(c));
    } else {
        let dl = s.drop_last();
        assert(dl[i] == s[i]);
        lemma_parents_map_remove(dl, i);
        assert(s.remove(i).drop_last() =~= dl.remove(i));
        assert(s.remove(i).last() == s.last());
        assert(s.remove(i).len() > 0);
        assert(parents_map_of(s.remove(i)) == parents_map_of(dl.remove(i)).insert(
            s.last().child,
            s.last().parent,
        ));
        assert(c != s.last().child);
        assert(parents_map_of(dl).remove(c).insert(s.last().child, s.last().parent)
            =~= parents_map_of(dl).insert(s.last().child, s.last().parent).remove(c));
    }
}

/// The parent table itself.
pub struct ParentTable {
    entries: Vec<ParentEntry>,
}

impl ParentTable {
    /// The wired pairs, in wiring order.
    pub closed spec fn entries_seq(self) -> Seq<ParentEntry> {
        self.entries@
    }

    /// The table's mathematical model: child handle to parent handle.
    pub closed spec fn map(self) -> Map<u64, u64> {
        parents_map_of(self.entries@)
    }

    /// Well-formed: each child is wired at most once.
    pub closed spec fn wf(self) -> bool {
        children_distinct(self.entries@)
    }

    /// An empty table: nothing wired.
    pub fn new() -> (r: ParentTable)
        ensures
            r.wf(),
            r.map() == Map::<u64, u64>::empty(),
    {
        ParentTable { entries: Vec::new() }
    }

    /// Index of the entry wiring `c`, if any.
    fn find(&self, c: u64) -> (r: Option<usize>)
        ensures
            match r {
                Some(i) => i < self.entries_seq().len() && self.entries_seq()[i as int].child == c,
                None => !has_child(self.entries_seq(), c),
            },
    {
        let mut i: usize = 0;
        while i < self.entries.len()
            invariant
                i <= self.entries@.len(),
                forall|j: int| 0 <= j < i ==> (#[trigger] self.entries@[j]).child != c,
            decreases self.entries@.len() - i,
        {
            if self.entries[i].child == c {
                return Some(i);
            }
            i = i + 1;
        }
        None
    }

    /// Parent of `c`, if it is wired.
    pub fn lookup(&self, c: u64) -> (r: Option<u64>)
        requires
            self.wf(),
        ensures
            r == if self.map().contains_key(c) {
                Some(self.map()[c])
            } else {
                None::<u64>
            },
    {
        proof {
            lemma_parents_map_contains(self.entries@);
        }
        match self.find(c) {
            Some(i) => {
                proof {
                    lemma_parents_map_at(self.entries@, i as int);
                }
                Some(self.entries[i].parent)
            },
            None => None,
        }
    }

    /// Wire `c` under `p`, replacing any previous parent of `c`.
    pub fn insert(&mut self, c: u64, p: u64)
        requires
            old(self).wf(),
        ensures
            final(self).wf(),
            final(self).map() == old(self).map().insert(c, p),
    {
        let ghost s0 = self.entries@;
        match self.find(c) {
            Some(i) => {
                proof {
                    lemma_parents_map_remove(s0, i as int);
                }
                self.entries.remove(i);
            },
            None => {
                proof {
                    lemma_parents_map_contains(s0);
                    assert(parents_map_of(s0) =~= parents_map_of(s0).remove(c));
                }
            },
        }
        let ghost s1 = self.entries@;
        self.entries.push(ParentEntry { child: c, parent: p });
        proof {
            lemma_parents_map_push(s1, ParentEntry { child: c, parent: p });
            assert(parents_map_of(s0).remove(c).insert(c, p) =~= parents_map_of(s0).insert(c, p));
            lemma_parents_map_contains(s1);
            assert forall|k: int| 0 <= k < s1.len() implies (#[trigger] s1[k]).child != c by {
                if s1[k].child == c {
                    assert(has_child(s1, c));
                }
            }
        }
    }

    /// Unwire `c`; a no-op when it has no parent.
    pub fn remove(&mut self, c: u64)
        requires
            old(self).wf(),
        ensures
            final(self).wf(),
            final(self).map() == old(self).map().remove(c),
    {
        proof {
            lemma_parents_map_contains(self.entries@);
        }
        match self.find(c) {
            Some(i) => {
                proof {
                    lemma_parents_map_remove(self.entries@, i as int);
                }
                self.entries.remove(i);
            },
            None => {
                proof {
                    assert(parents_map_of(self.entries@) =~= parents_map_of(
                        self.entries@,
                    ).remove(c));
                }
            },
        }
    }

    /// Orphan every child wired under `p`.
    pub fn strip_parent_links(&mut self, p: u64)
        requires
            old(self).wf(),
        ensures
            final(self).wf(),
            final(self).map() == strip_parent(old(self).map(), p),
    {
        let ghost s0 = self.entries@;
        let mut kept: Vec<ParentEntry> = Vec::new();
        let mut i: usize = 0;
        proof {
            assert(s0.take(0) =~= Seq::<ParentEntry>::empty());
            assert(parents_map_of(kept@) =~= strip_parent(parents_map_of(s0.take(0)), p));
        }
        while i < self.entries.len()
            invariant
                self.entries@ == s0,
                children_distinct(s0),
                i <= s0.len(),
                children_distinct(kept@),
                forall|k: int|
                    0 <= k < kept@.len() ==> has_child(s0.take(i as int), (#[trigger] kept@[k]).child),
                parents_map_of(kept@) == strip_parent(parents_map_of(s0.take(i as int)), p),
            decreases s0.len() - i,
        {
            let e = self.entries[i];
            let ghost prefix = s0.take(i as int);
            let ghost kept0 = kept@;
            proof {
                assert(s0.take(i as int + 1).drop_last() =~= prefix);
                assert(s0.take(i as int + 1).last() == e);
                assert(parents_map_of(s0.take(i as int + 1)) == parents_map_of(prefix).insert(
                    e.child,
                    e.parent,
                ));
                lemma_parents_map_contains(prefix);
                assert(!has_child(prefix, e.child)) by {
                    if has_child(prefix, e.child) {
                        let j = choose|j: int|
                            0 <= j < prefix.len() && (#[trigger] prefix[j]).child == e.child;
                        assert(s0[j].child == s0[i as int].child);
                    }
                }
            }
            if e.parent != p {
                kept.push(e);
                proof {
                    lemma_parents_map_push(kept0, e);
                    assert(strip_parent(parents_map_of(prefix).insert(e.child, e.parent), p)
                        =~= strip_parent(parents_map_of(prefix), p).insert(e.child, e.parent));
                    assert forall|k: int| 0 <= k < kept@.len() implies has_child(
                        s0.take(i as int + 1),
                        (#[trigger] kept@[k]).child,
                    ) by {
                        if k < kept0.len() {
                            let j = choose|j: int|
                                0 <= j < prefix.len() && (#[trigger] prefix[j]).child
                                    == kept0[k].child;
                            assert(s0.take(i as int + 1)[j].child == kept@[k].child);
                        } else {
                            assert(s0.take(i as int + 1)[i as int].child == e.child);
                        }
                    }
                    assert forall|k1: int, k2: int| 0 <= k1 < k2 < kept@.len() implies (
                    #[trigger] kept@[k1]).child != (#[trigger] kept@[k2]).child by {
                        if k2 == kept@.len() - 1 {
                            let j = choose|j: int|
                                0 <= j < prefix.len() && (#[trigger] prefix[j]).child
                                    == kept0[k1].child;
                            assert(s0[j].child != s0[i as int].child);
                        }
                    }
                }
            } else {
                proof {
                    // The stripped pair never made it into the kept map.
                    assert(strip_parent(parents_map_of(prefix).insert(e.child, e.parent), p)
                        =~= strip_parent(parents_map_of(prefix), p));
                    assert forall|k: int| 0 <= k < kept@.len() implies has_child(
                        s0.take(i as int + 1),
                        (#[trigger] kept@[k]).child,
                    ) by {
                        let j = choose|j: int|
                            0 <= j < prefix.len() && (#[trigger] prefix[j]).child == kept@[k].child;
                        assert(s0.take(i as int + 1)[j].child == kept@[k].child);
                    }
                }
            }
            i = i + 1;
        }
        proof {
            assert(s0.take(s0.len() as int) =~= s0);
        }
        self.entries = kept;
    }

    /// Drop every pair.
    pub fn clear(&mut self)
        ensures
            final(self).wf(),
            final(self).map() == Map::<u64, u64>::empty(),
    {
        self.entries = Vec::new();
    }

    /// Whether `root` lies on a cycle: follow parent links from `root` for at
    /// most one step per wired pair and watch for `root`'s return.
    pub fn root_cycle_check(&self, root: u64) -> (r: bool)
        requires
            self.wf(),
        ensures
            r == root_on_cycle(self.map(), root),
    {
        proof {
            lemma_parents_map_len(self.entries@);
            reveal_with_fuel(chase, 1);
        }
        let n: usize = self.entries.len();
        let mut fuel: usize = n;
        let mut cur: u64 = root;
        while fuel > 0
            invariant
                self.wf(),
                n as nat == self.map().dom().len(),
                chase(self.map(), root, root, n as nat) == chase(
                    self.map(),
                    cur,
                    root,
                    fuel as nat,
                ),
            decreases fuel,
        {
            proof {
                reveal_with_fuel(chase, 1);
            }
            match self.lookup(cur) {
                None => {
                    return false;
                },
                Some(p) => {
                    if p == root {
                        return true;
                    }
                    cur = p;
                },
            }
            fuel = fuel - 1;
        }
        proof {
            reveal_with_fuel(chase, 1);
        }
        false
    }
}

} // verus!
