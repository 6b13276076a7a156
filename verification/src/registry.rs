//! The node registry: a bidirectional mapping between caller-assigned
//! external ids and solver-native handles.
//!
//! The registry owns handle allocation: handles are dense integers handed out
//! in creation order, and the unverified solver driver keeps a table from
//! handle to solver node. The registry's forward direction (external id to
//! handle) is the model everything else is specified against; the reverse
//! direction is its exact inverse, which `lemma_registry_maps_inverse` pins
//! down as a standing invariant.

use vstd::prelude::*;

verus! {

broadcast use vstd::set::group_set_axioms, vstd::map::group_map_axioms;

/// One live pair of the registry.
#[derive(Clone, Copy, PartialEq, Eq, Structural, Debug)]
pub struct RegEntry {
    /// Caller-assigned 32-bit id, stable for the session.
    pub ext_id: u32,
    /// Dense solver-side handle allocated by the registry.
    pub handle: u64,
}

/// Mathematical model of the registry: the forward map and the next fresh
/// handle.
pub struct RegModel {
    pub fwd: Map<u32, u64>,
    pub next: u64,
}

/// The map a sequence of registry entries denotes, later pairs winning.
pub open spec fn entries_map(s: Seq<RegEntry>) -> Map<u32, u64>
    decreases s.len(),
{
    if s.len() == 0 {
        Map::empty()
    } else {
        entries_map(s.drop_last()).insert(s.last().ext_id, s.last().handle)
    }
}

/// Some entry of `s` carries external id `id`.
pub open spec fn has_ext_id(s: Seq<RegEntry>, id: u32) -> bool {
    exists|i: int| 0 <= i < s.len() && (#[trigger] s[i]).ext_id == id
}

/// No two entries share an external id.
pub open spec fn ext_ids_distinct(s: Seq<RegEntry>) -> bool {
    forall|i: int, j: int|
        0 <= i < j < s.len() ==> (#[trigger] s[i]).ext_id != (#[trigger] s[j]).ext_id
}

/// No two entries share a handle.
pub open spec fn handles_distinct(s: Seq<RegEntry>) -> bool {
    forall|i: int, j: int|
        0 <= i < j < s.len() ==> (#[trigger] s[i]).handle != (#[trigger] s[j]).handle
}

/// The inverse reading of a forward map: handle back to external id.
pub open spec fn rev_of(m: Map<u32, u64>) -> Map<u64, u32> {
    Map::new(
        |h: u64| exists|id: u32| m.contains_key(id) && m[id] == h,
        |h: u64| choose|id: u32| m.contains_key(id) && m[id] == h,
    )
}

/// A key of `entries_map(s)` is exactly an external id of some entry.
pub proof fn lemma_entries_map_contains(s: Seq<RegEntry>)
    ensures
        forall|id: u32| #[trigger] entries_map(s).contains_key(id) <==> has_ext_id(s, id),
    decreases s.len(),
{
    if s.len() == 0 {
    } else {
        let dl = s.drop_last();
        lemma_entries_map_contains(dl);
        assert forall|id: u32| #[trigger] entries_map(s).contains_key(id) <==> has_ext_id(
            s,
            id,
        ) by {
            if entries_map(s).contains_key(id) {
                if id == s.last().ext_id {
                    assert(s[s.len() - 1].ext_id == id);
                } else {
                    assert(entries_map(dl).contains_key(id));
                    let i = choose|i: int| 0 <= i < dl.len() && (#[trigger] dl[i]).ext_id == id;
                    assert(s[i].ext_id == id);
                }
            }
            if has_ext_id(s, id) {
                let i = choose|i: int| 0 <= i < s.len() && (#[trigger] s[i]).ext_id == id;
                if i < s.len() - 1 {
                    assert(dl[i].ext_id == id);
                    assert(has_ext_id(dl, id));
                } else {
                    assert(id == s.last().ext_id);
                }
            }
        }
    }
}

/// Under distinct external ids, the map sends each entry's id to its handle.
pub proof fn lemma_entries_map_at(s: Seq<RegEntry>, i: int)
    requires
        ext_ids_distinct(s),
        0 <= i < s.len(),
    ensures
        entries_map(s).contains_key(s[i].ext_id),
        entries_map(s)[s[i].ext_id] == s[i].handle,
    decreases s.len(),
{
    if i == s.len() - 1 {
    } else {
        let dl = s.drop_last();
        assert(dl[i] == s[i]);
        lemma_entries_map_at(dl, i);
        assert(s[i].ext_id != s.last().ext_id);
    }
}

/// Under distinct external ids, the map has exactly one key per entry.
pub proof fn lemma_entries_map_len(s: Seq<RegEntry>)
    requires
        ext_ids_distinct(s),
    ensures
        entries_map(s).dom().finite(),
        entries_map(s).dom().len() == s.len(),
    decreases s.len(),
{
    if s.len() == 0 {
        assert(entries_map(s).dom() =~= Set::<u32>::empty());
    } else {
        let dl = s.drop_last();
        lemma_entries_map_len(dl);
        lemma_entries_map_contains(dl);
        assert(!has_ext_id(dl, s.last().ext_id)) by {
            if has_ext_id(dl, s.last().ext_id) {
                let i = choose|i: int|
                    0 <= i < dl.len() && (#[trigger] dl[i]).ext_id == s.last().ext_id;
                assert(s[i].ext_id == s[s.len() - 1].ext_id);
            }
        }
        assert(entries_map(s).dom() =~= entries_map(dl).dom().insert(s.last().ext_id));
    }
}

/// Appending an entry inserts its pair into the map.
pub proof fn lemma_entries_map_push(s: Seq<RegEntry>, e: RegEntry)
    ensures
        entries_map(s.push(e)) == entries_map(s).insert(e.ext_id, e.handle),
{
    assert(s.push(e).drop_last() =~= s);
    assert(s.push(e).last() == e);
}

/// Removing the entry at `i` removes its id from the map, provided ids are
/// distinct.
pub proof fn lemma_entries_map_remove(s: Seq<RegEntry>, i: int)
    requires
        ext_ids_distinct(s),
        0 <= i < s.len(),
    ensures
        entries_map(s.remove(i)) == entries_map(s).remove(s[i].ext_id),
    decreases s.len(),
{
    let id = s[i].ext_id;
    if i == s.len() - 1 {
        let dl = s.drop_last();
        assert(s.remove(i) =~= dl);
        lemma_entries_map_contains(dl);
        assert(!has_ext_id(dl, id)) by {
            if has_ext_id(dl, id) {
                let j = choose|j: int| 0 <= j < dl.len() && (#[trigger] dl[j]).ext_id == id;
                assert(s[j].ext_id == s[i].ext_id);
            }
        }
        assert(entries_map(dl) =~= entries_map(dl).insert(id, s[i].handle).remove(id));
    } else {
        let dl = s.drop_last();
        assert(dl[i] == s[i]);
        lemma_entries_map_remove(dl, i);
        assert(s.remove(i).drop_last() =~= dl.remove(i));
        assert(s.remove(i).last() == s.last());
        assert(s.remove(i).len() > 0);
        assert(entries_map(s.remove(i)) == entries_map(dl.remove(i)).insert(
            s.last().ext_id,
            s.last().handle,
        ));
        assert(id != s.last().ext_id);
        assert(entries_map(dl).remove(id).insert(s.last().ext_id, s.last().handle) =~= entries_map(
            dl,
        ).insert(s.last().ext_id, s.last().handle).remove(id));
    }
}

/// The registry itself: a list of live pairs plus the next fresh handle.
pub struct NodeRegistry {
    entries: Vec<RegEntry>,
    next_handle: u64,
}

impl NodeRegistry {
    /// The live pairs, in insertion order.
    pub closed spec fn entries_seq(self) -> Seq<RegEntry> {
        self.entries@
    }

    /// The registry's mathematical model.
    pub closed spec fn model(self) -> RegModel {
        RegModel { fwd: entries_map(self.entries@), next: self.next_handle }
    }

    /// Forward direction: external id to handle.
    pub open spec fn fwd(self) -> Map<u32, u64> {
        self.model().fwd
    }

    /// Well-formed: ids and handles are unique and every handle was allocated
    /// below the next fresh one.
    pub closed spec fn wf(self) -> bool {
        &&& ext_ids_distinct(self.entries@)
        &&& handles_distinct(self.entries@)
        &&& forall|i: int|
            0 <= i < self.entries@.len() ==> (#[trigger] self.entries@[i]).handle
                < self.next_handle
    }

    /// An empty registry.
    pub fn new() -> (r: NodeRegistry)
        ensures
            r.wf(),
            r.model().fwd == Map::<u32, u64>::empty(),
            r.model().next == 0,
            r.entries_seq() == Seq::<RegEntry>::empty(),
    {
        NodeRegistry { entries: Vec::new(), next_handle: 0 }
    }

    /// Index of the entry carrying `id`, if any.
    fn find(&self, id: u32) -> (r: Option<usize>)
        ensures
            match r {
                Some(i) => i < self.entries_seq().len() && self.entries_seq()[i as int].ext_id
                    == id,
                None => !has_ext_id(self.entries_seq(), id),
            },
    {
        let mut i: usize = 0;
        while i < self.entries.len()
            invariant
                i <= self.entries@.len(),
                forall|j: int| 0 <= j < i ==> (#[trigger] self.entries@[j]).ext_id != id,
            decreases self.entries@.len() - i,
        {
            if self.entries[i].ext_id == id {
                return Some(i);
            }
            i = i + 1;
        }
        None
    }

    /// Handle of the node registered under `id`, if any.
    pub fn lookup(&self, id: u32) -> (r: Option<u64>)
        requires
            self.wf(),
        ensures
            r == if self.fwd().contains_key(id) {
                Some(self.fwd()[id])
            } else {
                None::<u64>
            },
    {
        proof {
            lemma_entries_map_contains(self.entries@);
        }
        match self.find(id) {
            Some(i) => {
                proof {
                    lemma_entries_map_at(self.entries@, i as int);
                }
                Some(self.entries[i].handle)
            },
            None => None,
        }
    }

    /// Register `id` under a fresh handle, replacing any prior mapping for
    /// that id; the prior handle (if any) simply drops out of the registry.
    pub fn insert_fresh(&mut self, id: u32) -> (h: u64)
        requires
            old(self).wf(),
            old(self).model().next < u64::MAX,
        ensures
            final(self).wf(),
            h == old(self).model().next,
            final(self).model().fwd == old(self).model().fwd.insert(id, h),
            final(self).model().next == old(self).model().next + 1,
    {
        let ghost s0 = self.entries@;
        match self.find(id) {
            Some(i) => {
                proof {
                    lemma_entries_map_remove(s0, i as int);
                }
                self.entries.remove(i);
            },
            None => {
                proof {
                    lemma_entries_map_contains(s0);
                    assert(entries_map(s0) =~= entries_map(s0).remove(id));
                }
            },
        }
        let ghost s1 = self.entries@;
        let h = self.next_handle;
        self.entries.push(RegEntry { ext_id: id, handle: h });
        self.next_handle = self.next_handle + 1;
        proof {
            lemma_entries_map_push(s1, RegEntry { ext_id: id, handle: h });
            assert(entries_map(s0).remove(id).insert(id, h) =~= entries_map(s0).insert(id, h));
            lemma_entries_map_contains(s1);
            assert forall|k: int| 0 <= k < s1.len() implies (#[trigger] s1[k]).ext_id != id by {
                if s1[k].ext_id == id {
                    assert(has_ext_id(s1, id));
                }
            }
        }
        h
    }

    /// Unregister `id`; a no-op returning `None` when it is not live.
    pub fn remove(&mut self, id: u32) -> (r: Option<u64>)
        requires
            old(self).wf(),
        ensures
            final(self).wf(),
            final(self).model().next == old(self).model().next,
            match r {
                Some(h) => old(self).fwd().contains_key(id) && h == old(self).fwd()[id]
                    && final(self).model().fwd == old(self).model().fwd.remove(id),
                None => !old(self).fwd().contains_key(id) && final(self).model() == old(
                    self,
                ).model(),
            },
    {
        proof {
            lemma_entries_map_contains(self.entries@);
        }
        match self.find(id) {
            Some(i) => {
                proof {
                    lemma_entries_map_at(self.entries@, i as int);
                    lemma_entries_map_remove(self.entries@, i as int);
                }
                let e = self.entries[i];
                self.entries.remove(i);
                Some(e.handle)
            },
            None => None,
        }
    }

    /// Drop every pair and restart handle allocation; used only by the
    /// full-buffer rebuild path.
    pub fn clear(&mut self)
        ensures
            final(self).wf(),
            final(self).model().fwd == Map::<u32, u64>::empty(),
            final(self).model().next == 0,
            final(self).entries_seq() == Seq::<RegEntry>::empty(),
    {
        self.entries = Vec::new();
        self.next_handle = 0;
    }

    /// Number of live nodes.
    pub fn count(&self) -> (n: usize)
        ensures
            n == self.entries_seq().len(),
    {
        self.entries.len()
    }

    /// The next fresh handle.
    pub fn next_handle_value(&self) -> (h: u64)
        ensures
            h == self.model().next,
    {
        self.next_handle
    }

    /// The live pairs themselves, for the results extractor to walk.
    pub fn entries_ref(&self) -> (v: &Vec<RegEntry>)
        ensures
            v@ == self.entries_seq(),
    {
        &self.entries
    }

    /// Every entry is one pair of the forward map, every key of the forward
    /// map has its entry, and no id or handle repeats.
    pub proof fn lemma_entries_reflect_fwd(self)
        requires
            self.wf(),
        ensures
            forall|i: int|
                0 <= i < self.entries_seq().len() ==> self.fwd().contains_key(
                    (#[trigger] self.entries_seq()[i]).ext_id,
                ) && self.fwd()[self.entries_seq()[i].ext_id] == self.entries_seq()[i].handle,
            forall|id: u32| #[trigger] self.fwd().contains_key(id) ==> has_ext_id(
                self.entries_seq(),
                id,
            ),
            ext_ids_distinct(self.entries_seq()),
            handles_distinct(self.entries_seq()),
            self.fwd().dom().finite(),
            self.fwd().dom().len() == self.entries_seq().len(),
    {
        lemma_entries_map_contains(self.entries@);
        lemma_entries_map_len(self.entries@);
        assert forall|i: int| 0 <= i < self.entries@.len() implies self.fwd().contains_key(
            (#[trigger] self.entries@[i]).ext_id,
        ) && self.fwd()[self.entries@[i].ext_id] == self.entries@[i].handle by {
            lemma_entries_map_at(self.entries@, i);
        }
    }

    /// The standing invariant of the dual mapping: the reverse direction is
    /// the exact inverse of the forward direction. A pair (id, h) stands in
    /// the forward map precisely when (h, id) stands in the reverse map.
    pub proof fn lemma_registry_maps_inverse(self)
        requires
            self.wf(),
        ensures
            forall|id: u32, h: u64|
                (#[trigger] self.fwd().contains_key(id) && self.fwd()[id] == h) <==> (
                #[trigger] rev_of(self.fwd()).contains_key(h) && rev_of(self.fwd())[h] == id),
    {
        let m = self.fwd();
        self.lemma_entries_reflect_fwd();
        assert forall|id1: u32, id2: u32|
            #[trigger] m.contains_key(id1) && #[trigger] m.contains_key(id2) && m[id1] == m[id2]
        implies id1 == id2 by {
            let s = self.entries_seq();
            let i1 = choose|i: int| 0 <= i < s.len() && (#[trigger] s[i]).ext_id == id1;
            let i2 = choose|i: int| 0 <= i < s.len() && (#[trigger] s[i]).ext_id == id2;
            lemma_entries_map_at(s, i1);
            lemma_entries_map_at(s, i2);
            if i1 != i2 {
                assert(s[i1].handle != s[i2].handle);
            }
        }
        assert forall|id: u32, h: u64| m.contains_key(id) && m[id] == h implies rev_of(
            m,
        ).contains_key(h) && rev_of(m)[h] == id by {
            assert(exists|id2: u32| m.contains_key(id2) && m[id2] == h);
        }
    }
}

} // verus!
