//! The engine core: one registry, one results buffer, and the executable
//! mutation interpreter, proved to mean exactly what the specification
//! interpreter says.

use crate::abi::STYLE_STRIDE;
use crate::actions::{ApplyOutcome, SolverAction, SpecAction, abstract_actions};
use crate::fbits::{f32_bits_of_u32, f32_bits_to_usize, u32_to_f32_bits};
use crate::interp::{
    ERR_CREATE_STYLE_OOB, ERR_CREATE_TRUNCATED, ERR_MISSING_ROOT, ERR_NODES_MISALIGNED,
    ERR_REMOVE_TRUNCATED, ERR_SET_CHILDREN_OOB, ERR_SET_CHILDREN_TRUNCATED,
    ERR_SET_CHILDREN_UNKNOWN_NODE, ERR_TREE_CYCLE, ERR_UNKNOWN_CHILD, ERR_UNKNOWN_OPCODE,
    ERR_UPDATE_STYLE_OOB, ERR_UPDATE_TRUNCATED, ERR_UPDATE_UNKNOWN_NODE, OP_CREATE_LEAF,
    OP_REMOVE_NODE, OP_SET_CHILDREN, OP_UPDATE_STYLE, ROOT_ID, STATUS_OK, all_children_known,
    bulk_bad_window, bulk_children_actions, bulk_create_actions, bulk_first_oob, bulk_model,
    bulk_plan, bulk_plan_with_tree_guard, halted, interp_and_plan, interp_from,
    lemma_bulk_children_snoc, lemma_bulk_create_snoc, parent_step, parents_after,
    plan_with_tree_guard, resolve_bulk, resolve_children, wire_children, with_action,
};
use crate::registry::{NodeRegistry, RegEntry, RegModel, rev_of};
use crate::tree::{ParentTable, strip_parent};
use crate::style::{PROP_CHILDREN_COUNT, PROP_CHILDREN_OFFSET, decode_style};
use vstd::prelude::*;

verus! {

broadcast use vstd::map::group_map_axioms, vstd::set::group_set_axioms;

/// One node's computed geometry as the driver reads it back from the solver:
/// the external id plus the raw float bits of x, y, width and height.
#[derive(Clone, Copy, PartialEq, Eq, Structural, Debug)]
pub struct LayoutRow {
    pub ext_id: u32,
    pub x_bits: u32,
    pub y_bits: u32,
    pub width_bits: u32,
    pub height_bits: u32,
}

/// One engine instance's verified state: the id registry, the parent table
/// mirroring the solver's tree, and the flat results buffer (held as raw
/// float bit patterns).
pub struct EngineCore {
    registry: NodeRegistry,
    tree: ParentTable,
    results: Vec<u32>,
}

impl EngineCore {
    /// The registry's mathematical model.
    pub closed spec fn reg_model(self) -> RegModel {
        self.registry.model()
    }

    /// Forward direction of the registry: external id to handle.
    pub open spec fn fwd(self) -> Map<u32, u64> {
        self.reg_model().fwd
    }

    /// The live registry pairs, in insertion order.
    pub closed spec fn entries(self) -> Seq<RegEntry> {
        self.registry.entries_seq()
    }

    /// Contents of the results buffer.
    pub closed spec fn results_bits(self) -> Seq<u32> {
        self.results@
    }

    /// The tree the planned actions have built so far: each wired node's
    /// unique parent handle.
    pub closed spec fn parents(self) -> Map<u64, u64> {
        self.tree.map()
    }

    /// The registry and parent-table invariants hold.
    pub closed spec fn wf(self) -> bool {
        self.registry.wf() && self.tree.wf()
    }

    /// A fresh engine: no nodes, nothing wired, empty results.
    pub fn new() -> (r: EngineCore)
        ensures
            r.wf(),
            r.fwd() == Map::<u32, u64>::empty(),
            r.reg_model().next == 0,
            r.parents() == Map::<u64, u64>::empty(),
            r.results_bits() == Seq::<u32>::empty(),
    {
        EngineCore { registry: NodeRegistry::new(), tree: ParentTable::new(), results: Vec::new() }
    }

    /// Apply one ordered instruction stream and plan the solver work.
    ///
    /// Processing is strictly sequential: on the first malformed instruction
    /// the call halts with that instruction's code, and everything applied
    /// before it stays applied — the returned actions are exactly the applied
    /// prefix, which the driver replays whatever the status. On a fully
    /// consumed stream, a live root is demanded, and the tree the actions
    /// built is held against it: a root wired onto a cycle would make the
    /// layout computation recurse without bound, so such a call returns the
    /// cycle code and plans no computation — the mutations stay applied. The
    /// whole outcome is `plan_with_tree_guard` of the inputs, and nothing
    /// else.
    ///
    /// Two documented resource gaps are deliberate: recreating a live id
    /// orphans its old solver node without removing it, and removing a node
    /// does not recursively remove its former children.
    #[verifier::loop_isolation(false)]
    #[verifier::rlimit(100)]
    pub fn apply_ops(&mut self, ops: &[u32], styles: &[u32], children: &[u32]) -> (r: ApplyOutcome)
        requires
            old(self).wf(),
            old(self).reg_model().next + ops@.len() <= u64::MAX,
        ensures
            final(self).wf(),
            final(self).results_bits() == old(self).results_bits(),
            final(self).parents() == parents_after(
                old(self).parents(),
                abstract_actions(r.actions@),
            ),
            ({
                let out = plan_with_tree_guard(
                    old(self).reg_model(),
                    old(self).parents(),
                    ops@,
                    styles@,
                    children@,
                );
                &&& r.status == out.status
                &&& final(self).reg_model() == out.model
                &&& abstract_actions(r.actions@) == out.actions
            }),
    {
        let ghost m0 = old(self).reg_model();
        let ghost t0 = old(self).parents();
        let ghost full = interp_from(m0, ops@, styles@, children@, 0);
        let mut acts: Vec<SolverAction> = Vec::new();
        let mut i: usize = 0;
        let n: usize = ops.len();
        proof {
            assert(abstract_actions(acts@) =~= Seq::<SpecAction>::empty());
            assert(full.actions =~= abstract_actions(acts@) + full.actions);
            reveal_with_fuel(parents_after, 1);
            assert(parents_after(t0, abstract_actions(acts@)) == t0);
        }
        while i < n
            invariant
                i <= n,
                self.registry.wf(),
                self.tree.wf(),
                self.results@ == old(self).results_bits(),
                self.reg_model().next + (n - i) <= u64::MAX,
                self.tree.map() == parents_after(t0, abstract_actions(acts@)),
                ({
                    let rest = interp_from(self.reg_model(), ops@, styles@, children@, i as int);
                    &&& full.status == rest.status
                    &&& full.model == rest.model
                    &&& full.actions == abstract_actions(acts@) + rest.actions
                }),
            decreases n - i,
        {
            let ghost m_cur = self.reg_model();
            let ghost rest_cur = interp_from(m_cur, ops@, styles@, children@, i as int);
            let ghost acts0 = acts@;
            let op = ops[i];
            if op == OP_CREATE_LEAF {
                if n - i < 3 {
                    proof {
                        assert(rest_cur == halted(ERR_CREATE_TRUNCATED, m_cur));
                        assert(full.actions =~= abstract_actions(acts@));
                    }
                    return ApplyOutcome { status: ERR_CREATE_TRUNCATED, actions: acts };
                }
                let id = ops[i + 1];
                let off32 = ops[i + 2];
                if off32 as u64 + STYLE_STRIDE as u64 > styles.len() as u64 {
                    proof {
                        assert(rest_cur == halted(ERR_CREATE_STYLE_OOB, m_cur));
                        assert(full.actions =~= abstract_actions(acts@));
                    }
                    return ApplyOutcome { status: ERR_CREATE_STYLE_OOB, actions: acts };
                }
                let style = decode_style(styles, off32 as usize);
                let h = self.registry.insert_fresh(id);
                acts.push(SolverAction::CreateLeaf { handle: h, style });
                proof {
                    let a = SpecAction::CreateLeaf { handle: h, style };
                    crate::interp::lemma_parents_after_snoc(t0, abstract_actions(acts0), a);
                    let m2 = RegModel { fwd: m_cur.fwd.insert(id, h), next: (m_cur.next + 1) as u64 };
                    assert(self.reg_model() == m2);
                    let rest_next = interp_from(m2, ops@, styles@, children@, i + 3);
                    assert(rest_cur == with_action(a, rest_next));
                    assert(abstract_actions(acts@) =~= abstract_actions(acts0).push(a));
                    assert(abstract_actions(acts0) + (seq![a] + rest_next.actions)
                        =~= abstract_actions(acts@) + rest_next.actions);
                }
                i = i + 3;
            } else if op == OP_UPDATE_STYLE {
                if n - i < 3 {
                    proof {
                        assert(rest_cur == halted(ERR_UPDATE_TRUNCATED, m_cur));
                        assert(full.actions =~= abstract_actions(acts@));
                    }
                    return ApplyOutcome { status: ERR_UPDATE_TRUNCATED, actions: acts };
                }
                let id = ops[i + 1];
                let off32 = ops[i + 2];
                if off32 as u64 + STYLE_STRIDE as u64 > styles.len() as u64 {
                    proof {
                        assert(rest_cur == halted(ERR_UPDATE_STYLE_OOB, m_cur));
                        assert(full.actions =~= abstract_actions(acts@));
                    }
                    return ApplyOutcome { status: ERR_UPDATE_STYLE_OOB, actions: acts };
                }
                match self.registry.lookup(id) {
                    None => {
                        proof {
                            assert(rest_cur == halted(ERR_UPDATE_UNKNOWN_NODE, m_cur));
                            assert(full.actions =~= abstract_actions(acts@));
                        }
                        return ApplyOutcome { status: ERR_UPDATE_UNKNOWN_NODE, actions: acts };
                    },
                    Some(h) => {
                        let style = decode_style(styles, off32 as usize);
                        acts.push(SolverAction::SetStyle { handle: h, style });
                        proof {
                            let a = SpecAction::SetStyle { handle: h, style };
                            crate::interp::lemma_parents_after_snoc(t0, abstract_actions(acts0), a);
                            let rest_next = interp_from(m_cur, ops@, styles@, children@, i + 3);
                            assert(rest_cur == with_action(a, rest_next));
                            assert(abstract_actions(acts@) =~= abstract_actions(acts0).push(a));
                            assert(abstract_actions(acts0) + (seq![a] + rest_next.actions)
                                =~= abstract_actions(acts@) + rest_next.actions);
                        }
                        i = i + 3;
                    },
                }
            } else if op == OP_SET_CHILDREN {
                if n - i < 4 {
                    proof {
                        assert(rest_cur == halted(ERR_SET_CHILDREN_TRUNCATED, m_cur));
                        assert(full.actions =~= abstract_actions(acts@));
                    }
                    return ApplyOutcome { status: ERR_SET_CHILDREN_TRUNCATED, actions: acts };
                }
                let id = ops[i + 1];
                let off32 = ops[i + 2];
                let cnt32 = ops[i + 3];
                let parent = match self.registry.lookup(id) {
                    None => {
                        proof {
                            assert(rest_cur == halted(ERR_SET_CHILDREN_UNKNOWN_NODE, m_cur));
                            assert(full.actions =~= abstract_actions(acts@));
                        }
                        return ApplyOutcome {
                            status: ERR_SET_CHILDREN_UNKNOWN_NODE,
                            actions: acts,
                        };
                    },
                    Some(h) => h,
                };
                if off32 as u64 + cnt32 as u64 > children.len() as u64 {
                    proof {
                        assert(rest_cur == halted(ERR_SET_CHILDREN_OOB, m_cur));
                        assert(full.actions =~= abstract_actions(acts@));
                    }
                    return ApplyOutcome { status: ERR_SET_CHILDREN_OOB, actions: acts };
                }
                let off = off32 as usize;
                let cnt = cnt32 as usize;
                let ghost ids = children@.subrange(off as int, off as int + cnt as int);
                let mut kids: Vec<u64> = Vec::new();
                let mut j: usize = 0;
                while j < cnt
                    invariant
                        j <= cnt,
                        kids@.len() == j,
                        forall|k: int|
                            0 <= k < j ==> m_cur.fwd.contains_key(#[trigger] ids[k]) && kids@[k]
                                == m_cur.fwd[ids[k]],
                    decreases cnt - j,
                {
                    let cid = children[off + j];
                    proof {
                        assert(ids[j as int] == cid);
                    }
                    match self.registry.lookup(cid) {
                        None => {
                            proof {
                                assert(!all_children_known(m_cur.fwd, ids));
                                assert(rest_cur == halted(ERR_UNKNOWN_CHILD, m_cur));
                                assert(full.actions =~= abstract_actions(acts@));
                            }
                            return ApplyOutcome { status: ERR_UNKNOWN_CHILD, actions: acts };
                        },
                        Some(ch) => {
                            kids.push(ch);
                        },
                    }
                    j = j + 1;
                }
                proof {
                    assert(all_children_known(m_cur.fwd, ids));
                    assert(kids@ =~= resolve_children(m_cur.fwd, ids));
                }
                let ghost t_pre = self.tree.map();
                let ghost reg_snap = self.registry;
                self.tree.strip_parent_links(parent);
                proof {
                    reveal_with_fuel(wire_children, 1);
                }
                let mut w: usize = 0;
                while w < kids.len()
                    invariant
                        w <= kids@.len(),
                        self.registry == reg_snap,
                        self.results@ == old(self).results_bits(),
                        self.tree.wf(),
                        wire_children(strip_parent(t_pre, parent), kids@, parent, 0)
                            == wire_children(self.tree.map(), kids@, parent, w as int),
                    decreases kids@.len() - w,
                {
                    self.tree.insert(kids[w], parent);
                    proof {
                        reveal_with_fuel(wire_children, 1);
                    }
                    w = w + 1;
                }
                proof {
                    reveal_with_fuel(wire_children, 1);
                    assert(self.tree.map() == wire_children(strip_parent(t_pre, parent), kids@, parent, 0));
                }
                acts.push(SolverAction::SetChildren { handle: parent, children: kids });
                proof {
                    let a = SpecAction::SetChildren {
                        handle: parent,
                        children: resolve_children(m_cur.fwd, ids),
                    };
                    crate::interp::lemma_parents_after_snoc(t0, abstract_actions(acts0), a);
                    assert(parent_step(t_pre, a) == self.tree.map());
                    let rest_next = interp_from(m_cur, ops@, styles@, children@, i + 4);
                    assert(rest_cur == with_action(a, rest_next));
                    assert(abstract_actions(acts@) =~= abstract_actions(acts0).push(a));
                    assert(abstract_actions(acts0) + (seq![a] + rest_next.actions)
                        =~= abstract_actions(acts@) + rest_next.actions);
                }
                i = i + 4;
            } else if op == OP_REMOVE_NODE {
                if n - i < 2 {
                    proof {
                        assert(rest_cur == halted(ERR_REMOVE_TRUNCATED, m_cur));
                        assert(full.actions =~= abstract_actions(acts@));
                    }
                    return ApplyOutcome { status: ERR_REMOVE_TRUNCATED, actions: acts };
                }
                let id = ops[i + 1];
                match self.registry.remove(id) {
                    Some(h) => {
                        self.tree.remove(h);
                        self.tree.strip_parent_links(h);
                        acts.push(SolverAction::RemoveNode { handle: h });
                        proof {
                            let a = SpecAction::RemoveNode { handle: h };
                            crate::interp::lemma_parents_after_snoc(t0, abstract_actions(acts0), a);
                            let m2 = RegModel { fwd: m_cur.fwd.remove(id), next: m_cur.next };
                            assert(self.reg_model() == m2);
                            let rest_next = interp_from(m2, ops@, styles@, children@, i + 2);
                            assert(rest_cur == with_action(a, rest_next));
                            assert(abstract_actions(acts@) =~= abstract_actions(acts0).push(a));
                            assert(abstract_actions(acts0) + (seq![a] + rest_next.actions)
                                =~= abstract_actions(acts@) + rest_next.actions);
                        }
                    },
                    None => {
                        proof {
                            assert(rest_cur == interp_from(
                                m_cur,
                                ops@,
                                styles@,
                                children@,
                                i + 2,
                            ));
                        }
                    },
                }
                i = i + 2;
            } else {
                proof {
                    assert(rest_cur == halted(ERR_UNKNOWN_OPCODE, m_cur));
                    assert(full.actions =~= abstract_actions(acts@));
                }
                return ApplyOutcome { status: ERR_UNKNOWN_OPCODE, actions: acts };
            }
        }
        proof {
            assert(interp_from(self.reg_model(), ops@, styles@, children@, n as int) == halted(
                STATUS_OK,
                self.reg_model(),
            ));
            assert(full.actions =~= abstract_actions(acts@));
        }
        match self.registry.lookup(ROOT_ID) {
            Some(root) => {
                proof {
                    let out = interp_and_plan(m0, ops@, styles@, children@);
                    assert(out.actions.drop_last() =~= abstract_actions(acts@));
                }
                if self.tree.root_cycle_check(root) {
                    return ApplyOutcome { status: ERR_TREE_CYCLE, actions: acts };
                }
                let ghost acts0 = acts@;
                acts.push(SolverAction::ComputeLayout { root });
                proof {
                    let a = SpecAction::ComputeLayout { root };
                    assert(abstract_actions(acts@) =~= abstract_actions(acts0).push(a));
                    crate::interp::lemma_parents_after_snoc(t0, abstract_actions(acts0), a);
                }
                ApplyOutcome { status: STATUS_OK, actions: acts }
            },
            None => ApplyOutcome { status: ERR_MISSING_ROOT, actions: acts },
        }
    }

    /// Full rebuild from flat buffers: the legacy bulk entry point, kept for
    /// bulk initialization. Rejects a node buffer whose length is no multiple
    /// of the style stride; otherwise clears everything, creates one leaf per
    /// record (record `i` registered under external id `i`), then wires
    /// children per record — a referenced id outside the record range is
    /// silently dropped, and a record whose nonempty child window runs past
    /// the child buffer halts the call with the out-of-bounds code, the
    /// mutations so far staying applied. With every window in bounds the call
    /// plans the layout computation at the root — which is missing exactly
    /// when the buffer is empty — under the same tree guard as the
    /// incremental path: a root wired onto a cycle returns the cycle code
    /// instead of planning the computation.
    #[verifier::loop_isolation(false)]
    #[verifier::rlimit(100)]
    pub fn rebuild_from_buffers(&mut self, nodes: &[u32], children: &[u32]) -> (r: ApplyOutcome)
        requires
            old(self).wf(),
            nodes@.len() <= 28 * 0x1_0000_0000,
        ensures
            final(self).wf(),
            final(self).results_bits() == old(self).results_bits(),
            final(self).parents() == parents_after(
                old(self).parents(),
                abstract_actions(r.actions@),
            ),
            ({
                let out = bulk_plan_with_tree_guard(
                    old(self).reg_model(),
                    old(self).parents(),
                    nodes@,
                    children@,
                );
                &&& r.status == out.status
                &&& final(self).reg_model() == out.model
                &&& abstract_actions(r.actions@) == out.actions
            }),
    {
        let ghost t0 = old(self).parents();
        let n: usize = nodes.len();
        let stride: usize = 28;
        if n % stride != 0 {
            proof {
                assert(abstract_actions(Seq::<SolverAction>::empty())
                    =~= Seq::<SpecAction>::empty());
                reveal_with_fuel(parents_after, 1);
                assert(parents_after(t0, Seq::<SpecAction>::empty()) == t0);
            }
            return ApplyOutcome { status: ERR_NODES_MISALIGNED, actions: Vec::new() };
        }
        let count: usize = n / stride;
        proof {
            vstd::arithmetic::div_mod::lemma_fundamental_div_mod(n as int, 28);
            assert(n as int == 28 * count as int);
            assert(count as int <= 0x1_0000_0000) by (nonlinear_arith)
                requires
                    n as int == 28 * count as int,
                    n as int <= 28 * 0x1_0000_0000,
            ;
        }
        self.registry.clear();
        self.tree.clear();
        let mut acts: Vec<SolverAction> = Vec::new();
        acts.push(SolverAction::ClearTree);
        proof {
            assert(abstract_actions(acts@) =~= seq![SpecAction::ClearTree] + bulk_create_actions(
                nodes@,
                0,
                0,
            ));
            assert(self.reg_model().fwd =~= bulk_model(0).fwd);
            assert(self.reg_model() == bulk_model(0));
            reveal_with_fuel(parents_after, 1);
            assert(abstract_actions(acts@) =~= Seq::<SpecAction>::empty().push(
                SpecAction::ClearTree,
            ));
            crate::interp::lemma_parents_after_snoc(
                t0,
                Seq::<SpecAction>::empty(),
                SpecAction::ClearTree,
            );
            assert(self.tree.map() == parents_after(t0, abstract_actions(acts@)));
        }
        let mut i: usize = 0;
        while i < count
            invariant
                i <= count,
                self.registry.wf(),
                self.tree.wf(),
                self.results@ == old(self).results_bits(),
                self.reg_model() == bulk_model(i as int),
                self.tree.map() == parents_after(t0, abstract_actions(acts@)),
                abstract_actions(acts@) == seq![SpecAction::ClearTree] + bulk_create_actions(
                    nodes@,
                    0,
                    i as int,
                ),
            decreases count - i,
        {
            proof {
                assert((i as int) * 28 + 28 <= n as int) by (nonlinear_arith)
                    requires
                        0 <= i as int,
                        (i as int) < count as int,
                        n as int == 28 * count as int,
                ;
            }
            let off: usize = i * stride;
            let style = decode_style(nodes, off);
            let h = self.registry.insert_fresh(i as u32);
            let ghost acts0 = acts@;
            acts.push(SolverAction::CreateLeaf { handle: h, style });
            proof {
                let k = i as int;
                assert(bulk_model(k + 1).fwd =~= bulk_model(k).fwd.insert(i as u32, i as u64));
                assert(self.reg_model() == bulk_model(k + 1));
                crate::interp::lemma_parents_after_snoc(
                    t0,
                    abstract_actions(acts0),
                    SpecAction::CreateLeaf {
                        handle: i as u64,
                        style: crate::style::spec_decode_style(
                            crate::style::record_at(nodes@, 28 * k),
                        ),
                    },
                );
                lemma_bulk_create_snoc(nodes@, 0, k);
                let a = SpecAction::CreateLeaf {
                    handle: i as u64,
                    style: crate::style::spec_decode_style(
                        crate::style::record_at(nodes@, 28 * k),
                    ),
                };
                assert(abstract_actions(acts@) =~= abstract_actions(acts0).push(a));
                assert(seq![SpecAction::ClearTree] + bulk_create_actions(nodes@, 0, k).push(a)
                    =~= (seq![SpecAction::ClearTree] + bulk_create_actions(nodes@, 0, k)).push(a));
            }
            i = i + 1;
        }
        let ghost creates = seq![SpecAction::ClearTree] + bulk_create_actions(
            nodes@,
            0,
            count as int,
        );
        let mut t: usize = 0;
        proof {
            assert(bulk_children_actions(nodes@, children@, 0, 0, count as int)
                =~= Seq::<SpecAction>::empty());
            assert(creates + Seq::<SpecAction>::empty() =~= creates);
        }
        while t < count
            invariant
                t <= count,
                self.registry.wf(),
                self.tree.wf(),
                self.results@ == old(self).results_bits(),
                self.reg_model() == bulk_model(count as int),
                self.tree.map() == parents_after(t0, abstract_actions(acts@)),
                bulk_first_oob(nodes@, children@, 0, count as int) == bulk_first_oob(
                    nodes@,
                    children@,
                    t as int,
                    count as int,
                ),
                abstract_actions(acts@) == creates + bulk_children_actions(
                    nodes@,
                    children@,
                    0,
                    t as int,
                    count as int,
                ),
            decreases count - t,
        {
            proof {
                assert((t as int) * 28 + 28 <= n as int) by (nonlinear_arith)
                    requires
                        0 <= t as int,
                        (t as int) < count as int,
                        n as int == 28 * count as int,
                ;
            }
            let cc: usize = f32_bits_to_usize(nodes[t * stride + PROP_CHILDREN_COUNT]);
            proof {
                assert(crate::interp::bulk_cc(nodes@, t as int) == cc as int);
            }
            if cc > 0 {
                let coff: usize = f32_bits_to_usize(nodes[t * stride + PROP_CHILDREN_OFFSET]);
                let clen: usize = children.len();
                proof {
                    assert(crate::interp::bulk_off(nodes@, t as int) == coff as int);
                }
                if coff as u128 + cc as u128 > clen as u128 {
                    proof {
                        assert(bulk_bad_window(nodes@, children@, t as int));
                        assert(bulk_first_oob(nodes@, children@, t as int, count as int)
                            == t as int);
                    }
                    return ApplyOutcome { status: ERR_SET_CHILDREN_OOB, actions: acts };
                }
                proof {
                    assert(!bulk_bad_window(nodes@, children@, t as int));
                    assert(coff as int + cc as int <= clen as int);
                }
                let ghost ids = children@.subrange(coff as int, coff as int + cc as int);
                let mut kids: Vec<u64> = Vec::new();
                let mut j: usize = 0;
                proof {
                    assert(Seq::<u64>::empty() + resolve_bulk(ids, count as int, 0)
                        =~= resolve_bulk(ids, count as int, 0));
                }
                while j < cc
                    invariant
                        j <= cc,
                        kids@.len() <= j,
                        resolve_bulk(ids, count as int, 0) == kids@ + resolve_bulk(
                            ids,
                            count as int,
                            j as int,
                        ),
                    decreases cc - j,
                {
                    let cid = children[coff + j];
                    proof {
                        assert(ids[j as int] == cid);
                    }
                    let ghost kids0 = kids@;
                    match self.registry.lookup(cid) {
                        Some(hh) => {
                            kids.push(hh);
                            proof {
                                assert((cid as int) < count as int);
                                assert(hh == cid as u64);
                                assert(resolve_bulk(ids, count as int, j as int) == seq![
                                    cid as u64,
                                ] + resolve_bulk(ids, count as int, j as int + 1));
                                assert(kids0 + (seq![cid as u64] + resolve_bulk(
                                    ids,
                                    count as int,
                                    j as int + 1,
                                )) =~= kids@ + resolve_bulk(ids, count as int, j as int + 1));
                            }
                        },
                        None => {
                            proof {
                                assert(!((cid as int) < count as int));
                                assert(resolve_bulk(ids, count as int, j as int) == resolve_bulk(
                                    ids,
                                    count as int,
                                    j as int + 1,
                                ));
                            }
                        },
                    }
                    j = j + 1;
                }
                proof {
                    assert(resolve_bulk(ids, count as int, cc as int) =~= Seq::<u64>::empty());
                    assert(kids@ + Seq::<u64>::empty() =~= kids@);
                    assert(kids@ == resolve_bulk(ids, count as int, 0));
                }
                let ghost t_pre = self.tree.map();
                let ghost reg_snap = self.registry;
                let parent_h: u64 = t as u64;
                self.tree.strip_parent_links(parent_h);
                proof {
                    reveal_with_fuel(wire_children, 1);
                }
                let mut w: usize = 0;
                while w < kids.len()
                    invariant
                        w <= kids@.len(),
                        self.registry == reg_snap,
                        self.results@ == old(self).results_bits(),
                        self.tree.wf(),
                        wire_children(strip_parent(t_pre, parent_h), kids@, parent_h, 0)
                            == wire_children(self.tree.map(), kids@, parent_h, w as int),
                    decreases kids@.len() - w,
                {
                    self.tree.insert(kids[w], parent_h);
                    proof {
                        reveal_with_fuel(wire_children, 1);
                    }
                    w = w + 1;
                }
                proof {
                    reveal_with_fuel(wire_children, 1);
                    assert(self.tree.map() == wire_children(
                        strip_parent(t_pre, parent_h),
                        kids@,
                        parent_h,
                        0,
                    ));
                }
                let ghost acts0 = acts@;
                acts.push(SolverAction::SetChildren { handle: t as u64, children: kids });
                proof {
                    lemma_bulk_children_snoc(nodes@, children@, 0, t as int, count as int);
                    let a = SpecAction::SetChildren {
                        handle: t as u64,
                        children: resolve_bulk(ids, count as int, 0),
                    };
                    crate::interp::lemma_parents_after_snoc(t0, abstract_actions(acts0), a);
                    assert(parent_step(t_pre, a) == self.tree.map());
                    assert(abstract_actions(acts@) =~= abstract_actions(acts0).push(a));
                    assert(creates + bulk_children_actions(
                        nodes@,
                        children@,
                        0,
                        t as int,
                        count as int,
                    ).push(a) =~= (creates + bulk_children_actions(
                        nodes@,
                        children@,
                        0,
                        t as int,
                        count as int,
                    )).push(a));
                }
            } else {
                proof {
                    assert(!bulk_bad_window(nodes@, children@, t as int));
                    lemma_bulk_children_snoc(nodes@, children@, 0, t as int, count as int);
                }
            }
            proof {
                assert(bulk_first_oob(nodes@, children@, t as int, count as int) == bulk_first_oob(
                    nodes@,
                    children@,
                    t as int + 1,
                    count as int,
                ));
            }
            t = t + 1;
        }
        proof {
            assert(bulk_first_oob(nodes@, children@, count as int, count as int) == count as int);
        }
        if count == 0 {
            return ApplyOutcome { status: ERR_MISSING_ROOT, actions: acts };
        }
        proof {
            let out = bulk_plan(old(self).reg_model(), nodes@, children@);
            assert(out.actions.drop_last() =~= abstract_actions(acts@));
        }
        if self.tree.root_cycle_check(0) {
            return ApplyOutcome { status: ERR_TREE_CYCLE, actions: acts };
        }
        let ghost acts0 = acts@;
        acts.push(SolverAction::ComputeLayout { root: 0 });
        proof {
            let a = SpecAction::ComputeLayout { root: 0u64 };
            assert(abstract_actions(acts@) =~= abstract_actions(acts0).push(a));
            crate::interp::lemma_parents_after_snoc(t0, abstract_actions(acts0), a);
        }
        ApplyOutcome { status: STATUS_OK, actions: acts }
    }

    /// The live (external id, handle) pairs the results extractor walks:
    /// exactly one entry per pair of the bidirectional mapping.
    pub fn live_entries(&self) -> (v: &Vec<RegEntry>)
        ensures
            v@ == self.entries(),
    {
        self.registry.entries_ref()
    }

    /// Number of live nodes.
    pub fn node_count(&self) -> (n: usize)
        ensures
            n == self.entries().len(),
    {
        self.registry.count()
    }

    /// The next fresh handle; the headroom a mutation call's caller checks.
    pub fn next_handle(&self) -> (h: u64)
        ensures
            h == self.reg_model().next,
    {
        self.registry.next_handle_value()
    }

    /// Rewrite the results buffer from the geometry rows the driver gathered:
    /// cleared and rewritten in place on every call, never appended. Each row
    /// becomes five fields — the float-encoded external id, then x, y, width,
    /// height — so the buffer length is always five times the row count.
    pub fn store_results(&mut self, rows: &Vec<LayoutRow>)
        requires
            old(self).wf(),
        ensures
            final(self).wf(),
            final(self).reg_model() == old(self).reg_model(),
            final(self).entries() == old(self).entries(),
            final(self).parents() == old(self).parents(),
            final(self).results_bits().len() == 5 * rows@.len(),
            forall|j: int|
                0 <= j < rows@.len() ==> {
                    &&& final(self).results_bits()[5 * j] == f32_bits_of_u32(
                        (#[trigger] rows@[j]).ext_id,
                    )
                    &&& final(self).results_bits()[5 * j + 1] == rows@[j].x_bits
                    &&& final(self).results_bits()[5 * j + 2] == rows@[j].y_bits
                    &&& final(self).results_bits()[5 * j + 3] == rows@[j].width_bits
                    &&& final(self).results_bits()[5 * j + 4] == rows@[j].height_bits
                },
    {
        self.results.clear();
        let mut j: usize = 0;
        while j < rows.len()
            invariant
                j <= rows@.len(),
                self.registry == old(self).registry,
                self.tree == old(self).tree,
                self.results@.len() == 5 * j,
                forall|k: int|
                    0 <= k < j ==> {
                        &&& self.results@[5 * k] == f32_bits_of_u32((#[trigger] rows@[k]).ext_id)
                        &&& self.results@[5 * k + 1] == rows@[k].x_bits
                        &&& self.results@[5 * k + 2] == rows@[k].y_bits
                        &&& self.results@[5 * k + 3] == rows@[k].width_bits
                        &&& self.results@[5 * k + 4] == rows@[k].height_bits
                    },
            decreases rows@.len() - j,
        {
            let row = rows[j];
            self.results.push(u32_to_f32_bits(row.ext_id));
            self.results.push(row.x_bits);
            self.results.push(row.y_bits);
            self.results.push(row.width_bits);
            self.results.push(row.height_bits);
            j = j + 1;
        }
    }

    /// Current length of the results buffer, in 32-bit fields.
    pub fn results_len(&self) -> (n: usize)
        ensures
            n == self.results_bits().len(),
    {
        self.results.len()
    }

    /// The results buffer itself; valid only until the next mutating call.
    pub fn results_ref(&self) -> (r: &Vec<u32>)
        ensures
            r@ == self.results_bits(),
    {
        &self.results
    }

    /// Each live entry is one pair of the forward mapping, every mapped id
    /// has its entry, and no id or handle repeats.
    pub proof fn lemma_entries_reflect_fwd(self)
        requires
            self.wf(),
        ensures
            forall|i: int|
                0 <= i < self.entries().len() ==> self.fwd().contains_key(
                    (#[trigger] self.entries()[i]).ext_id,
                ) && self.fwd()[self.entries()[i].ext_id] == self.entries()[i].handle,
            forall|id: u32| #[trigger]
                self.fwd().contains_key(id) ==> exists|i: int|
                    0 <= i < self.entries().len() && (#[trigger] self.entries()[i]).ext_id == id,
            self.fwd().dom().finite(),
            self.fwd().dom().len() == self.entries().len(),
    {
        self.registry.lemma_entries_reflect_fwd();
        assert(self.fwd() == self.registry.fwd());
        assert forall|id: u32| #[trigger] self.fwd().contains_key(id) implies exists|i: int|
            0 <= i < self.entries().len() && (#[trigger] self.entries()[i]).ext_id == id by {
            let s = self.registry.entries_seq();
            assert(self.registry.fwd().contains_key(id));
            assert(crate::registry::has_ext_id(s, id));
            let i = choose|i: int| 0 <= i < s.len() && (#[trigger] s[i]).ext_id == id;
            assert(0 <= i < self.entries().len() && self.entries()[i].ext_id == id);
        }
    }

    /// The standing invariant of the bidirectional mapping: the reverse
    /// direction is the exact inverse of the forward direction.
    pub proof fn lemma_maps_inverse(self)
        requires
            self.wf(),
        ensures
            forall|id: u32, h: u64|
                (#[trigger] self.fwd().contains_key(id) && self.fwd()[id] == h) <==> (
                #[trigger] rev_of(self.fwd()).contains_key(h) && rev_of(self.fwd())[h] == id),
    {
        self.registry.lemma_registry_maps_inverse();
        let m = self.registry.fwd();
        assert(self.fwd() == m);
        assert forall|id: u32, h: u64|
            (#[trigger] self.fwd().contains_key(id) && self.fwd()[id] == h) <==> (
            #[trigger] rev_of(self.fwd()).contains_key(h) && rev_of(self.fwd())[h] == id) by {
            assert((m.contains_key(id) && m[id] == h) <==> (rev_of(m).contains_key(h) && rev_of(
                m,
            )[h] == id));
        }
    }
}

} // verus!
