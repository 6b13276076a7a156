//! Meaning of the opcode stream: a specification-level interpreter.
//!
//! An instruction stream is a sequence of 32-bit words; each instruction is a
//! tag followed by a fixed number of operands. Processing is strictly
//! sequential: on the first malformed instruction the interpreter halts with
//! a distinct code, and everything applied before it stays applied — there is
//! no rollback. `interp_from` gives the meaning of the stream from a given
//! word onward; `interp_and_plan` adds the closing root check and layout
//! computation. The executable interpreter in the engine is proved to return
//! exactly this function of its inputs.

use crate::abi::STYLE_STRIDE;
use crate::actions::SpecAction;
use crate::fbits::f32_to_usize;
use crate::registry::RegModel;
use crate::style::{PROP_CHILDREN_COUNT, PROP_CHILDREN_OFFSET, record_at, spec_decode_style};
use crate::tree::{root_on_cycle, strip_parent};
use vstd::prelude::*;

verus! {

/// Success.
pub const STATUS_OK: i32 = 0;

/// The engine handle crossing the boundary was null.
pub const ERR_NULL_ENGINE: i32 = -1;

/// The node-style buffer length of the full rebuild is no multiple of the
/// style stride.
pub const ERR_NODES_MISALIGNED: i32 = -2;

/// No live node is registered under the reserved root id.
pub const ERR_MISSING_ROOT: i32 = -3;

/// Null node-style buffer pointer with a nonzero length (full rebuild).
pub const ERR_NULL_NODES_PTR: i32 = -4;

/// Null child-id buffer pointer with a nonzero length (full rebuild).
pub const ERR_NULL_CHILDREN_PTR_BULK: i32 = -5;

/// Null instruction buffer pointer with a nonzero length.
pub const ERR_NULL_OPS_PTR: i32 = -6;

/// Null style buffer pointer with a nonzero length.
pub const ERR_NULL_STYLES_PTR: i32 = -7;

/// Null child-id buffer pointer with a nonzero length.
pub const ERR_NULL_CHILDREN_PTR: i32 = -8;

/// A create instruction was cut off before its two operands.
pub const ERR_CREATE_TRUNCATED: i32 = -10;

/// A create instruction's style record runs past the style buffer.
pub const ERR_CREATE_STYLE_OOB: i32 = -11;

/// An update instruction was cut off before its two operands.
pub const ERR_UPDATE_TRUNCATED: i32 = -12;

/// An update instruction's style record runs past the style buffer.
pub const ERR_UPDATE_STYLE_OOB: i32 = -13;

/// An update instruction names an id with no live node.
pub const ERR_UPDATE_UNKNOWN_NODE: i32 = -14;

/// A set-children instruction was cut off before its three operands.
pub const ERR_SET_CHILDREN_TRUNCATED: i32 = -15;

/// A set-children instruction names a parent id with no live node.
pub const ERR_SET_CHILDREN_UNKNOWN_NODE: i32 = -16;

/// A children id list — of a set-children instruction, or of a full-rebuild
/// record's (offset, count) fields — runs past the child buffer.
pub const ERR_SET_CHILDREN_OOB: i32 = -17;

/// A set-children instruction references a child id with no live node.
pub const ERR_UNKNOWN_CHILD: i32 = -18;

/// A remove instruction was cut off before its operand.
pub const ERR_REMOVE_TRUNCATED: i32 = -19;

/// An instruction tag matches no opcode.
pub const ERR_UNKNOWN_OPCODE: i32 = -20;

/// The layout solver itself failed while the driver replayed the planned
/// actions; the solver's error is not swallowed but surfaces as this code.
pub const ERR_SOLVER_FAILURE: i32 = -21;

/// The instructions wired the root onto a cycle: computing the layout would
/// recurse without bound, so the call halts before planning it. The
/// mutations already applied stay applied.
pub const ERR_TREE_CYCLE: i32 = -22;

/// Instruction tags.
pub const OP_CREATE_LEAF: u32 = 1;

pub const OP_UPDATE_STYLE: u32 = 2;

pub const OP_SET_CHILDREN: u32 = 3;

pub const OP_REMOVE_NODE: u32 = 4;

/// Reserved external id of the tree root.
pub const ROOT_ID: u32 = 0;

/// Outcome of interpreting an instruction stream: the status, the registry
/// model after the applied prefix, and the solver actions of that prefix.
pub struct InterpOut {
    pub status: i32,
    pub model: RegModel,
    pub actions: Seq<SpecAction>,
}

/// Halt with `status`, leaving the model as it stands and no further actions.
pub open spec fn halted(status: i32, m: RegModel) -> InterpOut {
    InterpOut { status, model: m, actions: Seq::empty() }
}

/// Prepend one applied action to the outcome of the rest of the stream.
pub open spec fn with_action(a: SpecAction, rest: InterpOut) -> InterpOut {
    InterpOut { status: rest.status, model: rest.model, actions: seq![a] + rest.actions }
}

/// Every referenced child id has a live node.
pub open spec fn all_children_known(m: Map<u32, u64>, ids: Seq<u32>) -> bool {
    forall|j: int| 0 <= j < ids.len() ==> m.contains_key(#[trigger] ids[j])
}

/// The ordered handle list the referenced child ids resolve to.
pub open spec fn resolve_children(m: Map<u32, u64>, ids: Seq<u32>) -> Seq<u64> {
    Seq::new(ids.len(), |j: int| m[ids[j]])
}

/// Meaning of the instruction stream from word `i` on, starting at registry
/// model `m`. The model's `next` field advances by one per created node;
/// callers keep it clear of overflow.
pub open spec fn interp_from(
    m: RegModel,
    ops: Seq<u32>,
    styles: Seq<u32>,
    children: Seq<u32>,
    i: int,
) -> InterpOut
    decreases ops.len() - i,
{
    if i < 0 || i >= ops.len() {
        halted(STATUS_OK, m)
    } else {
        let op = ops[i];
        if op == OP_CREATE_LEAF {
            if i + 3 > ops.len() {
                halted(ERR_CREATE_TRUNCATED, m)
            } else {
                let off = ops[i + 2] as int;
                if off + STYLE_STRIDE as int > styles.len() {
                    halted(ERR_CREATE_STYLE_OOB, m)
                } else {
                    let style = spec_decode_style(record_at(styles, off));
                    let h = m.next;
                    let m2 = RegModel {
                        fwd: m.fwd.insert(ops[i + 1], h),
                        next: (m.next + 1) as u64,
                    };
                    with_action(
                        SpecAction::CreateLeaf { handle: h, style },
                        interp_from(m2, ops, styles, children, i + 3),
                    )
                }
            }
        } else if op == OP_UPDATE_STYLE {
            if i + 3 > ops.len() {
                halted(ERR_UPDATE_TRUNCATED, m)
            } else {
                let id = ops[i + 1];
                let off = ops[i + 2] as int;
                if off + STYLE_STRIDE as int > styles.len() {
                    halted(ERR_UPDATE_STYLE_OOB, m)
                } else if !m.fwd.contains_key(id) {
                    halted(ERR_UPDATE_UNKNOWN_NODE, m)
                } else {
                    let style = spec_decode_style(record_at(styles, off));
                    with_action(
                        SpecAction::SetStyle { handle: m.fwd[id], style },
                        interp_from(m, ops, styles, children, i + 3),
                    )
                }
            }
        } else if op == OP_SET_CHILDREN {
            if i + 4 > ops.len() {
                halted(ERR_SET_CHILDREN_TRUNCATED, m)
            } else {
                let id = ops[i + 1];
                let off = ops[i + 2] as int;
                let cnt = ops[i + 3] as int;
                if !m.fwd.contains_key(id) {
                    halted(ERR_SET_CHILDREN_UNKNOWN_NODE, m)
                } else if off + cnt > children.len() {
                    halted(ERR_SET_CHILDREN_OOB, m)
                } else {
                    let ids = children.subrange(off, off + cnt);
                    if !all_children_known(m.fwd, ids) {
                        halted(ERR_UNKNOWN_CHILD, m)
                    } else {
                        with_action(
                            SpecAction::SetChildren {
                                handle: m.fwd[id],
                                children: resolve_children(m.fwd, ids),
                            },
                            interp_from(m, ops, styles, children, i + 4),
                        )
                    }
                }
            }
        } else if op == OP_REMOVE_NODE {
            if i + 2 > ops.len() {
                halted(ERR_REMOVE_TRUNCATED, m)
            } else {
                let id = ops[i + 1];
                if m.fwd.contains_key(id) {
                    let m2 = RegModel { fwd: m.fwd.remove(id), next: m.next };
                    with_action(
                        SpecAction::RemoveNode { handle: m.fwd[id] },
                        interp_from(m2, ops, styles, children, i + 2),
                    )
                } else {
                    interp_from(m, ops, styles, children, i + 2)
                }
            }
        } else {
            halted(ERR_UNKNOWN_OPCODE, m)
        }
    }
}

/// An update-style instruction naming an id with no live node fails with the
/// unknown-node code and mutates nothing: the registry stays exactly as it
/// was and no solver action is issued.
pub proof fn lemma_update_unknown_id_mutates_nothing(
    m: RegModel,
    t0: Map<u64, u64>,
    id: u32,
    off: u32,
    styles: Seq<u32>,
    children: Seq<u32>,
)
    requires
        !m.fwd.contains_key(id),
        off as int + STYLE_STRIDE as int <= styles.len(),
    ensures
        ({
            let out = plan_with_tree_guard(m, t0, seq![OP_UPDATE_STYLE, id, off], styles, children);
            &&& out.status == ERR_UPDATE_UNKNOWN_NODE
            &&& out.model == m
            &&& out.actions == Seq::<SpecAction>::empty()
        }),
{
    let ops = seq![OP_UPDATE_STYLE, id, off];
    assert(ops[0] == OP_UPDATE_STYLE && ops[1] == id && ops[2] == off && ops.len() == 3);
    assert(interp_from(m, ops, styles, children, 0) == halted(ERR_UPDATE_UNKNOWN_NODE, m));
}

/// A create instruction whose style record would run past the style buffer
/// fails with the out-of-bounds code and creates nothing: the registry stays
/// exactly as it was and no solver action is issued.
pub proof fn lemma_create_out_of_bounds_creates_nothing(
    m: RegModel,
    t0: Map<u64, u64>,
    id: u32,
    off: u32,
    styles: Seq<u32>,
    children: Seq<u32>,
)
    requires
        off as int + STYLE_STRIDE as int > styles.len(),
    ensures
        ({
            let out = plan_with_tree_guard(m, t0, seq![OP_CREATE_LEAF, id, off], styles, children);
            &&& out.status == ERR_CREATE_STYLE_OOB
            &&& out.model == m
            &&& out.actions == Seq::<SpecAction>::empty()
        }),
{
    let ops = seq![OP_CREATE_LEAF, id, off];
    assert(ops[0] == OP_CREATE_LEAF && ops[1] == id && ops[2] == off && ops.len() == 3);
    assert(interp_from(m, ops, styles, children, 0) == halted(ERR_CREATE_STYLE_OOB, m));
}

/// Creating a node and then immediately replacing its style with the same
/// record is the single create with one extra solver instruction: apply that
/// same decoded style to that same node once more. Status and final registry
/// are identical, so the computed geometry can only be what the single
/// create yields.
#[verifier::rlimit(80)]
pub proof fn lemma_create_then_update_same_style(
    m: RegModel,
    t0: Map<u64, u64>,
    id: u32,
    off: u32,
    styles: Seq<u32>,
    children: Seq<u32>,
)
    requires
        off as int + STYLE_STRIDE as int <= styles.len(),
        m.next < u64::MAX,
    ensures
        ({
            let once = plan_with_tree_guard(m, t0, seq![OP_CREATE_LEAF, id, off], styles, children);
            let twice = plan_with_tree_guard(
                m,
                t0,
                seq![OP_CREATE_LEAF, id, off, OP_UPDATE_STYLE, id, off],
                styles,
                children,
            );
            let style = spec_decode_style(record_at(styles, off as int));
            &&& twice.status == once.status
            &&& twice.model == once.model
            &&& twice.actions == once.actions.insert(
                1,
                SpecAction::SetStyle { handle: m.next, style },
            )
        }),
{
    let ops1 = seq![OP_CREATE_LEAF, id, off];
    let ops2 = seq![OP_CREATE_LEAF, id, off, OP_UPDATE_STYLE, id, off];
    let style = spec_decode_style(record_at(styles, off as int));
    let h = m.next;
    let m2 = RegModel { fwd: m.fwd.insert(id, h), next: (m.next + 1) as u64 };
    assert(ops1[0] == OP_CREATE_LEAF && ops1[1] == id && ops1[2] == off && ops1.len() == 3);
    assert(ops2[0] == OP_CREATE_LEAF && ops2[1] == id && ops2[2] == off && ops2[3]
        == OP_UPDATE_STYLE && ops2[4] == id && ops2[5] == off && ops2.len() == 6);
    let c = SpecAction::CreateLeaf { handle: h, style };
    let s = SpecAction::SetStyle { handle: h, style };
    assert(interp_from(m, ops1, styles, children, 0) == with_action(
        c,
        interp_from(m2, ops1, styles, children, 3),
    ));
    assert(interp_from(m2, ops1, styles, children, 3) == halted(STATUS_OK, m2));
    assert(interp_from(m, ops2, styles, children, 0) == with_action(
        c,
        interp_from(m2, ops2, styles, children, 3),
    ));
    assert(m2.fwd.contains_key(id) && m2.fwd[id] == h);
    assert(interp_from(m2, ops2, styles, children, 3) == with_action(
        s,
        interp_from(m2, ops2, styles, children, 6),
    ));
    assert(interp_from(m2, ops2, styles, children, 6) == halted(STATUS_OK, m2));
    let once = interp_and_plan(m, ops1, styles, children);
    let twice = interp_and_plan(m, ops2, styles, children);
    // Both calls build the same tree: creating a leaf and replacing a style
    // wire nothing, so the cycle guard judges both plans alike.
    reveal_with_fuel(parents_after, 1);
    assert(seq![c].drop_last() =~= Seq::<SpecAction>::empty());
    assert(parents_after(t0, Seq::<SpecAction>::empty()) == t0);
    assert(parents_after(t0, seq![c]) == t0);
    assert(seq![c, s].drop_last() =~= seq![c]);
    assert(parents_after(t0, seq![c, s]) == t0);
    if m2.fwd.contains_key(ROOT_ID) {
        let compute = SpecAction::ComputeLayout { root: m2.fwd[ROOT_ID] };
        assert(once.actions =~= seq![c, compute]);
        assert(twice.actions =~= seq![c, s, compute]);
        assert(twice.actions =~= once.actions.insert(1, s));
        assert(once.actions.drop_last() =~= seq![c]);
        assert(twice.actions.drop_last() =~= seq![c, s]);
        let gonce = plan_with_tree_guard(m, t0, ops1, styles, children);
        let gtwice = plan_with_tree_guard(m, t0, ops2, styles, children);
        if root_on_cycle(t0, m2.fwd[ROOT_ID]) {
            assert(gtwice.actions =~= gonce.actions.insert(1, s));
        }
    } else {
        assert(once.actions =~= seq![c]);
        assert(twice.actions =~= seq![c, s]);
        assert(twice.actions =~= once.actions.insert(1, s));
    }
}

/// Wire each of `kids` (from index `j` on) under parent `p`, each child
/// losing whatever parent it had. Opaque: wiring a symbolic list would
/// otherwise unfold without end; proofs reveal it child by child.
#[verifier::opaque]
pub open spec fn wire_children(t: Map<u64, u64>, kids: Seq<u64>, p: u64, j: int) -> Map<u64, u64>
    decreases kids.len() - j,
{
    if j < 0 || j >= kids.len() {
        t
    } else {
        wire_children(t.insert(kids[j], p), kids, p, j + 1)
    }
}

/// How one solver action changes the parent table, mirroring the solver's
/// single-parent tree: assigning children orphans the parent's previous
/// children and steals each new child from its old parent; removing a node
/// unwires it and orphans its children; a fresh leaf starts unwired.
pub open spec fn parent_step(t: Map<u64, u64>, a: SpecAction) -> Map<u64, u64> {
    match a {
        SpecAction::CreateLeaf { .. } => t,
        SpecAction::SetStyle { .. } => t,
        SpecAction::SetChildren { handle, children } => wire_children(
            strip_parent(t, handle),
            children,
            handle,
            0,
        ),
        SpecAction::RemoveNode { handle } => strip_parent(t.remove(handle), handle),
        SpecAction::ClearTree => Map::empty(),
        SpecAction::ComputeLayout { .. } => t,
    }
}

/// The parent table after a whole action list, applied in order. Opaque: a
/// fold over a symbolic list would otherwise unfold without end; proofs
/// reveal it action by action.
#[verifier::opaque]
pub open spec fn parents_after(t: Map<u64, u64>, actions: Seq<SpecAction>) -> Map<u64, u64>
    decreases actions.len(),
{
    if actions.len() == 0 {
        t
    } else {
        parent_step(parents_after(t, actions.drop_last()), actions.last())
    }
}

/// Appending one action to a list steps the folded parent table once.
pub proof fn lemma_parents_after_snoc(t: Map<u64, u64>, pre: Seq<SpecAction>, a: SpecAction)
    ensures
        parents_after(t, pre.push(a)) == parent_step(parents_after(t, pre), a),
{
    reveal_with_fuel(parents_after, 1);
    assert(pre.push(a).drop_last() =~= pre);
    assert(pre.push(a).last() == a);
}

/// One whole mutation call as the boundary performs it: interpret the stream
/// and, where the plain plan would close with a layout computation, first
/// hold the tree the actions built (from the parent table `t0` the engine
/// carried in) against the root — if the root lies on a cycle, the
/// computation would recurse without bound, so the call returns the cycle
/// code and plans no computation; the mutations stay applied either way.
pub open spec fn plan_with_tree_guard(
    m: RegModel,
    t0: Map<u64, u64>,
    ops: Seq<u32>,
    styles: Seq<u32>,
    children: Seq<u32>,
) -> InterpOut {
    let out = interp_and_plan(m, ops, styles, children);
    if out.status == STATUS_OK {
        let pre = out.actions.drop_last();
        if root_on_cycle(parents_after(t0, pre), out.model.fwd[ROOT_ID]) {
            InterpOut { status: ERR_TREE_CYCLE, model: out.model, actions: pre }
        } else {
            out
        }
    } else {
        out
    }
}

/// With only the root live, creating two leaves and wiring them as the
/// root's children succeeds and leaves exactly the ids {root, 1, 2} live;
/// removing id 2 afterwards succeeds and shrinks the live set to exactly
/// {root, 1}. The results extractor walks exactly the live set, so these are
/// the id sets a computation reports.
#[verifier::rlimit(80)]
pub proof fn lemma_result_set_tracks_live_nodes(
    m: RegModel,
    s1: u32,
    s2: u32,
    co: u32,
    styles: Seq<u32>,
    children: Seq<u32>,
)
    requires
        m.fwd.dom() == set![ROOT_ID],
        m.fwd[ROOT_ID] < m.next,
        m.next + 2 <= u64::MAX,
        s1 as int + STYLE_STRIDE as int <= styles.len(),
        s2 as int + STYLE_STRIDE as int <= styles.len(),
        co as int + 2 <= children.len(),
        children[co as int] == 1u32,
        children[co as int + 1] == 2u32,
    ensures
        ({
            let wire = plan_with_tree_guard(
                m,
                Map::<u64, u64>::empty(),
                seq![
                    OP_CREATE_LEAF,
                    1u32,
                    s1,
                    OP_CREATE_LEAF,
                    2u32,
                    s2,
                    OP_SET_CHILDREN,
                    ROOT_ID,
                    co,
                    2u32,
                ],
                styles,
                children,
            );
            let t1 = parents_after(Map::<u64, u64>::empty(), wire.actions);
            let shrunk = plan_with_tree_guard(
                wire.model,
                t1,
                seq![OP_REMOVE_NODE, 2u32],
                styles,
                children,
            );
            &&& wire.status == STATUS_OK
            &&& wire.model.fwd.dom() == set![ROOT_ID, 1u32, 2u32]
            &&& shrunk.status == STATUS_OK
            &&& shrunk.model.fwd.dom() == set![ROOT_ID, 1u32]
        }),
{
    broadcast use vstd::map::group_map_axioms, vstd::set::group_set_axioms;

    let ops = seq![
        OP_CREATE_LEAF,
        1u32,
        s1,
        OP_CREATE_LEAF,
        2u32,
        s2,
        OP_SET_CHILDREN,
        ROOT_ID,
        co,
        2u32,
    ];
    assert(ops[0] == OP_CREATE_LEAF && ops[1] == 1u32 && ops[2] == s1 && ops[3] == OP_CREATE_LEAF
        && ops[4] == 2u32 && ops[5] == s2 && ops[6] == OP_SET_CHILDREN && ops[7] == ROOT_ID
        && ops[8] == co && ops[9] == 2u32 && ops.len() == 10);
    let m1 = RegModel { fwd: m.fwd.insert(1u32, m.next), next: (m.next + 1) as u64 };
    let m2 = RegModel { fwd: m1.fwd.insert(2u32, m1.next), next: (m1.next + 1) as u64 };
    assert(m.fwd.contains_key(ROOT_ID));
    assert(m2.fwd.contains_key(ROOT_ID));
    let ids = children.subrange(co as int, co as int + 2);
    assert(ids[0] == 1u32 && ids[1] == 2u32 && ids.len() == 2);
    assert(all_children_known(m2.fwd, ids)) by {
        assert forall|j: int| 0 <= j < ids.len() implies m2.fwd.contains_key(
            #[trigger] ids[j],
        ) by {
            if j == 0 {
                assert(ids[j] == 1u32);
            } else {
                assert(ids[j] == 2u32);
            }
        }
    }
    assert(interp_from(m2, ops, styles, children, 10) == halted(STATUS_OK, m2));
    assert(interp_from(m2, ops, styles, children, 6) == with_action(
        SpecAction::SetChildren {
            handle: m2.fwd[ROOT_ID],
            children: resolve_children(m2.fwd, ids),
        },
        interp_from(m2, ops, styles, children, 10),
    ));
    assert(interp_from(m1, ops, styles, children, 3) == with_action(
        SpecAction::CreateLeaf {
            handle: m1.next,
            style: spec_decode_style(record_at(styles, s2 as int)),
        },
        interp_from(m2, ops, styles, children, 6),
    ));
    assert(interp_from(m, ops, styles, children, 0) == with_action(
        SpecAction::CreateLeaf {
            handle: m.next,
            style: spec_decode_style(record_at(styles, s1 as int)),
        },
        interp_from(m1, ops, styles, children, 3),
    ));
    assert(interp_from(m, ops, styles, children, 0).status == STATUS_OK);
    assert(interp_from(m, ops, styles, children, 0).model == m2);
    let wire = interp_and_plan(m, ops, styles, children);
    assert(wire.status == STATUS_OK && wire.model == m2);
    assert(m2.fwd.dom() =~= set![ROOT_ID, 1u32, 2u32]);

    let ops2 = seq![OP_REMOVE_NODE, 2u32];
    assert(ops2[0] == OP_REMOVE_NODE && ops2[1] == 2u32 && ops2.len() == 2);
    assert(m2.fwd.contains_key(2u32));
    let m3 = RegModel { fwd: m2.fwd.remove(2u32), next: m2.next };
    assert(interp_from(m3, ops2, styles, children, 2) == halted(STATUS_OK, m3));
    assert(interp_from(m2, ops2, styles, children, 0) == with_action(
        SpecAction::RemoveNode { handle: m2.fwd[2u32] },
        interp_from(m3, ops2, styles, children, 2),
    ));
    assert(m3.fwd.contains_key(ROOT_ID));
    let shrunk = interp_and_plan(m2, ops2, styles, children);
    assert(shrunk.status == STATUS_OK && shrunk.model == m3);
    assert(m3.fwd.dom() =~= set![ROOT_ID, 1u32]);

    // The tree both calls build is two leaves under the root: no cycle, so
    // the guard leaves both outcomes as planned.
    let hr = m.fwd[ROOT_ID];
    let h1 = m.next;
    let h2 = m1.next;
    let c1 = SpecAction::CreateLeaf {
        handle: h1,
        style: spec_decode_style(record_at(styles, s1 as int)),
    };
    let c2 = SpecAction::CreateLeaf {
        handle: h2,
        style: spec_decode_style(record_at(styles, s2 as int)),
    };
    let sc = SpecAction::SetChildren { handle: hr, children: resolve_children(m2.fwd, ids) };
    let compute = SpecAction::ComputeLayout { root: hr };
    assert(m2.fwd[ROOT_ID] == hr);
    assert(wire.actions =~= seq![c1, c2, sc, compute]);
    assert(wire.actions.drop_last() =~= seq![c1, c2, sc]);
    let e0 = Map::<u64, u64>::empty();
    reveal_with_fuel(parents_after, 1);
    assert(seq![c1].drop_last() =~= Seq::<SpecAction>::empty());
    assert(seq![c1, c2].drop_last() =~= seq![c1]);
    assert(seq![c1, c2, sc].drop_last() =~= seq![c1, c2]);
    assert(parents_after(e0, Seq::<SpecAction>::empty()) == e0);
    assert(parents_after(e0, seq![c1]) == e0);
    assert(parents_after(e0, seq![c1, c2]) == e0);
    assert(resolve_children(m2.fwd, ids)[0] == h1 && resolve_children(m2.fwd, ids)[1] == h2
        && resolve_children(m2.fwd, ids).len() == 2);
    let tw = e0.insert(h1, hr).insert(h2, hr);
    assert(parents_after(e0, seq![c1, c2, sc]) == tw) by {
        reveal_with_fuel(parents_after, 1);
        reveal_with_fuel(wire_children, 1);
        assert(strip_parent(e0, hr) =~= e0);
        assert(wire_children(e0, resolve_children(m2.fwd, ids), hr, 0) == wire_children(
            e0.insert(h1, hr),
            resolve_children(m2.fwd, ids),
            hr,
            1,
        ));
        assert(wire_children(e0.insert(h1, hr), resolve_children(m2.fwd, ids), hr, 1)
            == wire_children(tw, resolve_children(m2.fwd, ids), hr, 2));
    }
    assert(hr != h1 && hr != h2);
    assert(!tw.contains_key(hr));
    assert(!root_on_cycle(tw, hr)) by {
        reveal_with_fuel(crate::tree::chase, 1);
    }
    let gwire = plan_with_tree_guard(m, e0, ops, styles, children);
    assert(gwire == wire);

    assert(wire.actions.drop_last().push(compute) =~= wire.actions);
    assert(parents_after(e0, wire.actions) == tw);
    let rm = SpecAction::RemoveNode { handle: h2 };
    assert(m2.fwd[2u32] == h2);
    assert(shrunk.actions =~= seq![rm, SpecAction::ComputeLayout { root: hr }]);
    assert(shrunk.actions.drop_last() =~= seq![rm]);
    assert(seq![rm].drop_last() =~= Seq::<SpecAction>::empty());
    let t2 = strip_parent(tw.remove(h2), h2);
    assert(parents_after(tw, Seq::<SpecAction>::empty()) == tw);
    assert(parents_after(tw, seq![rm]) == t2);
    assert(!t2.contains_key(hr));
    assert(!root_on_cycle(t2, hr)) by {
        reveal_with_fuel(crate::tree::chase, 1);
    }
    assert(m3.fwd[ROOT_ID] == hr);
    let gshrunk = plan_with_tree_guard(m2, tw, ops2, styles, children);
    assert(gshrunk == shrunk);
}

/// Children count of the `i`-th record of a full-rebuild node buffer, read
/// with the saturating float-to-usize cast.
pub open spec fn bulk_cc(nodes: Seq<u32>, i: int) -> int {
    f32_to_usize(nodes[STYLE_STRIDE as int * i + PROP_CHILDREN_COUNT as int])
}

/// Children offset of the `i`-th record of a full-rebuild node buffer.
pub open spec fn bulk_off(nodes: Seq<u32>, i: int) -> int {
    f32_to_usize(nodes[STYLE_STRIDE as int * i + PROP_CHILDREN_OFFSET as int])
}

/// Record `i` asks for children and its (offset, count) window runs past the
/// child buffer: a malformed-buffer error, fatal to the call only.
pub open spec fn bulk_bad_window(nodes: Seq<u32>, children: Seq<u32>, i: int) -> bool {
    bulk_cc(nodes, i) > 0 && bulk_off(nodes, i) + bulk_cc(nodes, i) > children.len()
}

/// First record in `[i, count)` whose child window runs past the child
/// buffer, or `count` when every window fits.
pub open spec fn bulk_first_oob(nodes: Seq<u32>, children: Seq<u32>, i: int, count: int) -> int
    decreases count - i,
{
    if i < 0 || i >= count {
        count
    } else if bulk_bad_window(nodes, children, i) {
        i
    } else {
        bulk_first_oob(nodes, children, i + 1, count)
    }
}

/// Registry model after a full rebuild of `count` nodes: record `i` is
/// registered under external id `i` with handle `i`.
pub open spec fn bulk_model(count: int) -> RegModel {
    RegModel {
        fwd: Map::new(|id: u32| (id as int) < count, |id: u32| id as u64),
        next: count as u64,
    }
}

/// Create actions of the rebuild's first pass, for records `i` up to `count`.
pub open spec fn bulk_create_actions(nodes: Seq<u32>, i: int, count: int) -> Seq<SpecAction>
    decreases count - i,
{
    if i < 0 || i >= count {
        Seq::empty()
    } else {
        seq![
            SpecAction::CreateLeaf {
                handle: i as u64,
                style: spec_decode_style(record_at(nodes, STYLE_STRIDE as int * i)),
            },
        ] + bulk_create_actions(nodes, i + 1, count)
    }
}

/// Child resolution of the rebuild: referenced ids below `count` resolve to
/// their handle, every other id is silently dropped.
pub open spec fn resolve_bulk(ids: Seq<u32>, count: int, j: int) -> Seq<u64>
    decreases ids.len() - j,
{
    if j < 0 || j >= ids.len() {
        Seq::empty()
    } else if (ids[j] as int) < count {
        seq![ids[j] as u64] + resolve_bulk(ids, count, j + 1)
    } else {
        resolve_bulk(ids, count, j + 1)
    }
}

/// Set-children actions of the rebuild's second pass, for records `i` up to
/// `end`, resolving child ids against the full record count `count`; a
/// record with no children issues no action.
pub open spec fn bulk_children_actions(
    nodes: Seq<u32>,
    children: Seq<u32>,
    i: int,
    end: int,
    count: int,
) -> Seq<SpecAction>
    decreases end - i,
{
    if i < 0 || i >= end {
        Seq::empty()
    } else {
        let rest = bulk_children_actions(nodes, children, i + 1, end, count);
        let cc = bulk_cc(nodes, i);
        if cc > 0 {
            let off = bulk_off(nodes, i);
            seq![
                SpecAction::SetChildren {
                    handle: i as u64,
                    children: resolve_bulk(children.subrange(off, off + cc), count, 0),
                },
            ] + rest
        } else {
            rest
        }
    }
}

/// Meaning of one whole full-rebuild call: reject a misaligned node buffer;
/// otherwise clear everything, recreate one node per record, and wire
/// children record by record. A record whose child window runs past the
/// child buffer halts the call with the out-of-bounds code — every node is
/// already recreated by then and the children wired so far stay wired. With
/// every window in bounds the plan closes with the layout computation at the
/// root, which exists exactly when there is at least one record.
pub open spec fn bulk_plan(m0: RegModel, nodes: Seq<u32>, children: Seq<u32>) -> InterpOut {
    if nodes.len() as int % (STYLE_STRIDE as int) != 0 {
        halted(ERR_NODES_MISALIGNED, m0)
    } else {
        let count = nodes.len() as int / (STYLE_STRIDE as int);
        let model = bulk_model(count);
        let creates = seq![SpecAction::ClearTree] + bulk_create_actions(nodes, 0, count);
        let bad = bulk_first_oob(nodes, children, 0, count);
        if bad < count {
            InterpOut {
                status: ERR_SET_CHILDREN_OOB,
                model,
                actions: creates + bulk_children_actions(nodes, children, 0, bad, count),
            }
        } else {
            let acts = creates + bulk_children_actions(nodes, children, 0, count, count);
            if count == 0 {
                InterpOut { status: ERR_MISSING_ROOT, model, actions: acts }
            } else {
                InterpOut {
                    status: STATUS_OK,
                    model,
                    actions: acts.push(SpecAction::ComputeLayout { root: 0u64 }),
                }
            }
        }
    }
}

/// One whole full-rebuild call as the boundary performs it: the plain
/// rebuild plan, with the same tree guard as the incremental path — where
/// the plan would close with the layout computation, a root wired onto a
/// cycle (a record listing an ancestor, or itself, among its children)
/// returns the cycle code instead, with everything rebuilt so far applied.
/// The rebuilt root always carries handle 0.
pub open spec fn bulk_plan_with_tree_guard(
    m0: RegModel,
    t0: Map<u64, u64>,
    nodes: Seq<u32>,
    children: Seq<u32>,
) -> InterpOut {
    let out = bulk_plan(m0, nodes, children);
    if out.status == STATUS_OK {
        let pre = out.actions.drop_last();
        if root_on_cycle(parents_after(t0, pre), 0u64) {
            InterpOut { status: ERR_TREE_CYCLE, model: out.model, actions: pre }
        } else {
            out
        }
    } else {
        out
    }
}

/// Extending the create pass by one record appends one create action.
pub proof fn lemma_bulk_create_snoc(nodes: Seq<u32>, lo: int, hi: int)
    requires
        0 <= lo <= hi,
    ensures
        bulk_create_actions(nodes, lo, hi + 1) == bulk_create_actions(nodes, lo, hi).push(
            SpecAction::CreateLeaf {
                handle: hi as u64,
                style: spec_decode_style(record_at(nodes, STYLE_STRIDE as int * hi)),
            },
        ),
    decreases hi - lo,
{
    let c = SpecAction::CreateLeaf {
        handle: hi as u64,
        style: spec_decode_style(record_at(nodes, STYLE_STRIDE as int * hi)),
    };
    if lo == hi {
        assert(bulk_create_actions(nodes, lo + 1, hi + 1) =~= Seq::<SpecAction>::empty());
        assert(seq![c] + Seq::<SpecAction>::empty() =~= Seq::<SpecAction>::empty().push(c));
    } else {
        lemma_bulk_create_snoc(nodes, lo + 1, hi);
        assert(seq![bulk_create_actions(nodes, lo, hi + 1)[0]] + bulk_create_actions(
            nodes,
            lo + 1,
            hi,
        ).push(c) =~= (seq![bulk_create_actions(nodes, lo, hi + 1)[0]] + bulk_create_actions(
            nodes,
            lo + 1,
            hi,
        )).push(c));
    }
}

/// Extending the children pass by one record appends that record's action,
/// or nothing when it has no children.
pub proof fn lemma_bulk_children_snoc(
    nodes: Seq<u32>,
    children: Seq<u32>,
    lo: int,
    hi: int,
    count: int,
)
    requires
        0 <= lo <= hi,
    ensures
        bulk_cc(nodes, hi) > 0 ==> bulk_children_actions(nodes, children, lo, hi + 1, count)
            == bulk_children_actions(nodes, children, lo, hi, count).push(
            SpecAction::SetChildren {
                handle: hi as u64,
                children: resolve_bulk(
                    children.subrange(bulk_off(nodes, hi), bulk_off(nodes, hi) + bulk_cc(
                        nodes,
                        hi,
                    )),
                    count,
                    0,
                ),
            },
        ),
        bulk_cc(nodes, hi) <= 0 ==> bulk_children_actions(nodes, children, lo, hi + 1, count)
            == bulk_children_actions(nodes, children, lo, hi, count),
    decreases hi - lo,
{
    if lo == hi {
        assert(bulk_children_actions(nodes, children, lo + 1, hi + 1, count)
            =~= Seq::<SpecAction>::empty());
        if bulk_cc(nodes, hi) > 0 {
            let a = bulk_children_actions(nodes, children, lo, hi + 1, count)[0];
            assert(seq![a] + Seq::<SpecAction>::empty() =~= Seq::<SpecAction>::empty().push(a));
        }
    } else {
        lemma_bulk_children_snoc(nodes, children, lo + 1, hi, count);
        if bulk_cc(nodes, lo) > 0 {
            if bulk_cc(nodes, hi) > 0 {
                let head = bulk_children_actions(nodes, children, lo, hi + 1, count)[0];
                let tail = SpecAction::SetChildren {
                    handle: hi as u64,
                    children: resolve_bulk(
                        children.subrange(bulk_off(nodes, hi), bulk_off(nodes, hi) + bulk_cc(
                            nodes,
                            hi,
                        )),
                        count,
                        0,
                    ),
                };
                assert(seq![head] + bulk_children_actions(nodes, children, lo + 1, hi, count).push(
                    tail,
                ) =~= (seq![head] + bulk_children_actions(nodes, children, lo + 1, hi, count)).push(
                    tail,
                ));
            }
        }
    }
}

/// Meaning of one whole mutation call: interpret the stream, then demand a
/// live root and close with the layout computation rooted there.
pub open spec fn interp_and_plan(
    m: RegModel,
    ops: Seq<u32>,
    styles: Seq<u32>,
    children: Seq<u32>,
) -> InterpOut {
    let r = interp_from(m, ops, styles, children, 0);
    if r.status == STATUS_OK {
        if r.model.fwd.contains_key(ROOT_ID) {
            InterpOut {
                status: STATUS_OK,
                model: r.model,
                actions: r.actions.push(SpecAction::ComputeLayout { root: r.model.fwd[ROOT_ID] }),
            }
        } else {
            InterpOut { status: ERR_MISSING_ROOT, model: r.model, actions: r.actions }
        }
    } else {
        r
    }
}

} // verus!
