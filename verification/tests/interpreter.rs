//! The mutation interpreter's status codes, partial-failure semantics, the
//! results buffer, and the ABI introspection constants.

use layout_engine::{
    ApplyOutcome, EngineCore, LayoutRow, SolverAction, layout_engine_abi_version,
    layout_engine_f32_size, layout_engine_result_stride, layout_engine_style_prop_children_count,
    layout_engine_style_prop_children_offset, layout_engine_style_prop_flex_direction,
    layout_engine_style_prop_flex_grow, layout_engine_style_prop_flex_shrink,
    layout_engine_style_prop_gap_column, layout_engine_style_prop_gap_row,
    layout_engine_style_prop_height, layout_engine_style_prop_width, layout_engine_style_stride,
    layout_engine_u32_size,
};

const STRIDE: usize = 28;

fn one_style() -> Vec<u32> {
    vec![0.0f32.to_bits(); STRIDE]
}

fn apply(engine: &mut EngineCore, ops: &[u32], styles: &[u32], children: &[u32]) -> ApplyOutcome {
    engine.apply_ops(ops, styles, children)
}

#[test]
fn empty_stream_without_root_is_missing_root() {
    let mut e = EngineCore::new();
    let out = apply(&mut e, &[], &[], &[]);
    assert_eq!(out.status, -3);
    assert!(out.actions.is_empty());
}

#[test]
fn create_root_succeeds_and_plans_compute() {
    let mut e = EngineCore::new();
    let styles = one_style();
    let out = apply(&mut e, &[1, 0, 0], &styles, &[]);
    assert_eq!(out.status, 0);
    assert_eq!(out.actions.len(), 2);
    assert!(matches!(out.actions[0], SolverAction::CreateLeaf { handle: 0, .. }));
    assert!(matches!(out.actions[1], SolverAction::ComputeLayout { root: 0 }));
    assert_eq!(e.node_count(), 1);
}

#[test]
fn truncated_instructions_get_distinct_codes() {
    let styles = one_style();
    for (ops, code) in [
        (vec![1u32], -10),
        (vec![1, 5], -10),
        (vec![2], -12),
        (vec![2, 5], -12),
        (vec![3], -15),
        (vec![3, 5, 0], -15),
        (vec![4], -19),
    ] {
        let mut e = EngineCore::new();
        let out = apply(&mut e, &ops, &styles, &[]);
        assert_eq!(out.status, code, "ops {ops:?}");
        assert!(out.actions.is_empty());
        assert_eq!(e.node_count(), 0);
    }
}

#[test]
fn unknown_opcode_halts() {
    let mut e = EngineCore::new();
    let out = apply(&mut e, &[9, 1, 2, 3], &one_style(), &[]);
    assert_eq!(out.status, -20);
    assert!(out.actions.is_empty());
}

#[test]
fn create_with_out_of_bounds_style_creates_nothing() {
    // The record would end one word past the style buffer.
    let mut e = EngineCore::new();
    let styles = one_style();
    let out = apply(&mut e, &[1, 0, 1], &styles, &[]);
    assert_eq!(out.status, -11);
    assert!(out.actions.is_empty());
    assert_eq!(e.node_count(), 0);
}

#[test]
fn update_style_out_of_bounds() {
    let mut e = EngineCore::new();
    let styles = one_style();
    assert_eq!(apply(&mut e, &[1, 0, 0], &styles, &[]).status, 0);
    let out = apply(&mut e, &[2, 0, 1], &styles, &[]);
    assert_eq!(out.status, -13);
    assert!(out.actions.is_empty());
}

#[test]
fn update_unknown_id_mutates_nothing() {
    let mut e = EngineCore::new();
    let styles = one_style();
    assert_eq!(apply(&mut e, &[1, 0, 0], &styles, &[]).status, 0);
    let entries_before: Vec<_> = e.live_entries().clone();
    let out = apply(&mut e, &[2, 7, 0], &styles, &[]);
    assert_eq!(out.status, -14);
    assert!(out.actions.is_empty());
    assert_eq!(e.live_entries().clone(), entries_before);
}

#[test]
fn set_children_error_codes() {
    let styles = one_style();

    // Unknown parent.
    let mut e = EngineCore::new();
    assert_eq!(apply(&mut e, &[1, 0, 0], &styles, &[]).status, 0);
    assert_eq!(apply(&mut e, &[3, 9, 0, 0], &styles, &[]).status, -16);

    // Child window past the buffer.
    let mut e = EngineCore::new();
    assert_eq!(apply(&mut e, &[1, 0, 0], &styles, &[]).status, 0);
    assert_eq!(apply(&mut e, &[3, 0, 0, 2], &styles, &[5]).status, -17);

    // Unknown child id.
    let mut e = EngineCore::new();
    assert_eq!(apply(&mut e, &[1, 0, 0, 1, 1, 0], &styles, &[]).status, 0);
    assert_eq!(apply(&mut e, &[3, 0, 0, 2], &styles, &[1, 2]).status, -18);
}

#[test]
fn remove_unknown_id_is_a_no_op() {
    let mut e = EngineCore::new();
    let styles = one_style();
    assert_eq!(apply(&mut e, &[1, 0, 0], &styles, &[]).status, 0);
    let out = apply(&mut e, &[4, 42], &styles, &[]);
    assert_eq!(out.status, 0);
    assert_eq!(out.actions.len(), 1); // only the compute
    assert!(matches!(out.actions[0], SolverAction::ComputeLayout { .. }));
    assert_eq!(e.node_count(), 1);
}

#[test]
fn failure_keeps_already_applied_prefix() {
    // The create before the failing update stays applied: no rollback.
    let mut e = EngineCore::new();
    let styles = one_style();
    let out = apply(&mut e, &[1, 0, 0, 2, 9, 0], &styles, &[]);
    assert_eq!(out.status, -14);
    assert_eq!(out.actions.len(), 1);
    assert!(matches!(out.actions[0], SolverAction::CreateLeaf { .. }));
    assert_eq!(e.node_count(), 1);
}

#[test]
fn recreating_an_id_keeps_one_live_pair() {
    let mut e = EngineCore::new();
    let styles = one_style();
    let out = apply(&mut e, &[1, 0, 0, 1, 0, 0], &styles, &[]);
    assert_eq!(out.status, 0);
    assert_eq!(e.node_count(), 1);
    let entries = e.live_entries().clone();
    assert_eq!(entries[0].ext_id, 0);
    assert_eq!(entries[0].handle, 1); // the second allocation wins
}

#[test]
fn handles_are_allocated_densely_in_creation_order() {
    let mut e = EngineCore::new();
    let styles = one_style();
    let out = apply(&mut e, &[1, 0, 0, 1, 7, 0, 1, 3, 0], &styles, &[]);
    assert_eq!(out.status, 0);
    let handles: Vec<u64> = out
        .actions
        .iter()
        .filter_map(|a| match a {
            SolverAction::CreateLeaf { handle, .. } => Some(*handle),
            _ => None,
        })
        .collect();
    assert_eq!(handles, vec![0, 1, 2]);
}

#[test]
fn full_rebuild_out_of_bounds_window_returns_the_code() {
    // Two records; the first asks for two children at offset 0 of a
    // one-entry child buffer: the distinct out-of-bounds code, with every
    // node already recreated and nothing wired or computed.
    let mut e = EngineCore::new();
    let mut nodes = vec![0.0f32.to_bits(); 56];
    nodes[26] = 2.0f32.to_bits();
    let out = e.rebuild_from_buffers(&nodes, &[1]);
    assert_eq!(out.status, -17);
    assert_eq!(e.node_count(), 2);
    assert_eq!(out.actions.len(), 3); // clear plus the two creates
    assert!(matches!(out.actions[0], SolverAction::ClearTree));
    assert!(matches!(out.actions[1], SolverAction::CreateLeaf { .. }));
    assert!(matches!(out.actions[2], SolverAction::CreateLeaf { .. }));
}

#[test]
fn full_rebuild_keeps_children_wired_before_a_bad_window() {
    // The first record's window fits, the second runs past the buffer: the
    // first stays wired, per the no-rollback rule.
    let mut e = EngineCore::new();
    let mut nodes = vec![0.0f32.to_bits(); 56];
    nodes[26] = 1.0f32.to_bits(); // record 0: one child at offset 0
    nodes[28 + 26] = 1.0f32.to_bits(); // record 1: one child at offset 5
    nodes[28 + 27] = 5.0f32.to_bits();
    let out = e.rebuild_from_buffers(&nodes, &[1]);
    assert_eq!(out.status, -17);
    assert_eq!(out.actions.len(), 4); // clear, two creates, one set-children
    assert!(matches!(out.actions[3], SolverAction::SetChildren { handle: 0, .. }));
}

#[test]
fn wiring_the_root_onto_itself_returns_the_cycle_code() {
    let mut e = EngineCore::new();
    let styles = one_style();
    assert_eq!(apply(&mut e, &[1, 0, 0], &styles, &[]).status, 0);
    let out = apply(&mut e, &[3, 0, 0, 1], &styles, &[0]);
    assert_eq!(out.status, -22);
    // The wiring itself stays applied; only the computation is withheld.
    assert_eq!(out.actions.len(), 1);
    assert!(matches!(out.actions[0], SolverAction::SetChildren { .. }));
    assert_eq!(e.node_count(), 1);
}

#[test]
fn wiring_an_ancestor_as_child_returns_the_cycle_code() {
    let mut e = EngineCore::new();
    let styles = one_style();
    assert_eq!(apply(&mut e, &[1, 0, 0, 1, 1, 0, 3, 0, 0, 1], &styles, &[1]).status, 0);
    let out = apply(&mut e, &[3, 1, 1, 1], &styles, &[1, 0]);
    assert_eq!(out.status, -22);
    // Rewiring the offending node clears the cycle and the engine computes.
    assert_eq!(apply(&mut e, &[3, 1, 0, 0], &styles, &[]).status, 0);
}

#[test]
fn reparenting_within_a_chain_is_no_cycle() {
    // Move the grandchild directly under the root: the chain re-forms, no
    // cycle, and the call computes.
    let mut e = EngineCore::new();
    let styles = one_style();
    assert_eq!(
        apply(&mut e, &[1, 0, 0, 1, 1, 0, 1, 2, 0, 3, 0, 0, 1, 3, 1, 1, 1], &styles, &[1, 2])
            .status,
        0
    );
    assert_eq!(apply(&mut e, &[3, 0, 1, 1], &styles, &[1, 2]).status, 0);
}

#[test]
fn full_rebuild_record_listing_itself_returns_the_cycle_code() {
    let mut e = EngineCore::new();
    let mut nodes = vec![0.0f32.to_bits(); 28];
    nodes[26] = 1.0f32.to_bits(); // one child at offset 0: the record itself
    let out = e.rebuild_from_buffers(&nodes, &[0]);
    assert_eq!(out.status, -22);
    assert_eq!(e.node_count(), 1);
    assert!(!out.actions.iter().any(|a| matches!(a, SolverAction::ComputeLayout { .. })));
}

#[test]
fn store_results_rewrites_the_buffer_in_place() {
    let mut e = EngineCore::new();
    let rows = vec![
        LayoutRow {
            ext_id: 3,
            x_bits: 1.5f32.to_bits(),
            y_bits: 2.5f32.to_bits(),
            width_bits: 10.0f32.to_bits(),
            height_bits: 20.0f32.to_bits(),
        },
        LayoutRow {
            ext_id: 4000000000,
            x_bits: 0.0f32.to_bits(),
            y_bits: (-7.5f32).to_bits(),
            width_bits: 1.0f32.to_bits(),
            height_bits: 2.0f32.to_bits(),
        },
    ];
    e.store_results(&rows);
    assert_eq!(e.results_len(), 10);
    let buf = e.results_ref().clone();
    assert_eq!(buf[0], (3u32 as f32).to_bits());
    assert_eq!(buf[1], 1.5f32.to_bits());
    assert_eq!(buf[4], 20.0f32.to_bits());
    assert_eq!(buf[5], (4000000000u32 as f32).to_bits());
    assert_eq!(buf[6], 0.0f32.to_bits());
    assert_eq!(buf[7], (-7.5f32).to_bits());

    // Rewritten, never appended.
    e.store_results(&rows[..1].to_vec());
    assert_eq!(e.results_len(), 5);
}

#[test]
fn abi_constants() {
    assert_eq!(layout_engine_abi_version(), 4);
    assert_eq!(layout_engine_style_stride(), 28);
    assert_eq!(layout_engine_result_stride(), 5);
    assert_eq!(layout_engine_f32_size(), 4);
    assert_eq!(layout_engine_u32_size(), 4);
    assert_eq!(layout_engine_style_prop_flex_grow(), 7);
    assert_eq!(layout_engine_style_prop_flex_shrink(), 8);
    assert_eq!(layout_engine_style_prop_flex_direction(), 2);
    assert_eq!(layout_engine_style_prop_width(), 10);
    assert_eq!(layout_engine_style_prop_height(), 11);
    assert_eq!(layout_engine_style_prop_gap_row(), 24);
    assert_eq!(layout_engine_style_prop_gap_column(), 25);
    assert_eq!(layout_engine_style_prop_children_count(), 26);
    assert_eq!(layout_engine_style_prop_children_offset(), 27);
}
