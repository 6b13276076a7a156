//! End-to-end scenarios against the real layout solver: the verified core
//! plans the solver actions, this driver replays them against taffy and
//! hands the computed geometry back to the results buffer.

use layout_engine::{EngineCore, LayoutRow, NodeStyle, SolverAction};
use std::collections::BTreeMap;
use taffy::prelude::{
    AlignItems, FlexDirection, JustifyContent, NodeId, Position, Rect, Size, Style,
    TaffyMaxContent, TaffyTree, length,
};

const STRIDE: usize = 28;

struct Driver {
    core: EngineCore,
    tree: TaffyTree,
    table: Vec<NodeId>,
}

impl Driver {
    fn new() -> Driver {
        Driver { core: EngineCore::new(), tree: TaffyTree::new(), table: Vec::new() }
    }
}

fn to_taffy_style(s: &NodeStyle) -> Style {
    let mut style = Style::default();
    if s.width_set {
        style.size.width = length(f32::from_bits(s.width_bits));
    }
    if s.height_set {
        style.size.height = length(f32::from_bits(s.height_bits));
    }
    style.flex_direction = match s.flex_direction {
        layout_engine::FlexDirection::Row => FlexDirection::Row,
        layout_engine::FlexDirection::Column => FlexDirection::Column,
        layout_engine::FlexDirection::RowReverse => FlexDirection::RowReverse,
        layout_engine::FlexDirection::ColumnReverse => FlexDirection::ColumnReverse,
    };
    style.gap = Size {
        width: length(f32::from_bits(s.gap_column_bits)),
        height: length(f32::from_bits(s.gap_row_bits)),
    };
    style.justify_content = Some(match s.justify_content {
        layout_engine::JustifyContent::FlexStart => JustifyContent::FLEX_START,
        layout_engine::JustifyContent::FlexEnd => JustifyContent::FLEX_END,
        layout_engine::JustifyContent::Center => JustifyContent::CENTER,
        layout_engine::JustifyContent::SpaceBetween => JustifyContent::SPACE_BETWEEN,
        layout_engine::JustifyContent::SpaceAround => JustifyContent::SPACE_AROUND,
        layout_engine::JustifyContent::SpaceEvenly => JustifyContent::SPACE_EVENLY,
    });
    style.align_items = Some(match s.align_items {
        layout_engine::AlignItems::FlexStart => AlignItems::FLEX_START,
        layout_engine::AlignItems::FlexEnd => AlignItems::FLEX_END,
        layout_engine::AlignItems::Center => AlignItems::CENTER,
        layout_engine::AlignItems::Baseline => AlignItems::BASELINE,
        layout_engine::AlignItems::Stretch => AlignItems::STRETCH,
    });
    style.position = match s.position {
        layout_engine::PositionKind::Relative => Position::Relative,
        layout_engine::PositionKind::Absolute => Position::Absolute,
    };
    style.flex_grow = f32::from_bits(s.flex_grow_bits);
    style.flex_shrink = f32::from_bits(s.flex_shrink_bits);
    style.margin = Rect {
        left: length(f32::from_bits(s.margin_left_bits)),
        right: length(f32::from_bits(s.margin_right_bits)),
        top: length(f32::from_bits(s.margin_top_bits)),
        bottom: length(f32::from_bits(s.margin_bottom_bits)),
    };
    style.padding = Rect {
        left: length(f32::from_bits(s.padding_left_bits)),
        right: length(f32::from_bits(s.padding_right_bits)),
        top: length(f32::from_bits(s.padding_top_bits)),
        bottom: length(f32::from_bits(s.padding_bottom_bits)),
    };
    style
}

fn replay(d: &mut Driver, actions: &[SolverAction]) {
    let mut computed = false;
    for a in actions {
        match a {
            SolverAction::CreateLeaf { handle, style } => {
                let node = d.tree.new_leaf(to_taffy_style(style)).unwrap();
                assert_eq!(*handle as usize, d.table.len());
                d.table.push(node);
            }
            SolverAction::SetStyle { handle, style } => {
                d.tree.set_style(d.table[*handle as usize], to_taffy_style(style)).unwrap();
            }
            SolverAction::SetChildren { handle, children } => {
                let kids: Vec<NodeId> = children.iter().map(|h| d.table[*h as usize]).collect();
                d.tree.set_children(d.table[*handle as usize], &kids).unwrap();
            }
            SolverAction::RemoveNode { handle } => {
                d.tree.remove(d.table[*handle as usize]).unwrap();
            }
            SolverAction::ClearTree => {
                d.tree.clear();
                d.table.clear();
            }
            SolverAction::ComputeLayout { root } => {
                d.tree
                    .compute_layout(d.table[*root as usize], Size::MAX_CONTENT)
                    .unwrap();
                computed = true;
            }
        }
    }
    if computed {
        let entries = d.core.live_entries().clone();
        let mut rows: Vec<LayoutRow> = Vec::new();
        for e in entries {
            let l = d.tree.layout(d.table[e.handle as usize]).unwrap();
            rows.push(LayoutRow {
                ext_id: e.ext_id,
                x_bits: l.location.x.to_bits(),
                y_bits: l.location.y.to_bits(),
                width_bits: l.size.width.to_bits(),
                height_bits: l.size.height.to_bits(),
            });
        }
        d.core.store_results(&rows);
    }
}

fn run(d: &mut Driver, ops: &[u32], styles: &[f32], children: &[u32]) -> i32 {
    let style_bits: Vec<u32> = styles.iter().map(|f| f.to_bits()).collect();
    let out = d.core.apply_ops(ops, &style_bits, children);
    replay(d, &out.actions);
    out.status
}

fn run_rebuild(d: &mut Driver, nodes: &[f32], children: &[u32]) -> i32 {
    let node_bits: Vec<u32> = nodes.iter().map(|f| f.to_bits()).collect();
    let out = d.core.rebuild_from_buffers(&node_bits, children);
    replay(d, &out.actions);
    out.status
}

/// Geometry per external id, read back from the results buffer.
fn results(d: &Driver) -> BTreeMap<u32, (f32, f32, f32, f32)> {
    let buf = d.core.results_ref();
    assert_eq!(buf.len() % 5, 0);
    let mut map = BTreeMap::new();
    for chunk in buf.chunks(5) {
        let id = f32::from_bits(chunk[0]) as u32;
        map.insert(
            id,
            (
                f32::from_bits(chunk[1]),
                f32::from_bits(chunk[2]),
                f32::from_bits(chunk[3]),
                f32::from_bits(chunk[4]),
            ),
        );
    }
    map
}

/// A style record: everything zero, width/height as given (NaN = unset).
fn style_record(width: f32, height: f32, extra: &[(usize, f32)]) -> Vec<f32> {
    let mut rec = vec![0.0f32; STRIDE];
    rec[10] = width;
    rec[11] = height;
    for &(idx, v) in extra {
        rec[idx] = v;
    }
    rec
}

#[test]
fn end_to_end_space_between_row() {
    // Root: Row, 200 x 100, SpaceBetween; two 50 x 50 children. The children
    // must land at x = 0 and x = 150, both at y = 0.
    let mut d = Driver::new();
    let mut styles = style_record(200.0, 100.0, &[(2, 0.0), (4, 3.0)]);
    styles.extend(style_record(50.0, 50.0, &[]));
    let ops = [1, 0, 0, 1, 1, 28, 1, 2, 28, 3, 0, 0, 2];
    let status = run(&mut d, &ops, &styles, &[1, 2]);
    assert_eq!(status, 0);
    let r = results(&d);
    assert_eq!(r.len(), 3);
    assert_eq!(r[&0], (0.0, 0.0, 200.0, 100.0));
    assert_eq!(r[&1], (0.0, 0.0, 50.0, 50.0));
    assert_eq!(r[&2], (150.0, 0.0, 50.0, 50.0));
}

#[test]
fn result_set_tracks_live_nodes() {
    // Root pre-exists; create 1 and 2 and wire them: the result set is
    // exactly {0, 1, 2}. Removing 2 and recomputing shrinks it to {0, 1}.
    let mut d = Driver::new();
    let styles = style_record(100.0, 100.0, &[]);
    assert_eq!(run(&mut d, &[1, 0, 0], &styles, &[]), 0);
    assert_eq!(run(&mut d, &[1, 1, 0, 1, 2, 0, 3, 0, 0, 2], &styles, &[1, 2]), 0);
    let ids: Vec<u32> = results(&d).keys().copied().collect();
    assert_eq!(ids, vec![0, 1, 2]);

    assert_eq!(run(&mut d, &[4, 2], &styles, &[]), 0);
    let ids: Vec<u32> = results(&d).keys().copied().collect();
    assert_eq!(ids, vec![0, 1]);
}

#[test]
fn create_then_replace_with_same_style_matches_single_create() {
    // One driver creates the tree once; the other creates it and immediately
    // replaces every style with the same record. Identical geometry.
    let mut styles = style_record(200.0, 120.0, &[(4, 3.0)]);
    styles.extend(style_record(60.0, 40.0, &[]));

    let mut once = Driver::new();
    let ops_once = [1, 0, 0, 1, 1, 28, 1, 2, 28, 3, 0, 0, 2];
    assert_eq!(run(&mut once, &ops_once, &styles, &[1, 2]), 0);

    let mut twice = Driver::new();
    let ops_twice = [
        1, 0, 0, 1, 1, 28, 1, 2, 28, 2, 0, 0, 2, 1, 28, 2, 2, 28, 3, 0, 0, 2,
    ];
    assert_eq!(run(&mut twice, &ops_twice, &styles, &[1, 2]), 0);

    assert_eq!(results(&once), results(&twice));
}

#[test]
fn recreating_the_root_with_same_style_matches_single_create() {
    let styles = style_record(80.0, 60.0, &[]);

    let mut once = Driver::new();
    assert_eq!(run(&mut once, &[1, 0, 0], &styles, &[]), 0);

    let mut twice = Driver::new();
    assert_eq!(run(&mut twice, &[1, 0, 0, 1, 0, 0], &styles, &[]), 0);

    assert_eq!(results(&once), results(&twice));
    assert_eq!(results(&twice).len(), 1);
}

#[test]
fn update_style_changes_geometry() {
    // A real style replacement must reach the solver: double the root width.
    let mut d = Driver::new();
    let mut styles = style_record(100.0, 50.0, &[]);
    styles.extend(style_record(200.0, 50.0, &[]));
    assert_eq!(run(&mut d, &[1, 0, 0], &styles, &[]), 0);
    assert_eq!(results(&d)[&0].2, 100.0);
    assert_eq!(run(&mut d, &[2, 0, 28], &styles, &[]), 0);
    assert_eq!(results(&d)[&0].2, 200.0);
}

#[test]
fn full_rebuild_matches_incremental_layout() {
    // The bulk path: three records, the root wiring children via the
    // count/offset fields of its own record.
    let mut d = Driver::new();
    let mut nodes = style_record(200.0, 100.0, &[(4, 3.0), (26, 2.0), (27, 0.0)]);
    nodes.extend(style_record(50.0, 50.0, &[]));
    nodes.extend(style_record(50.0, 50.0, &[]));
    let status = run_rebuild(&mut d, &nodes, &[1, 2]);
    assert_eq!(status, 0);
    let r = results(&d);
    assert_eq!(r.len(), 3);
    assert_eq!(r[&0], (0.0, 0.0, 200.0, 100.0));
    assert_eq!(r[&1], (0.0, 0.0, 50.0, 50.0));
    assert_eq!(r[&2], (150.0, 0.0, 50.0, 50.0));
}

#[test]
fn full_rebuild_rejects_misaligned_buffer() {
    let mut d = Driver::new();
    let nodes = vec![0.0f32; 27];
    assert_eq!(run_rebuild(&mut d, &nodes, &[]), -2);
}

#[test]
fn full_rebuild_of_nothing_misses_the_root() {
    let mut d = Driver::new();
    assert_eq!(run_rebuild(&mut d, &[], &[]), -3);
}

#[test]
fn full_rebuild_out_of_bounds_window_is_call_fatal_only() {
    // A child window past the buffer fails the call with the coded error;
    // the instance stays usable and a following rebuild computes.
    let mut d = Driver::new();
    let mut nodes = style_record(100.0, 100.0, &[(26, 2.0)]);
    nodes.extend(style_record(50.0, 50.0, &[]));
    assert_eq!(run_rebuild(&mut d, &nodes, &[1]), -17);

    let nodes2 = style_record(100.0, 100.0, &[]);
    assert_eq!(run_rebuild(&mut d, &nodes2, &[]), 0);
    assert_eq!(results(&d).len(), 1);
}

#[test]
fn cycle_is_rejected_before_the_solver_computes() {
    // Wiring the root into its own descendant would make the solver recurse
    // without bound: the call returns the cycle code and plans no
    // computation. Untangling the wiring makes the instance compute again.
    let mut d = Driver::new();
    let styles = style_record(100.0, 100.0, &[]);
    assert_eq!(run(&mut d, &[1, 0, 0, 1, 1, 0, 3, 0, 0, 1], &styles, &[1]), 0);
    assert_eq!(run(&mut d, &[3, 1, 1, 1], &styles, &[1, 0]), -22);
    assert_eq!(run(&mut d, &[3, 1, 0, 0], &styles, &[]), 0);
    assert_eq!(results(&d).len(), 2);
}

#[test]
fn full_rebuild_drops_unknown_child_ids() {
    // A referenced child id outside the record range is silently dropped.
    let mut d = Driver::new();
    let mut nodes = style_record(100.0, 100.0, &[(26, 2.0), (27, 0.0)]);
    nodes.extend(style_record(50.0, 50.0, &[]));
    assert_eq!(run_rebuild(&mut d, &nodes, &[1, 9]), 0);
    assert_eq!(results(&d).len(), 2);
}
