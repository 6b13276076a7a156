//! Verified core of a retained-mode layout-engine boundary: a fixed-stride
//! binary style codec, a bidirectional node-identity registry, an opcode-based
//! mutation interpreter, and a flat results-buffer builder.
//!
//! Boundary buffers carry 32-bit floats; in here every float is held as its
//! raw bit pattern, and the few numeric readings the protocol needs (the NaN
//! "unset" sentinel and the saturating casts) are computed on the bits. The
//! flexbox math itself is an external collaborator: the interpreter turns an
//! instruction stream into an ordered list of solver actions, and the
//! surrounding (unverified) driver replays those actions against the solver
//! and hands the computed geometry back for the results buffer.

mod abi;
mod actions;
mod engine;
mod fbits;
mod interp;
mod registry;
mod style;
mod tree;

pub use abi::{
    LAYOUT_ENGINE_ABI_VERSION, RESULT_STRIDE, STYLE_STRIDE, layout_engine_abi_version,
    layout_engine_f32_size, layout_engine_result_stride, layout_engine_style_prop_children_count,
    layout_engine_style_prop_children_offset, layout_engine_style_prop_flex_direction,
    layout_engine_style_prop_flex_grow, layout_engine_style_prop_flex_shrink,
    layout_engine_style_prop_gap_column, layout_engine_style_prop_gap_row,
    layout_engine_style_prop_height, layout_engine_style_prop_width, layout_engine_style_stride,
    layout_engine_u32_size,
};
pub use actions::{ApplyOutcome, SolverAction, SpecAction, abstract_actions};
pub use engine::{EngineCore, LayoutRow};
pub use fbits::{
    clip, f32_bits_is_nan, f32_bits_mag_trunc, f32_bits_of_u32, f32_bits_to_i32,
    f32_bits_to_usize, f32_exp, f32_frac, f32_is_nan, f32_is_neg, f32_mag_trunc, f32_to_i32,
    f32_to_usize, f32_trunc, floor_log2, u32_to_f32_bits,
};
pub use interp::{
    ERR_CREATE_STYLE_OOB, ERR_CREATE_TRUNCATED, ERR_MISSING_ROOT, ERR_NODES_MISALIGNED,
    ERR_NULL_CHILDREN_PTR, ERR_NULL_CHILDREN_PTR_BULK, ERR_NULL_ENGINE, ERR_NULL_NODES_PTR,
    ERR_NULL_OPS_PTR, ERR_NULL_STYLES_PTR, ERR_REMOVE_TRUNCATED, ERR_SET_CHILDREN_OOB,
    ERR_SET_CHILDREN_TRUNCATED, ERR_SET_CHILDREN_UNKNOWN_NODE, ERR_UNKNOWN_CHILD,
    ERR_SOLVER_FAILURE, ERR_TREE_CYCLE, ERR_UNKNOWN_OPCODE, ERR_UPDATE_STYLE_OOB,
    ERR_UPDATE_TRUNCATED, ERR_UPDATE_UNKNOWN_NODE, InterpOut, OP_CREATE_LEAF, OP_REMOVE_NODE,
    OP_SET_CHILDREN, OP_UPDATE_STYLE, ROOT_ID, STATUS_OK, all_children_known, bulk_bad_window,
    bulk_cc, bulk_children_actions, bulk_create_actions, bulk_first_oob, bulk_model, bulk_off,
    bulk_plan, bulk_plan_with_tree_guard, halted, interp_and_plan, interp_from,
    lemma_parents_after_snoc, parent_step, parents_after, plan_with_tree_guard, wire_children,
    lemma_create_out_of_bounds_creates_nothing, lemma_create_then_update_same_style,
    lemma_result_set_tracks_live_nodes, lemma_update_unknown_id_mutates_nothing, resolve_bulk,
    resolve_children, with_action,
};
pub use registry::{
    NodeRegistry, RegEntry, RegModel, entries_map, ext_ids_distinct, handles_distinct, has_ext_id,
    rev_of,
};
pub use style::{
    AlignItems, FlexDirection, JustifyContent, NodeStyle, PROP_ALIGN_ITEMS, PROP_ALIGN_SELF,
    PROP_CHILDREN_COUNT, PROP_CHILDREN_OFFSET, PROP_DISPLAY, PROP_FLEX_BASIS, PROP_FLEX_DIRECTION,
    PROP_FLEX_GROW, PROP_FLEX_SHRINK, PROP_FLEX_WRAP, PROP_GAP_COLUMN, PROP_GAP_ROW, PROP_HEIGHT,
    PROP_JUSTIFY_CONTENT, PROP_MARGIN_BOTTOM, PROP_MARGIN_LEFT, PROP_MARGIN_RIGHT,
    PROP_MARGIN_TOP, PROP_MAX_HEIGHT, PROP_MAX_WIDTH, PROP_MIN_HEIGHT, PROP_MIN_WIDTH,
    PROP_PADDING_BOTTOM, PROP_PADDING_LEFT, PROP_PADDING_RIGHT, PROP_PADDING_TOP,
    PROP_POSITION_TYPE, PROP_WIDTH, PositionKind, align_items_of_code, decode_style,
    flex_direction_of_code, justify_content_of_code, lemma_decode_depends_on_record_alone,
    position_of_code, record_at, spec_decode_style,
};
pub use tree::{
    ParentEntry, ParentTable, chase, children_distinct, has_child, parents_map_of, root_on_cycle,
    strip_parent,
};
