//! The fixed-stride style record and its decoder.
//!
//! A style record is a run of `STYLE_STRIDE` 32-bit float fields in a
//! documented order. Decoding is a pure function of the record alone: width
//! and height use a NaN sentinel to mean "unset", the enum-valued fields map
//! small integer codes to variants with a fixed default for unrecognized
//! codes, and every other field is carried through as raw bits of an
//! absolute length.

use crate::abi::STYLE_STRIDE;
use crate::fbits::{f32_bits_is_nan, f32_bits_to_i32, f32_is_nan, f32_to_i32};
use vstd::prelude::*;

verus! {

/// Field order of one style record.
pub const PROP_DISPLAY: usize = 0;

pub const PROP_POSITION_TYPE: usize = 1;

pub const PROP_FLEX_DIRECTION: usize = 2;

pub const PROP_FLEX_WRAP: usize = 3;

pub const PROP_JUSTIFY_CONTENT: usize = 4;

pub const PROP_ALIGN_ITEMS: usize = 5;

pub const PROP_ALIGN_SELF: usize = 6;

pub const PROP_FLEX_GROW: usize = 7;

pub const PROP_FLEX_SHRINK: usize = 8;

pub const PROP_FLEX_BASIS: usize = 9;

pub const PROP_WIDTH: usize = 10;

pub const PROP_HEIGHT: usize = 11;

pub const PROP_MIN_WIDTH: usize = 12;

pub const PROP_MIN_HEIGHT: usize = 13;

pub const PROP_MAX_WIDTH: usize = 14;

pub const PROP_MAX_HEIGHT: usize = 15;

pub const PROP_MARGIN_LEFT: usize = 16;

pub const PROP_MARGIN_RIGHT: usize = 17;

pub const PROP_MARGIN_TOP: usize = 18;

pub const PROP_MARGIN_BOTTOM: usize = 19;

pub const PROP_PADDING_LEFT: usize = 20;

pub const PROP_PADDING_RIGHT: usize = 21;

pub const PROP_PADDING_TOP: usize = 22;

pub const PROP_PADDING_BOTTOM: usize = 23;

pub const PROP_GAP_ROW: usize = 24;

pub const PROP_GAP_COLUMN: usize = 25;

pub const PROP_CHILDREN_COUNT: usize = 26;

pub const PROP_CHILDREN_OFFSET: usize = 27;

/// Main axis of a flex container.
#[derive(Clone, Copy, PartialEq, Eq, Structural, Debug)]
pub enum FlexDirection {
    Row,
    Column,
    RowReverse,
    ColumnReverse,
}

/// Distribution of free space along the main axis.
#[derive(Clone, Copy, PartialEq, Eq, Structural, Debug)]
pub enum JustifyContent {
    FlexStart,
    FlexEnd,
    Center,
    SpaceBetween,
    SpaceAround,
    SpaceEvenly,
}

/// Alignment of children along the cross axis.
#[derive(Clone, Copy, PartialEq, Eq, Structural, Debug)]
pub enum AlignItems {
    FlexStart,
    FlexEnd,
    Center,
    Baseline,
    Stretch,
}

/// Positioning scheme of a node.
#[derive(Clone, Copy, PartialEq, Eq, Structural, Debug)]
pub enum PositionKind {
    Relative,
    Absolute,
}

/// A decoded style record. Length-valued fields keep the raw bits of their
/// 32-bit float; the unverified solver driver turns them back into numbers.
#[derive(Clone, Copy, PartialEq, Eq, Structural, Debug)]
pub struct NodeStyle {
    pub flex_direction: FlexDirection,
    pub justify_content: JustifyContent,
    pub align_items: AlignItems,
    pub position: PositionKind,
    pub flex_grow_bits: u32,
    pub flex_shrink_bits: u32,
    /// Raw bits of the width field; a NaN pattern means "unset".
    pub width_bits: u32,
    pub width_set: bool,
    /// Raw bits of the height field; a NaN pattern means "unset".
    pub height_bits: u32,
    pub height_set: bool,
    pub margin_left_bits: u32,
    pub margin_right_bits: u32,
    pub margin_top_bits: u32,
    pub margin_bottom_bits: u32,
    pub padding_left_bits: u32,
    pub padding_right_bits: u32,
    pub padding_top_bits: u32,
    pub padding_bottom_bits: u32,
    pub gap_row_bits: u32,
    pub gap_column_bits: u32,
}

/// Code table for the flex-direction field; every unrecognized code falls
/// back to `Row`.
pub open spec fn flex_direction_of_code(c: int) -> FlexDirection {
    if c == 1 {
        FlexDirection::Column
    } else if c == 2 {
        FlexDirection::RowReverse
    } else if c == 3 {
        FlexDirection::ColumnReverse
    } else {
        FlexDirection::Row
    }
}

/// Code table for the justify-content field; every unrecognized code falls
/// back to `FlexStart`.
pub open spec fn justify_content_of_code(c: int) -> JustifyContent {
    if c == 1 {
        JustifyContent::FlexEnd
    } else if c == 2 {
        JustifyContent::Center
    } else if c == 3 {
        JustifyContent::SpaceBetween
    } else if c == 4 {
        JustifyContent::SpaceAround
    } else if c == 5 {
        JustifyContent::SpaceEvenly
    } else {
        JustifyContent::FlexStart
    }
}

/// Code table for the align-items field; every unrecognized code falls back
/// to `Stretch`.
pub open spec fn align_items_of_code(c: int) -> AlignItems {
    if c == 0 {
        AlignItems::FlexStart
    } else if c == 1 {
        AlignItems::FlexEnd
    } else if c == 2 {
        AlignItems::Center
    } else if c == 3 {
        AlignItems::Baseline
    } else {
        AlignItems::Stretch
    }
}

/// Code table for the position-type field; every unrecognized code falls
/// back to `Relative`.
pub open spec fn position_of_code(c: int) -> PositionKind {
    if c == 1 {
        PositionKind::Absolute
    } else {
        PositionKind::Relative
    }
}

/// What one style record decodes to. `rec` is exactly the record: a sequence
/// of `STYLE_STRIDE` float bit patterns.
pub open spec fn spec_decode_style(rec: Seq<u32>) -> NodeStyle
    recommends
        rec.len() == STYLE_STRIDE,
{
    NodeStyle {
        flex_direction: flex_direction_of_code(f32_to_i32(rec[PROP_FLEX_DIRECTION as int])),
        justify_content: justify_content_of_code(f32_to_i32(rec[PROP_JUSTIFY_CONTENT as int])),
        align_items: align_items_of_code(f32_to_i32(rec[PROP_ALIGN_ITEMS as int])),
        position: position_of_code(f32_to_i32(rec[PROP_POSITION_TYPE as int])),
        flex_grow_bits: rec[PROP_FLEX_GROW as int],
        flex_shrink_bits: rec[PROP_FLEX_SHRINK as int],
        width_bits: rec[PROP_WIDTH as int],
        width_set: !f32_is_nan(rec[PROP_WIDTH as int]),
        height_bits: rec[PROP_HEIGHT as int],
        height_set: !f32_is_nan(rec[PROP_HEIGHT as int]),
        margin_left_bits: rec[PROP_MARGIN_LEFT as int],
        margin_right_bits: rec[PROP_MARGIN_RIGHT as int],
        margin_top_bits: rec[PROP_MARGIN_TOP as int],
        margin_bottom_bits: rec[PROP_MARGIN_BOTTOM as int],
        padding_left_bits: rec[PROP_PADDING_LEFT as int],
        padding_right_bits: rec[PROP_PADDING_RIGHT as int],
        padding_top_bits: rec[PROP_PADDING_TOP as int],
        padding_bottom_bits: rec[PROP_PADDING_BOTTOM as int],
        gap_row_bits: rec[PROP_GAP_ROW as int],
        gap_column_bits: rec[PROP_GAP_COLUMN as int],
    }
}

/// The record of length `STYLE_STRIDE` that starts at `offset` in `styles`.
pub open spec fn record_at(styles: Seq<u32>, offset: int) -> Seq<u32> {
    styles.subrange(offset, offset + STYLE_STRIDE as int)
}

/// Decode the style record at `offset`. Total on every in-bounds record and
/// a pure function of the record's bits: the result is exactly
/// `spec_decode_style` of those `STYLE_STRIDE` fields.
pub fn decode_style(styles: &[u32], offset: usize) -> (s: NodeStyle)
    requires
        offset + STYLE_STRIDE as int <= styles@.len(),
    ensures
        s == spec_decode_style(record_at(styles@, offset as int)),
{
    let n: usize = styles.len();
    assert(offset + STYLE_STRIDE as int <= n);
    let fd_code = f32_bits_to_i32(styles[offset + PROP_FLEX_DIRECTION]);
    let flex_direction = if fd_code == 1 {
        FlexDirection::Column
    } else if fd_code == 2 {
        FlexDirection::RowReverse
    } else if fd_code == 3 {
        FlexDirection::ColumnReverse
    } else {
        FlexDirection::Row
    };
    let jc_code = f32_bits_to_i32(styles[offset + PROP_JUSTIFY_CONTENT]);
    let justify_content = if jc_code == 1 {
        JustifyContent::FlexEnd
    } else if jc_code == 2 {
        JustifyContent::Center
    } else if jc_code == 3 {
        JustifyContent::SpaceBetween
    } else if jc_code == 4 {
        JustifyContent::SpaceAround
    } else if jc_code == 5 {
        JustifyContent::SpaceEvenly
    } else {
        JustifyContent::FlexStart
    };
    let ai_code = f32_bits_to_i32(styles[offset + PROP_ALIGN_ITEMS]);
    let align_items = if ai_code == 0 {
        AlignItems::FlexStart
    } else if ai_code == 1 {
        AlignItems::FlexEnd
    } else if ai_code == 2 {
        AlignItems::Center
    } else if ai_code == 3 {
        AlignItems::Baseline
    } else {
        AlignItems::Stretch
    };
    let pos_code = f32_bits_to_i32(styles[offset + PROP_POSITION_TYPE]);
    let position = if pos_code == 1 {
        PositionKind::Absolute
    } else {
        PositionKind::Relative
    };
    let width_bits = styles[offset + PROP_WIDTH];
    let height_bits = styles[offset + PROP_HEIGHT];
    NodeStyle {
        flex_direction,
        justify_content,
        align_items,
        position,
        flex_grow_bits: styles[offset + PROP_FLEX_GROW],
        flex_shrink_bits: styles[offset + PROP_FLEX_SHRINK],
        width_bits,
        width_set: !f32_bits_is_nan(width_bits),
        height_bits,
        height_set: !f32_bits_is_nan(height_bits),
        margin_left_bits: styles[offset + PROP_MARGIN_LEFT],
        margin_right_bits: styles[offset + PROP_MARGIN_RIGHT],
        margin_top_bits: styles[offset + PROP_MARGIN_TOP],
        margin_bottom_bits: styles[offset + PROP_MARGIN_BOTTOM],
        padding_left_bits: styles[offset + PROP_PADDING_LEFT],
        padding_right_bits: styles[offset + PROP_PADDING_RIGHT],
        padding_top_bits: styles[offset + PROP_PADDING_TOP],
        padding_bottom_bits: styles[offset + PROP_PADDING_BOTTOM],
        gap_row_bits: styles[offset + PROP_GAP_ROW],
        gap_column_bits: styles[offset + PROP_GAP_COLUMN],
    }
}

/// Decoding depends on the record alone: two in-bounds offsets whose
/// `STYLE_STRIDE` fields agree pairwise decode to the same structured style,
/// whichever buffers they sit in.
pub proof fn lemma_decode_depends_on_record_alone(s1: Seq<u32>, o1: int, s2: Seq<u32>, o2: int)
    requires
        0 <= o1,
        o1 + STYLE_STRIDE as int <= s1.len(),
        0 <= o2,
        o2 + STYLE_STRIDE as int <= s2.len(),
        forall|k: int| 0 <= k < STYLE_STRIDE as int ==> s1[o1 + k] == #[trigger] s2[o2 + k],
    ensures
        spec_decode_style(record_at(s1, o1)) == spec_decode_style(record_at(s2, o2)),
{
    assert forall|k: int| 0 <= k < STYLE_STRIDE as int implies record_at(s1, o1)[k] == record_at(
        s2,
        o2,
    )[k] by {
        assert(s1[o1 + k] == s2[o2 + k]);
    }
    assert(record_at(s1, o1) =~= record_at(s2, o2));
}

} // verus!
