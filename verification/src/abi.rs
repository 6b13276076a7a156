//! Boundary introspection: layout constants a caller-side encoder reads to
//! self-configure, instead of hardcoding strides and field offsets.

use crate::style::{
    PROP_CHILDREN_COUNT, PROP_CHILDREN_OFFSET, PROP_FLEX_DIRECTION, PROP_FLEX_GROW,
    PROP_FLEX_SHRINK, PROP_GAP_COLUMN, PROP_GAP_ROW, PROP_HEIGHT, PROP_WIDTH,
};
use vstd::prelude::*;

verus! {

/// Number of fields in one style record.
pub const STYLE_STRIDE: u32 = 28;

/// Number of fields in one results record: id, x, y, width, height.
pub const RESULT_STRIDE: u32 = 5;

/// Protocol version; bumped whenever the exported surface, a buffer layout
/// or the error-code mapping changes.
pub const LAYOUT_ENGINE_ABI_VERSION: u32 = 4;

pub fn layout_engine_abi_version() -> (r: u32)
    ensures
        r == LAYOUT_ENGINE_ABI_VERSION,
{
    LAYOUT_ENGINE_ABI_VERSION
}

pub fn layout_engine_style_stride() -> (r: u32)
    ensures
        r == STYLE_STRIDE,
{
    STYLE_STRIDE
}

pub fn layout_engine_result_stride() -> (r: u32)
    ensures
        r == RESULT_STRIDE,
{
    RESULT_STRIDE
}

/// Byte size of one float element of the shared buffers.
pub fn layout_engine_f32_size() -> (r: u32)
    ensures
        r == 4,
{
    4
}

/// Byte size of one unsigned 32-bit element of the shared buffers.
pub fn layout_engine_u32_size() -> (r: u32)
    ensures
        r == 4,
{
    4
}

pub fn layout_engine_style_prop_flex_grow() -> (r: u32)
    ensures
        r == PROP_FLEX_GROW,
{
    PROP_FLEX_GROW as u32
}

pub fn layout_engine_style_prop_flex_shrink() -> (r: u32)
    ensures
        r == PROP_FLEX_SHRINK,
{
    PROP_FLEX_SHRINK as u32
}

pub fn layout_engine_style_prop_flex_direction() -> (r: u32)
    ensures
        r == PROP_FLEX_DIRECTION,
{
    PROP_FLEX_DIRECTION as u32
}

pub fn layout_engine_style_prop_width() -> (r: u32)
    ensures
        r == PROP_WIDTH,
{
    PROP_WIDTH as u32
}

pub fn layout_engine_style_prop_height() -> (r: u32)
    ensures
        r == PROP_HEIGHT,
{
    PROP_HEIGHT as u32
}

pub fn layout_engine_style_prop_gap_row() -> (r: u32)
    ensures
        r == PROP_GAP_ROW,
{
    PROP_GAP_ROW as u32
}

pub fn layout_engine_style_prop_gap_column() -> (r: u32)
    ensures
        r == PROP_GAP_COLUMN,
{
    PROP_GAP_COLUMN as u32
}

pub fn layout_engine_style_prop_children_count() -> (r: u32)
    ensures
        r == PROP_CHILDREN_COUNT,
{
    PROP_CHILDREN_COUNT as u32
}

pub fn layout_engine_style_prop_children_offset() -> (r: u32)
    ensures
        r == PROP_CHILDREN_OFFSET,
{
    PROP_CHILDREN_OFFSET as u32
}

} // verus!
