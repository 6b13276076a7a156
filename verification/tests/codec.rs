//! Style decoding and the bit-level float readings, checked against the
//! native float semantics.

use layout_engine::{
    AlignItems, FlexDirection, JustifyContent, PositionKind, decode_style, f32_bits_is_nan,
    f32_bits_to_i32, f32_bits_to_usize, u32_to_f32_bits,
};

const STRIDE: usize = 28;

fn record(fields: &[(usize, f32)]) -> Vec<u32> {
    let mut rec = vec![0.0f32; STRIDE];
    for &(idx, v) in fields {
        rec[idx] = v;
    }
    rec.iter().map(|f| f.to_bits()).collect()
}

#[test]
fn decode_enum_fields_and_dimensions() {
    // position=1, direction=1, justify=3, align=2, grow=2.5, shrink=0.5,
    // width=200, height NaN (unset), margins, paddings, gaps.
    let styles = record(&[
        (1, 1.0),
        (2, 1.0),
        (4, 3.0),
        (5, 2.0),
        (7, 2.5),
        (8, 0.5),
        (10, 200.0),
        (11, f32::NAN),
        (16, 1.0),
        (17, 2.0),
        (18, 3.0),
        (19, 4.0),
        (20, 5.0),
        (21, 6.0),
        (22, 7.0),
        (23, 8.0),
        (24, 9.0),
        (25, 10.0),
    ]);
    let s = decode_style(&styles, 0);
    assert_eq!(s.position, PositionKind::Absolute);
    assert_eq!(s.flex_direction, FlexDirection::Column);
    assert_eq!(s.justify_content, JustifyContent::SpaceBetween);
    assert_eq!(s.align_items, AlignItems::Center);
    assert_eq!(s.flex_grow_bits, 2.5f32.to_bits());
    assert_eq!(s.flex_shrink_bits, 0.5f32.to_bits());
    assert!(s.width_set);
    assert_eq!(s.width_bits, 200.0f32.to_bits());
    assert!(!s.height_set);
    assert_eq!(s.margin_left_bits, 1.0f32.to_bits());
    assert_eq!(s.margin_right_bits, 2.0f32.to_bits());
    assert_eq!(s.margin_top_bits, 3.0f32.to_bits());
    assert_eq!(s.margin_bottom_bits, 4.0f32.to_bits());
    assert_eq!(s.padding_left_bits, 5.0f32.to_bits());
    assert_eq!(s.padding_right_bits, 6.0f32.to_bits());
    assert_eq!(s.padding_top_bits, 7.0f32.to_bits());
    assert_eq!(s.padding_bottom_bits, 8.0f32.to_bits());
    assert_eq!(s.gap_row_bits, 9.0f32.to_bits());
    assert_eq!(s.gap_column_bits, 10.0f32.to_bits());
}

#[test]
fn decode_unknown_codes_fall_back() {
    let styles = record(&[(1, 0.0), (2, 99.0), (4, -1.0), (5, 7.9)]);
    let s = decode_style(&styles, 0);
    assert_eq!(s.position, PositionKind::Relative);
    assert_eq!(s.flex_direction, FlexDirection::Row);
    assert_eq!(s.justify_content, JustifyContent::FlexStart);
    assert_eq!(s.align_items, AlignItems::Stretch);
}

#[test]
fn decode_enum_codes_truncate_like_casts() {
    // 1.9 truncates to 1, 0.9 to 0, NaN to 0: exactly Rust's `as i32`.
    let styles = record(&[(2, 1.9), (5, 0.9), (4, f32::NAN)]);
    let s = decode_style(&styles, 0);
    assert_eq!(s.flex_direction, FlexDirection::Column);
    assert_eq!(s.align_items, AlignItems::FlexStart);
    assert_eq!(s.justify_content, JustifyContent::FlexStart);
}

#[test]
fn decode_is_deterministic_across_offsets() {
    // The same record bits at different offsets of different buffers decode
    // to the same structured style.
    let rec = record(&[(2, 2.0), (10, 42.5), (11, 17.0), (7, 1.25)]);
    let mut buf1 = rec.clone();
    buf1.extend_from_slice(&rec);
    let mut buf2 = vec![0xdead_beefu32; 5];
    buf2.extend_from_slice(&rec);
    let a = decode_style(&buf1, STRIDE);
    let b = decode_style(&buf2, 5);
    let c = decode_style(&rec, 0);
    assert_eq!(a, b);
    assert_eq!(b, c);
}

#[test]
fn nan_detection_matches_native() {
    for f in [
        0.0f32,
        -0.0,
        1.5,
        f32::NAN,
        -f32::NAN,
        f32::INFINITY,
        f32::NEG_INFINITY,
        f32::MIN_POSITIVE,
        1e-41,
    ] {
        assert_eq!(f32_bits_is_nan(f.to_bits()), f.is_nan(), "value {f}");
    }
}

#[test]
fn i32_cast_matches_native() {
    let samples = [
        0.0f32,
        -0.0,
        0.4,
        -0.4,
        0.99,
        1.0,
        -1.0,
        1.5,
        -1.5,
        2.9,
        -2.9,
        3.0,
        255.9,
        -255.9,
        16777215.0,
        16777216.0,
        2147483520.0,
        -2147483520.0,
        2147483648.0,
        -2147483648.0,
        -2147483904.0,
        3e9,
        -3e9,
        3.4e38,
        -3.4e38,
        f32::MAX,
        f32::MIN,
        f32::INFINITY,
        f32::NEG_INFINITY,
        f32::NAN,
        f32::MIN_POSITIVE,
        1e-41,
        -1e-41,
    ];
    for f in samples {
        assert_eq!(f32_bits_to_i32(f.to_bits()), f as i32, "value {f}");
    }
}

#[test]
fn usize_cast_matches_native() {
    let samples = [
        0.0f32,
        -0.0,
        0.4,
        -0.4,
        1.0,
        -1.0,
        7.7,
        255.9,
        16777216.0,
        4294967040.0,
        4294967296.0,
        1e10,
        1.8e19,
        1.9e19,
        3.4e38,
        f32::MAX,
        f32::INFINITY,
        f32::NEG_INFINITY,
        f32::NAN,
        1e-41,
    ];
    for f in samples {
        assert_eq!(f32_bits_to_usize(f.to_bits()), f as usize, "value {f}");
    }
}

#[test]
fn u32_to_float_bits_matches_native() {
    let samples = [
        0u32,
        1,
        2,
        3,
        7,
        8,
        100,
        255,
        256,
        1023,
        8388607,
        8388608,
        16777215,
        16777216,
        16777217,
        16777218,
        16777219,
        16777220,
        33554430,
        33554431,
        33554433,
        123456789,
        0x7fff_ffff,
        0x8000_0000,
        0x8000_0001,
        2999999999,
        0xffff_ff7f,
        0xffff_ffbf,
        0xffff_ffff,
    ];
    for v in samples {
        assert_eq!(
            u32_to_f32_bits(v),
            (v as f32).to_bits(),
            "value {v}: got {:x}, want {:x}",
            u32_to_f32_bits(v),
            (v as f32).to_bits()
        );
    }
}

#[test]
fn u32_to_float_bits_exhaustive_window() {
    // Walk a window straddling the exactness boundary at 2^24 and one high
    // in the rounding range.
    for v in 16777200u32..16777300 {
        assert_eq!(u32_to_f32_bits(v), (v as f32).to_bits(), "value {v}");
    }
    for v in 0xffff_fe00u32..0xffff_ff00 {
        assert_eq!(u32_to_f32_bits(v), (v as f32).to_bits(), "value {v}");
    }
}
