use rootvg::style::{
    Align, BlendFactor, CompositeOperation, CompositeOperationState, FillRule, LineCap, LineJoin,
    Physical, Winding, ALIGN_CENTER, ALIGN_HALIGN_CENTER, ALIGN_HALIGN_LEFT, ALIGN_VALIGN_BASELINE,
    ALIGN_VALIGN_CENTER, BLEND_DST_ALPHA, BLEND_DST_COLOR, BLEND_ONE, BLEND_ONE_MINUS_DST_ALPHA,
    BLEND_ONE_MINUS_SRC_ALPHA, BLEND_SRC_ALPHA, BLEND_SRC_ALPHA_SATURATE, BLEND_ZERO, IMAGE_NEAREST,
    TEXTURE_RGBA,
};

#[test]
fn winding_from_u8() {
    assert_eq!(Winding::from_u8(0), Winding::Solid);
    assert_eq!(Winding::from_u8(1), Winding::Hole);
    assert_eq!(Winding::from_u8(200), Winding::Hole);
    assert_eq!(Winding::Solid.to_u8(), 0);
    assert_eq!(Winding::Hole.to_u8(), 1);
}

#[test]
fn defaults() {
    assert_eq!(LineCap::default(), LineCap::Butt);
    assert_eq!(LineJoin::default(), LineJoin::Butt);
    assert_eq!(FillRule::default(), FillRule::NonZero);
    assert_eq!(Align::default().bits, ALIGN_HALIGN_LEFT | ALIGN_VALIGN_BASELINE);
    assert_eq!(ALIGN_CENTER, ALIGN_HALIGN_CENTER | ALIGN_VALIGN_CENTER);
    assert_eq!(BlendFactor::default().bits, 0);
    assert_eq!(CompositeOperationState::default().src_rgb.bits, 0);
    assert_eq!(Physical::default(), Physical);
}

fn check(op: CompositeOperation, s: i32, d: i32) {
    let st = op.state();
    assert_eq!(st.src_rgb.bits, s);
    assert_eq!(st.src_alpha.bits, s);
    assert_eq!(st.dst_rgb.bits, d);
    assert_eq!(st.dst_alpha.bits, d);
}

#[test]
fn composite_operation_states() {
    check(CompositeOperation::SourceOver, BLEND_ONE, BLEND_ONE_MINUS_SRC_ALPHA);
    check(CompositeOperation::SourceIn, BLEND_DST_ALPHA, BLEND_ZERO);
    check(CompositeOperation::SourceOut, BLEND_ONE_MINUS_DST_ALPHA, BLEND_ZERO);
    check(CompositeOperation::Atop, BLEND_DST_ALPHA, BLEND_ONE_MINUS_SRC_ALPHA);
    check(CompositeOperation::DestinationOver, BLEND_ONE_MINUS_DST_ALPHA, BLEND_ONE);
    check(CompositeOperation::DestinationIn, BLEND_ZERO, BLEND_SRC_ALPHA);
    check(CompositeOperation::DestinationOut, BLEND_ZERO, BLEND_ONE_MINUS_SRC_ALPHA);
    check(CompositeOperation::DestinationAtop, BLEND_ONE_MINUS_DST_ALPHA, BLEND_SRC_ALPHA);
    check(CompositeOperation::Lighter, BLEND_ONE, BLEND_ONE);
    check(CompositeOperation::Copy, BLEND_ONE, BLEND_ZERO);
    check(CompositeOperation::Xor, BLEND_ONE_MINUS_DST_ALPHA, BLEND_ONE_MINUS_SRC_ALPHA);
    assert_eq!(BLEND_ONE_MINUS_SRC_ALPHA, 1 << 7);
    assert_eq!(BLEND_SRC_ALPHA_SATURATE, 1 << 10);
}

#[test]
fn blend_factor_bits() {
    assert_eq!(BlendFactor::from_bits(BLEND_DST_COLOR).bits(), 16);
    assert_eq!(BlendFactor::empty().bits, 0);
    assert_eq!(IMAGE_NEAREST, 1 << 5);
    assert_eq!(TEXTURE_RGBA, 2);
}
