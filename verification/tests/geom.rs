use rootvg::geom::{offset_scissor_rect, physical_scissor_rect, PointI32, RectI32, SizeI32, VectorI32};

fn rect(x: i32, y: i32, w: i32, h: i32) -> RectI32 {
    RectI32::new(PointI32::new(x, y), SizeI32::new(w, h))
}

#[test]
fn offset_scissor_rect_moves_rect() {
    let r = offset_scissor_rect(rect(10, 20, 30, 40), PointI32::new(5, -5), SizeI32::new(100, 100));
    assert_eq!(r, Some(rect(15, 15, 30, 40)));
}

#[test]
fn offset_scissor_rect_off_screen() {
    let size = SizeI32::new(100, 100);
    // left of the screen
    assert_eq!(offset_scissor_rect(rect(-30, 0, 30, 10), PointI32::new(0, 0), size), None);
    // right of the screen
    assert_eq!(offset_scissor_rect(rect(90, 0, 30, 10), PointI32::new(10, 0), size), None);
    // above the screen
    assert_eq!(offset_scissor_rect(rect(0, -10, 30, 10), PointI32::new(0, 0), size), None);
    // below the screen
    assert_eq!(offset_scissor_rect(rect(0, 100, 30, 10), PointI32::new(0, 0), size), None);
    // partly on screen is kept as it is
    assert_eq!(
        offset_scissor_rect(rect(-29, 0, 30, 10), PointI32::new(0, 0), size),
        Some(rect(-29, 0, 30, 10))
    );
}

#[test]
fn physical_scissor_rect_clamps() {
    let phys = SizeI32::new(200, 100);
    // Inside: unchanged.
    assert_eq!(
        physical_scissor_rect(rect(10, 10, 50, 50), SizeI32::new(25, 25), phys),
        Some(rect(10, 10, 50, 50))
    );
    // Negative origin is clamped to zero and the size shrinks.
    assert_eq!(
        physical_scissor_rect(rect(-10, -20, 50, 50), SizeI32::new(25, 25), phys),
        Some(rect(0, 0, 40, 30))
    );
    // Past the far edges the size is cut.
    assert_eq!(
        physical_scissor_rect(rect(180, 90, 50, 50), SizeI32::new(25, 25), phys),
        Some(rect(180, 90, 20, 10))
    );
    // Off the target.
    assert_eq!(physical_scissor_rect(rect(200, 0, 50, 50), SizeI32::new(25, 25), phys), None);
    // The off-target test adds the unscaled size to the scaled origin.
    assert_eq!(physical_scissor_rect(rect(-30, 0, 60, 50), SizeI32::new(30, 25), phys), None);
}

#[test]
fn default_rect_is_zero() {
    assert_eq!(RectI32::default(), rect(0, 0, 0, 0));
    assert_eq!(VectorI32::new(1, 2).x, 1);
}
