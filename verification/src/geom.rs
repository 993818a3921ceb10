//! Integer geometry in logical points: points, sizes, rectangles, and the
//! placement of scissor rectangles on screen.
use vstd::prelude::*;

verus! {

/// A point with integer coordinates.
#[derive(Debug, Clone, Copy, PartialEq, Eq, Structural, Hash)]
pub struct PointI32 {
    pub x: i32,
    pub y: i32,
}

/// A vector with integer components.
#[derive(Debug, Clone, Copy, PartialEq, Eq, Structural, Hash)]
pub struct VectorI32 {
    pub x: i32,
    pub y: i32,
}

/// A size with integer width and height.
#[derive(Debug, Clone, Copy, PartialEq, Eq, Structural, Hash)]
pub struct SizeI32 {
    pub width: i32,
    pub height: i32,
}

/// A rectangle given by its origin and its size.
#[derive(Debug, Clone, Copy, PartialEq, Eq, Structural, Hash)]
pub struct RectI32 {
    pub origin: PointI32,
    pub size: SizeI32,
}

impl PointI32 {
    pub fn new(x: i32, y: i32) -> (r: PointI32)
        ensures
            r == (PointI32 { x, y }),
    {
        PointI32 { x, y }
    }
}

impl VectorI32 {
    pub fn new(x: i32, y: i32) -> (r: VectorI32)
        ensures
            r == (VectorI32 { x, y }),
    {
        VectorI32 { x, y }
    }
}

impl SizeI32 {
    pub fn new(width: i32, height: i32) -> (r: SizeI32)
        ensures
            r == (SizeI32 { width, height }),
    {
        SizeI32 { width, height }
    }
}

impl RectI32 {
    pub fn new(origin: PointI32, size: SizeI32) -> (r: RectI32)
        ensures
            r == (RectI32 { origin, size }),
    {
        RectI32 { origin, size }
    }
}

impl RectI32 {
    /// The rectangle at the origin with zero size.
    pub open spec fn default_spec() -> RectI32 {
        RectI32 { origin: PointI32 { x: 0, y: 0 }, size: SizeI32 { width: 0, height: 0 } }
    }
}

impl Default for RectI32 {
    fn default() -> (r: RectI32)
        ensures
            r == RectI32::default_spec(),
    {
        RectI32 { origin: PointI32 { x: 0, y: 0 }, size: SizeI32 { width: 0, height: 0 } }
    }
}

/// Whether a rectangle with origin `(x, y)` and the given size lies wholly
/// off a screen of size `screen`.
pub open spec fn off_screen(x: int, y: int, size: SizeI32, screen: SizeI32) -> bool {
    x + size.width <= 0 || x >= screen.width || y + size.height <= 0 || y >= screen.height
}

/// Whether moving the rectangle by `offset`, and testing it against `size`,
/// stays within 32-bit integers.
pub open spec fn offset_in_range(scissor_rect: RectI32, offset: PointI32) -> bool {
    let x = scissor_rect.origin.x + offset.x;
    let y = scissor_rect.origin.y + offset.y;
    &&& i32::MIN <= x <= i32::MAX
    &&& i32::MIN <= y <= i32::MAX
    &&& i32::MIN <= x + scissor_rect.size.width <= i32::MAX
    &&& i32::MIN <= y + scissor_rect.size.height <= i32::MAX
}

/// The scissor rectangle moved by `offset`, or `None` when it then lies wholly
/// off a screen of size `size`.
pub open spec fn spec_offset_scissor_rect(
    scissor_rect: RectI32,
    offset: PointI32,
    size: SizeI32,
) -> Option<RectI32> {
    let x = scissor_rect.origin.x + offset.x;
    let y = scissor_rect.origin.y + offset.y;
    if off_screen(x, y, scissor_rect.size, size) {
        None
    } else {
        Some(RectI32 { origin: PointI32 { x: x as i32, y: y as i32 }, size: scissor_rect.size })
    }
}

/// Whether the rectangle with origin `(x, y)` and the given size shares a
/// pixel with a screen of size `screen`.
pub open spec fn shares_pixel(x: int, y: int, size: SizeI32, screen: SizeI32) -> bool {
    exists|px: int, py: int|
        #[trigger] in_span(px, x, size.width as int) && in_span(px, 0, screen.width as int)
            && #[trigger] in_span(py, y, size.height as int) && in_span(py, 0, screen.height as int)
}

/// Whether `p` lies in the span of `len` from `lo`.
pub open spec fn in_span(p: int, lo: int, len: int) -> bool {
    lo <= p < lo + len
}

/// A scissor rectangle of some area is kept, moved by the offset and with its
/// size, exactly when the moved rectangle shares a pixel with the screen; it
/// is dropped (`None`) only when it lies wholly off the screen. (A rectangle
/// or a screen without area is kept or dropped by where the edges fall.)
pub proof fn lemma_offset_scissor_rect_kept_iff_on_screen(
    scissor_rect: RectI32,
    offset: PointI32,
    size: SizeI32,
)
    requires
        offset_in_range(scissor_rect, offset),
        scissor_rect.size.width > 0,
        scissor_rect.size.height > 0,
        size.width > 0,
        size.height > 0,
    ensures
        shares_pixel(
            scissor_rect.origin.x + offset.x,
            scissor_rect.origin.y + offset.y,
            scissor_rect.size,
            size,
        ) ==> spec_offset_scissor_rect(scissor_rect, offset, size) == Some(
            RectI32 {
                origin: PointI32 {
                    x: (scissor_rect.origin.x + offset.x) as i32,
                    y: (scissor_rect.origin.y + offset.y) as i32,
                },
                size: scissor_rect.size,
            },
        ),
        !shares_pixel(
            scissor_rect.origin.x + offset.x,
            scissor_rect.origin.y + offset.y,
            scissor_rect.size,
            size,
        ) ==> spec_offset_scissor_rect(scissor_rect, offset, size) is None,
{
    let x = scissor_rect.origin.x + offset.x;
    let y = scissor_rect.origin.y + offset.y;
    let w = scissor_rect.size.width;
    let h = scissor_rect.size.height;
    if !off_screen(x, y, scissor_rect.size, size) {
        let px = if x > 0 { x } else { 0 };
        let py = if y > 0 { y } else { 0 };
        assert(in_span(px, x, w as int) && in_span(px, 0, size.width as int) && in_span(py, y, h as int)
            && in_span(py, 0, size.height as int));
        assert(shares_pixel(x, y, scissor_rect.size, size));
    } else {
        if shares_pixel(x, y, scissor_rect.size, size) {
            let (px, py) = choose|px: int, py: int|
                #[trigger] in_span(px, x, w as int) && in_span(px, 0, size.width as int)
                    && #[trigger] in_span(py, y, h as int) && in_span(py, 0, size.height as int);
            assert(false);
        }
    }
}

pub fn offset_scissor_rect(scissor_rect: RectI32, offset: PointI32, size: SizeI32) -> (r: Option<
    RectI32,
>)
    requires
        offset_in_range(scissor_rect, offset),
    ensures
        r == spec_offset_scissor_rect(scissor_rect, offset, size),
        scissor_rect.size.width > 0 && scissor_rect.size.height > 0 && size.width > 0 && size.height > 0
            ==> (r is Some <==> shares_pixel(
            scissor_rect.origin.x + offset.x,
            scissor_rect.origin.y + offset.y,
            scissor_rect.size,
            size,
        )),
{
    proof {
        if scissor_rect.size.width > 0 && scissor_rect.size.height > 0 && size.width > 0 && size.height > 0 {
            lemma_offset_scissor_rect_kept_iff_on_screen(scissor_rect, offset, size);
        }
    }
    let x = scissor_rect.origin.x + offset.x;
    let y = scissor_rect.origin.y + offset.y;
    if x + scissor_rect.size.width <= 0 || x >= size.width || y + scissor_rect.size.height <= 0
        || y >= size.height {
        // Scissor rect is off screen
        return None;
    }
    Some(RectI32::new(PointI32::new(x, y), scissor_rect.size))
}

/// A scissor rectangle on screen lies wholly inside the screen: moved by any
/// offset, what `offset_scissor_rect` returns overlaps the screen.
pub proof fn lemma_offset_scissor_rect_on_screen(
    scissor_rect: RectI32,
    offset: PointI32,
    size: SizeI32,
)
    requires
        offset_in_range(scissor_rect, offset),
    ensures
        spec_offset_scissor_rect(scissor_rect, offset, size) matches Some(r) ==> {
            &&& r.size == scissor_rect.size
            &&& r.origin.x < size.width
            &&& r.origin.y < size.height
            &&& r.origin.x + r.size.width > 0
            &&& r.origin.y + r.size.height > 0
        },
{
}

/// Whether the arithmetic of `physical_scissor_rect` stays within 32-bit
/// integers.
pub open spec fn physical_in_range(scaled: RectI32, logical_size: SizeI32) -> bool {
    &&& i32::MIN <= scaled.origin.x + logical_size.width <= i32::MAX
    &&& i32::MIN <= scaled.origin.y + logical_size.height <= i32::MAX
    &&& i32::MIN <= scaled.size.width + scaled.origin.x <= i32::MAX
    &&& i32::MIN <= scaled.size.height + scaled.origin.y <= i32::MAX
}

/// The scissor rectangle in physical pixels clamped to the target, or `None`
/// when it lies off the target.
///
/// `scaled` is the rectangle already scaled to physical pixels; the test of
/// whether it lies off the target adds its unscaled size, `logical_size`, to
/// its scaled origin.
pub open spec fn spec_physical_scissor_rect(
    scaled: RectI32,
    logical_size: SizeI32,
    physical_size: SizeI32,
) -> Option<RectI32> {
    let x0 = scaled.origin.x as int;
    let y0 = scaled.origin.y as int;
    if off_screen(x0, y0, logical_size, physical_size) {
        None
    } else {
        let (x, w) = if x0 < 0 {
            (0int, scaled.size.width + x0)
        } else {
            (x0, scaled.size.width as int)
        };
        let (y, h) = if y0 < 0 {
            (0int, scaled.size.height + y0)
        } else {
            (y0, scaled.size.height as int)
        };
        let w2 = if x + w > physical_size.width {
            physical_size.width - x
        } else {
            w
        };
        let h2 = if y + h > physical_size.height {
            physical_size.height - y
        } else {
            h
        };
        Some(
            RectI32 {
                origin: PointI32 { x: x as i32, y: y as i32 },
                size: SizeI32 { width: w2 as i32, height: h2 as i32 },
            },
        )
    }
}

pub fn physical_scissor_rect(
    scaled: RectI32,
    logical_size: SizeI32,
    physical_size: SizeI32,
) -> (r: Option<RectI32>)
    requires
        physical_in_range(scaled, logical_size),
    ensures
        r == spec_physical_scissor_rect(scaled, logical_size, physical_size),
{
    let mut x = scaled.origin.x;
    let mut y = scaled.origin.y;
    let mut width = scaled.size.width;
    let mut height = scaled.size.height;
    if x + logical_size.width <= 0 || x >= physical_size.width || y + logical_size.height <= 0
        || y >= physical_size.height {
        // Scissor rect is off screen
        return None;
    }
    // Scissor rect must be in bounds
    if x < 0 {
        width = width + x;
        x = 0;
    }
    if y < 0 {
        height = height + y;
        y = 0;
    }
    if x as i64 + width as i64 > physical_size.width as i64 {
        width = physical_size.width - x;
    }
    if y as i64 + height as i64 > physical_size.height as i64 {
        height = physical_size.height - y;
    }
    Some(RectI32::new(PointI32::new(x, y), SizeI32::new(width, height)))
}

/// A scissor rectangle that `physical_scissor_rect` returns starts inside the
/// target and ends inside it, whenever the target is not empty.
pub proof fn lemma_physical_scissor_rect_inside(
    scaled: RectI32,
    logical_size: SizeI32,
    physical_size: SizeI32,
)
    requires
        physical_in_range(scaled, logical_size),
        physical_size.width > 0,
        physical_size.height > 0,
    ensures
        spec_physical_scissor_rect(scaled, logical_size, physical_size) matches Some(r) ==> {
            &&& 0 <= r.origin.x < physical_size.width
            &&& 0 <= r.origin.y < physical_size.height
            &&& r.origin.x + r.size.width <= physical_size.width
            &&& r.origin.y + r.size.height <= physical_size.height
        },
{
}

} // verus!
