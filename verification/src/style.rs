//! Drawing styles: winding, line caps and joins, fill rules, blend factors,
//! composite operations and the flag sets of images, textures and alignment.
use vstd::prelude::*;

verus! {

/// The winding direction of a sub-path.
#[derive(Debug, Clone, Copy, PartialEq, Eq, Structural, Hash)]
pub enum Winding {
    /// Winding for solid shapes (CCW)
    Solid,
    /// Winding for holes (CW)
    Hole,
}

impl Winding {
    /// The byte that stands for this winding in a packed command buffer.
    pub open spec fn spec_byte(self) -> u8 {
        match self {
            Winding::Solid => 0u8,
            Winding::Hole => 1u8,
        }
    }

    /// Decoding of a winding byte: zero is solid, anything else is a hole.
    pub open spec fn spec_from_u8(w: u8) -> Winding {
        if w == 0 {
            Winding::Solid
        } else {
            Winding::Hole
        }
    }

    pub fn from_u8(w: u8) -> (r: Winding)
        ensures
            r == Winding::spec_from_u8(w),
    {
        if w == 0 {
            Winding::Solid
        } else {
            Winding::Hole
        }
    }

    /// The discriminant of the winding (`Solid` is 0, `Hole` is 1).
    pub fn to_u8(self) -> (r: u8)
        ensures
            r == self.spec_byte(),
    {
        match self {
            Winding::Solid => 0u8,
            Winding::Hole => 1u8,
        }
    }
}

/// Decoding the byte of a winding gives the winding back.
pub proof fn lemma_winding_byte_roundtrip(w: Winding)
    ensures
        Winding::spec_from_u8(w.spec_byte()) == w,
{
}


/// How the ends of open strokes are drawn.
#[derive(Debug, Clone, Copy, PartialEq, Eq, Structural, Hash)]
pub enum LineCap {
    Butt,
    Round,
    Square,
    Bevel,
    Miter,
}

impl Default for LineCap {
    fn default() -> (r: LineCap)
        ensures
            r == LineCap::Butt,
    {
        LineCap::Butt
    }
}

/// How the corners of strokes are drawn.
#[derive(Debug, Clone, Copy, PartialEq, Eq, Structural, Hash)]
pub enum LineJoin {
    Butt,
    Round,
    Square,
    Bevel,
    Miter,
}

impl Default for LineJoin {
    fn default() -> (r: LineJoin)
        ensures
            r == LineJoin::Butt,
    {
        LineJoin::Butt
    }
}

/// The fill rule defines how to determine what is inside and what is outside of
/// a shape (see the SVG `fill-rule` property).
#[derive(Debug, Clone, Copy, PartialEq, Eq, Structural, Hash)]
pub enum FillRule {
    NonZero,
    EvenOdd,
}

impl Default for FillRule {
    fn default() -> (r: FillRule)
        ensures
            r == FillRule::NonZero,
    {
        FillRule::NonZero
    }
}

/// Units in physical pixels.
#[derive(Debug, Clone, Copy, PartialEq, Eq, Structural, Hash)]
pub struct Physical;

impl Default for Physical {
    fn default() -> (r: Physical)
        ensures
            r == Physical,
    {
        Physical
    }
}

/// A set of blend factors, one bit each.
#[derive(Debug, Clone, Copy, PartialEq, Eq, Structural, Hash)]
pub struct BlendFactor {
    pub bits: i32,
}

pub const BLEND_ZERO: i32 = 1;
pub const BLEND_ONE: i32 = 2;
pub const BLEND_SRC_COLOR: i32 = 4;
pub const BLEND_ONE_MINUS_SRC_COLOR: i32 = 8;
pub const BLEND_DST_COLOR: i32 = 16;
pub const BLEND_ONE_MINUS_DST_COLOR: i32 = 32;
pub const BLEND_SRC_ALPHA: i32 = 64;
pub const BLEND_ONE_MINUS_SRC_ALPHA: i32 = 128;
pub const BLEND_DST_ALPHA: i32 = 256;
pub const BLEND_ONE_MINUS_DST_ALPHA: i32 = 512;
pub const BLEND_SRC_ALPHA_SATURATE: i32 = 1024;

impl BlendFactor {
    /// The factor set that holds exactly the given bits.
    pub fn from_bits(bits: i32) -> (r: BlendFactor)
        ensures
            r.bits == bits,
    {
        BlendFactor { bits }
    }

    pub fn bits(&self) -> (r: i32)
        ensures
            r == self.bits,
    {
        self.bits
    }

    /// The empty set of factors.
    pub fn empty() -> (r: BlendFactor)
        ensures
            r.bits == 0,
    {
        BlendFactor { bits: 0 }
    }
}

impl Default for BlendFactor {
    fn default() -> (r: BlendFactor)
        ensures
            r.bits == 0,
    {
        BlendFactor::empty()
    }
}

/// The Porter-Duff style composite operations.
#[derive(Debug, Clone, Copy, PartialEq, Eq, Structural, Hash)]
pub enum CompositeOperation {
    SourceOver,
    SourceIn,
    SourceOut,
    Atop,
    DestinationOver,
    DestinationIn,
    DestinationOut,
    DestinationAtop,
    Lighter,
    Copy,
    Xor,
}

/// The source and destination blend factors of an operation, as bits.
pub open spec fn composite_factors(op: CompositeOperation) -> (i32, i32) {
    match op {
        CompositeOperation::SourceOver => (BLEND_ONE, BLEND_ONE_MINUS_SRC_ALPHA),
        CompositeOperation::SourceIn => (BLEND_DST_ALPHA, BLEND_ZERO),
        CompositeOperation::SourceOut => (BLEND_ONE_MINUS_DST_ALPHA, BLEND_ZERO),
        CompositeOperation::Atop => (BLEND_DST_ALPHA, BLEND_ONE_MINUS_SRC_ALPHA),
        CompositeOperation::DestinationOver => (BLEND_ONE_MINUS_DST_ALPHA, BLEND_ONE),
        CompositeOperation::DestinationIn => (BLEND_ZERO, BLEND_SRC_ALPHA),
        CompositeOperation::DestinationOut => (BLEND_ZERO, BLEND_ONE_MINUS_SRC_ALPHA),
        CompositeOperation::DestinationAtop => (BLEND_ONE_MINUS_DST_ALPHA, BLEND_SRC_ALPHA),
        CompositeOperation::Lighter => (BLEND_ONE, BLEND_ONE),
        CompositeOperation::Copy => (BLEND_ONE, BLEND_ZERO),
        CompositeOperation::Xor => (BLEND_ONE_MINUS_DST_ALPHA, BLEND_ONE_MINUS_SRC_ALPHA),
    }
}

/// The blend state of a composite operation: the same source and destination
/// factors apply to the color and to the alpha channel.
#[derive(Debug, Clone, Copy, PartialEq, Eq, Structural, Hash)]
pub struct CompositeOperationState {
    pub src_rgb: BlendFactor,
    pub dst_rgb: BlendFactor,
    pub src_alpha: BlendFactor,
    pub dst_alpha: BlendFactor,
}

impl Default for CompositeOperationState {
    fn default() -> (r: CompositeOperationState)
        ensures
            r.src_rgb.bits == 0,
            r.dst_rgb.bits == 0,
            r.src_alpha.bits == 0,
            r.dst_alpha.bits == 0,
    {
        CompositeOperationState {
            src_rgb: BlendFactor::empty(),
            dst_rgb: BlendFactor::empty(),
            src_alpha: BlendFactor::empty(),
            dst_alpha: BlendFactor::empty(),
        }
    }
}

impl CompositeOperation {
    pub fn state(&self) -> (r: CompositeOperationState)
        ensures
            r.src_rgb.bits == composite_factors(*self).0,
            r.dst_rgb.bits == composite_factors(*self).1,
            r.src_alpha.bits == composite_factors(*self).0,
            r.dst_alpha.bits == composite_factors(*self).1,
    {
        let (s_factor, d_factor) = match self {
            CompositeOperation::SourceOver => (BLEND_ONE, BLEND_ONE_MINUS_SRC_ALPHA),
            CompositeOperation::SourceIn => (BLEND_DST_ALPHA, BLEND_ZERO),
            CompositeOperation::SourceOut => (BLEND_ONE_MINUS_DST_ALPHA, BLEND_ZERO),
            CompositeOperation::Atop => (BLEND_DST_ALPHA, BLEND_ONE_MINUS_SRC_ALPHA),
            CompositeOperation::DestinationOver => (BLEND_ONE_MINUS_DST_ALPHA, BLEND_ONE),
            CompositeOperation::DestinationIn => (BLEND_ZERO, BLEND_SRC_ALPHA),
            CompositeOperation::DestinationOut => (BLEND_ZERO, BLEND_ONE_MINUS_SRC_ALPHA),
            CompositeOperation::DestinationAtop => (BLEND_ONE_MINUS_DST_ALPHA, BLEND_SRC_ALPHA),
            CompositeOperation::Lighter => (BLEND_ONE, BLEND_ONE),
            CompositeOperation::Copy => (BLEND_ONE, BLEND_ZERO),
            CompositeOperation::Xor => (BLEND_ONE_MINUS_DST_ALPHA, BLEND_ONE_MINUS_SRC_ALPHA),
        };
        CompositeOperationState {
            src_rgb: BlendFactor::from_bits(s_factor),
            dst_rgb: BlendFactor::from_bits(d_factor),
            src_alpha: BlendFactor::from_bits(s_factor),
            dst_alpha: BlendFactor::from_bits(d_factor),
        }
    }
}

/// Every composite operation blends with exactly one source factor and one
/// destination factor, each a single flag.
pub proof fn lemma_composite_factors_single_flags(op: CompositeOperation)
    ensures
        is_single_blend_flag(composite_factors(op).0),
        is_single_blend_flag(composite_factors(op).1),
{
}

/// Whether the bits are one of the eleven blend factor flags.
pub open spec fn is_single_blend_flag(bits: i32) -> bool {
    bits == BLEND_ZERO || bits == BLEND_ONE || bits == BLEND_SRC_COLOR
        || bits == BLEND_ONE_MINUS_SRC_COLOR || bits == BLEND_DST_COLOR
        || bits == BLEND_ONE_MINUS_DST_COLOR || bits == BLEND_SRC_ALPHA
        || bits == BLEND_ONE_MINUS_SRC_ALPHA || bits == BLEND_DST_ALPHA
        || bits == BLEND_ONE_MINUS_DST_ALPHA || bits == BLEND_SRC_ALPHA_SATURATE
}

/// Text alignment flags.
#[derive(Debug, Clone, Copy, PartialEq, Eq, Structural, Hash)]
pub struct Align {
    pub bits: i32,
}

pub const ALIGN_HALIGN_LEFT: i32 = 1;
pub const ALIGN_HALIGN_CENTER: i32 = 2;
pub const ALIGN_HALIGN_RIGHT: i32 = 4;
pub const ALIGN_VALIGN_TOP: i32 = 8;
pub const ALIGN_VALIGN_CENTER: i32 = 16;
pub const ALIGN_VALIGN_BOTTOM: i32 = 32;
pub const ALIGN_VALIGN_BASELINE: i32 = 64;
/// Centered in both directions.
pub const ALIGN_CENTER: i32 = 18;
/// Left aligned, on the baseline.
pub const ALIGN_DEFAULT: i32 = 65;

impl Default for Align {
    fn default() -> (r: Align)
        ensures
            r.bits == ALIGN_DEFAULT,
    {
        Align { bits: ALIGN_DEFAULT }
    }
}

/// The combined alignments are the unions of their parts.
pub proof fn lemma_align_combinations()
    ensures
        ALIGN_CENTER == ALIGN_HALIGN_CENTER | ALIGN_VALIGN_CENTER,
        ALIGN_DEFAULT == ALIGN_HALIGN_LEFT | ALIGN_VALIGN_BASELINE,
{
    assert(18i32 == 2i32 | 16i32) by (bit_vector);
    assert(65i32 == 1i32 | 64i32) by (bit_vector);
}

/// Image handling flags.
#[derive(Debug, Clone, Copy, PartialEq, Eq, Structural, Hash)]
pub struct ImageFlags {
    pub bits: i32,
}

/// Generate mipmaps during creation of the image
pub const IMAGE_GENERATE_MIPMAPS: i32 = 1;
/// Repeat image in X direction
pub const IMAGE_REPEAT_X: i32 = 2;
/// Repeat image in Y direction
pub const IMAGE_REPEAT_Y: i32 = 4;
/// Flips (inverses) image in Y direction when rendered
pub const IMAGE_FLIP_Y: i32 = 8;
/// Image data has premultiplied alpha
pub const IMAGE_PREMULTIPLIED: i32 = 16;
/// Image interpolation is Nearest instead Linear
pub const IMAGE_NEAREST: i32 = 32;

/// Texture type flags.
#[derive(Debug, Clone, Copy, PartialEq, Eq, Structural, Hash)]
pub struct TextureType {
    pub bits: i32,
}

pub const TEXTURE_ALPHA: i32 = 1;
pub const TEXTURE_RGBA: i32 = 2;

} // verus!
