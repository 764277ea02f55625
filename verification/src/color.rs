//! RGBA colors, the fixed six-entry palette, and the reserved colors.

use vstd::prelude::*;

verus! {

/// One RGBA pixel value, 8 bits per channel, non-premultiplied alpha.
#[derive(Clone, Copy, PartialEq, Eq, Structural, Debug)]
pub struct Color {
    pub r: u8,
    pub g: u8,
    pub b: u8,
    pub a: u8,
}

/// The reserved "unpainted" sentinel: opaque white. A pixel of the
/// progressive rasterizer holds this color until a site's ink reaches it.
pub open spec fn spec_unpainted() -> Color {
    Color { r: 255, g: 255, b: 255, a: 255 }
}

/// The marker color: opaque black.
pub open spec fn spec_marker() -> Color {
    Color { r: 0, g: 0, b: 0, a: 255 }
}

/// The palette color for a site index: the fixed six-entry palette,
/// cycled via the index modulo six. Total over all integers; callers use
/// non-negative indices.
pub open spec fn spec_color_for(i: int) -> Color {
    let k = i % 6;
    if k == 0 {
        Color { r: 255, g: 128, b: 128, a: 255 }
    } else if k == 1 {
        Color { r: 128, g: 255, b: 128, a: 255 }
    } else if k == 2 {
        Color { r: 128, g: 128, b: 255, a: 255 }
    } else if k == 3 {
        Color { r: 255, g: 255, b: 128, a: 255 }
    } else if k == 4 {
        Color { r: 255, g: 128, b: 255, a: 255 }
    } else {
        Color { r: 128, g: 255, b: 255, a: 255 }
    }
}

/// The "unpainted" sentinel color as a runtime value.
pub fn unpainted_color() -> (c: Color)
    ensures
        c == spec_unpainted(),
{
    Color { r: 255, g: 255, b: 255, a: 255 }
}

/// The marker color as a runtime value.
pub fn marker_color() -> (c: Color)
    ensures
        c == spec_marker(),
{
    Color { r: 0, g: 0, b: 0, a: 255 }
}

/// Deterministic palette lookup: the color for site index `i`, fully opaque.
pub fn color_for(i: usize) -> (c: Color)
    ensures
        c == spec_color_for(i as int),
{
    let k = i % 6;
    if k == 0 {
        Color { r: 255, g: 128, b: 128, a: 255 }
    } else if k == 1 {
        Color { r: 128, g: 255, b: 128, a: 255 }
    } else if k == 2 {
        Color { r: 128, g: 128, b: 255, a: 255 }
    } else if k == 3 {
        Color { r: 255, g: 255, b: 128, a: 255 }
    } else if k == 4 {
        Color { r: 255, g: 128, b: 255, a: 255 }
    } else {
        Color { r: 128, g: 255, b: 255, a: 255 }
    }
}

/// Palette cycling: the palette has six entries, so indices six apart
/// receive the same color.
pub proof fn lemma_palette_cycles(i: int)
    ensures
        spec_color_for(i + 6) == spec_color_for(i),
{
    assert((i + 6) % 6 == i % 6) by (nonlinear_arith);
}

/// No palette entry equals the "unpainted" sentinel, so a painted pixel is
/// never mistaken for an unpainted one.
pub proof fn lemma_palette_never_unpainted(i: int)
    ensures
        spec_color_for(i) != spec_unpainted(),
{
}

} // verus!
