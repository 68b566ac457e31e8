//! RGBA colors and distance shading.

use vstd::prelude::*;
use crate::fixed::SHADE_FULL;

verus! {

/// A color with red, green, blue and alpha channels.
#[derive(Clone, Copy, Debug, PartialEq, Eq, Structural)]
pub struct Rgba {
    pub r: u8,
    pub g: u8,
    pub b: u8,
    pub a: u8,
}

/// The color with the given channels.
pub open spec fn rgba(r: u8, g: u8, b: u8, a: u8) -> Rgba {
    Rgba { r, g, b, a }
}

impl Rgba {
    pub fn new(r: u8, g: u8, b: u8, a: u8) -> (c: Rgba)
        ensures
            c == rgba(r, g, b, a),
    {
        Rgba { r, g, b, a }
    }

    /// The fallback color of enemies.
    pub fn red() -> (c: Rgba)
        ensures
            c == rgba(255, 0, 0, 255),
    {
        Rgba::new(255, 0, 0, 255)
    }

    /// The fallback color of the finish marker.
    pub fn gold() -> (c: Rgba)
        ensures
            c == rgba(255, 215, 0, 255),
    {
        Rgba::new(255, 215, 0, 255)
    }

    /// The fallback color of walls, and of plain vertical wall symbols.
    pub fn gray() -> (c: Rgba)
        ensures
            c == rgba(128, 128, 128, 255),
    {
        Rgba::new(128, 128, 128, 255)
    }

    /// The flat color of corner and horizontal wall symbols.
    pub fn dark_gray() -> (c: Rgba)
        ensures
            c == rgba(169, 169, 169, 255),
    {
        Rgba::new(169, 169, 169, 255)
    }

    /// The flat color of other wall symbols.
    pub fn light_gray() -> (c: Rgba)
        ensures
            c == rgba(211, 211, 211, 255),
    {
        Rgba::new(211, 211, 211, 255)
    }
}

/// A channel scaled by a per-mille shade factor, rounded down.
pub open spec fn shade_channel(v: u8, shade: int) -> int {
    v * shade / (SHADE_FULL as int)
}

/// A color whose red, green and blue channels are scaled by a per-mille
/// shade factor, with the alpha channel given.
pub open spec fn shaded(c: Rgba, shade: int, alpha: u8) -> Rgba {
    Rgba {
        r: shade_channel(c.r, shade) as u8,
        g: shade_channel(c.g, shade) as u8,
        b: shade_channel(c.b, shade) as u8,
        a: alpha,
    }
}

fn shade_u8(v: u8, shade: u64) -> (r: u8)
    requires
        shade <= SHADE_FULL,
    ensures
        r == shade_channel(v, shade as int),
{
    assert((v as u64) * shade / 1000 <= 255) by (nonlinear_arith)
        requires
            shade <= 1000,
            v <= 255,
    ;
    ((v as u64) * shade / 1000) as u8
}

/// Scales the red, green and blue channels of `c` by the per-mille factor
/// `shade`, and sets the alpha channel to `alpha`.
pub fn shade_color(c: Rgba, shade: u64, alpha: u8) -> (r: Rgba)
    requires
        shade <= SHADE_FULL,
    ensures
        r == shaded(c, shade as int, alpha),
        r.r <= c.r,
        r.g <= c.g,
        r.b <= c.b,
{
    assert(forall|v: u8, s: int| 0 <= s <= 1000 ==> #[trigger] shade_channel(v, s) <= v) by {
        assert forall|v: u8, s: int| 0 <= s <= 1000 implies #[trigger] shade_channel(v, s) <= v by {
            assert(v * s / 1000 <= v) by (nonlinear_arith)
                requires
                    0 <= s <= 1000,
                    0 <= v,
            ;
        }
    }
    Rgba { r: shade_u8(c.r, shade), g: shade_u8(c.g, shade), b: shade_u8(c.b, shade), a: alpha }
}

} // verus!
