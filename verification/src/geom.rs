//! Geometric value types: three-component positions and RGBA colors,
//! both built from exact rational scalars.

use vstd::prelude::*;
use crate::ratio::Ratio;

verus! {

/// A point (or direction) in three-dimensional space.
#[derive(Clone, Copy, Debug, PartialEq, Eq, Structural)]
pub struct Vec3 {
    pub x: Ratio,
    pub y: Ratio,
    pub z: Ratio,
}

impl Vec3 {
    pub open spec fn wf(self) -> bool {
        self.x.wf() && self.y.wf() && self.z.wf()
    }

    pub fn new(x: Ratio, y: Ratio, z: Ratio) -> (v: Vec3)
        ensures
            v == (Vec3 { x, y, z }),
    {
        Vec3 { x, y, z }
    }

    /// The origin.
    pub fn origin() -> (v: Vec3)
        ensures
            v.wf(),
            v == (Vec3 { x: Ratio { num: 0, den: 1 }, y: Ratio { num: 0, den: 1 }, z: Ratio { num: 0, den: 1 } }),
    {
        Vec3 { x: Ratio::zero(), y: Ratio::zero(), z: Ratio::zero() }
    }
}

/// An RGBA color; each channel is an exact rational scalar.
#[derive(Clone, Copy, Debug, PartialEq, Eq, Structural)]
pub struct Color {
    pub r: Ratio,
    pub g: Ratio,
    pub b: Ratio,
    pub a: Ratio,
}

impl Color {
    pub open spec fn wf(self) -> bool {
        self.r.wf() && self.g.wf() && self.b.wf() && self.a.wf()
    }

    pub fn new(r: Ratio, g: Ratio, b: Ratio, a: Ratio) -> (c: Color)
        ensures
            c == (Color { r, g, b, a }),
    {
        Color { r, g, b, a }
    }

    /// Opaque white, the default emitter color.
    pub fn white() -> (c: Color)
        ensures
            c.wf(),
            c == (Color { r: Ratio { num: 1, den: 1 }, g: Ratio { num: 1, den: 1 }, b: Ratio { num: 1, den: 1 }, a: Ratio { num: 1, den: 1 } }),
    {
        Color { r: Ratio::one(), g: Ratio::one(), b: Ratio::one(), a: Ratio::one() }
    }
}

} // verus!
